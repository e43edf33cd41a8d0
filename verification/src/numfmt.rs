use vstd::prelude::*;
use crate::text::push_char;

verus! {

/// The digit characters, `0`-`9` then upper-case `A`-`F`.
pub open spec fn digit_chars() -> Seq<char> {
    seq!['0', '1', '2', '3', '4', '5', '6', '7', '8', '9', 'A', 'B', 'C', 'D', 'E', 'F']
}

/// The digits of `n` in base `base`, most significant first, without leading zeros
/// (`0` is written as a single `0`).
pub open spec fn radix_digits(n: nat, base: nat) -> Seq<char>
    recommends
        2 <= base <= 16,
    decreases n,
{
    if base < 2 || n < base {
        seq![digit_chars()[n as int]]
    } else {
        proof {
            vstd::arithmetic::div_mod::lemma_div_decreases(n as int, base as int);
        }
        radix_digits(n / base, base).push(digit_chars()[(n % base) as int])
    }
}

/// Decimal text of an integer, with a leading `-` for negative values.
pub open spec fn decimal_text(n: int) -> Seq<char> {
    if n < 0 {
        seq!['-'] + radix_digits((-n) as nat, 10)
    } else {
        radix_digits(n as nat, 10)
    }
}

/// The value of a 64-bit signed integer read as unsigned (two's complement).
pub open spec fn twos_complement(n: int) -> nat {
    if n >= 0 {
        n as nat
    } else {
        (n + 0x1_0000_0000_0000_0000) as nat
    }
}

fn digit_char(d: u64) -> (c: char)
    requires
        d < 16,
    ensures
        c == digit_chars()[d as int],
{
    match d {
        0 => '0',
        1 => '1',
        2 => '2',
        3 => '3',
        4 => '4',
        5 => '5',
        6 => '6',
        7 => '7',
        8 => '8',
        9 => '9',
        10 => 'A',
        11 => 'B',
        12 => 'C',
        13 => 'D',
        14 => 'E',
        _ => 'F',
    }
}

/// Appends the digits of `n` in base `base` to `out`.
pub fn push_radix_digits(out: &mut String, n: u64, base: u64)
    requires
        2 <= base <= 16,
    ensures
        final(out)@ == old(out)@ + radix_digits(n as nat, base as nat),
{
    let mut rev: Vec<char> = Vec::new();
    let mut m: u64 = n;
    loop
        invariant_except_break
            2 <= base <= 16,
            radix_digits(n as nat, base as nat) == radix_digits(m as nat, base as nat) + rev@.reverse(),
        ensures
            radix_digits(n as nat, base as nat) == rev@.reverse(),
        decreases m,
    {
        if m < base {
            let c = digit_char(m);
            assert(seq![c] + rev@.reverse() == rev@.push(c).reverse());
            rev.push(c);
            break;
        }
        let d = m % base;
        let c = digit_char(d);
        let next = m / base;
        assert(next < m) by (nonlinear_arith)
            requires
                next == m / base,
                base >= 2,
                m >= base,
        ;
        assert(radix_digits(m as nat, base as nat) == radix_digits(next as nat, base as nat).push(c));
        assert(radix_digits(next as nat, base as nat).push(c) + rev@.reverse()
            == radix_digits(next as nat, base as nat) + rev@.push(c).reverse());
        rev.push(c);
        m = next;
    }
    let ghost start = out@;
    let mut i: usize = rev.len();
    while i > 0
        invariant
            i <= rev@.len(),
            out@ == start + rev@.reverse().take(rev@.len() - i),
        decreases i,
    {
        i = i - 1;
        push_char(out, rev[i]);
        assert(rev@.reverse().take(rev@.len() - i) == rev@.reverse().take(rev@.len() - i - 1).push(
            rev@[i as int],
        ));
    }
    assert(rev@.reverse().take(rev@.len() as int) == rev@.reverse());
}

/// Appends the decimal text of `n` to `out`.
pub fn push_decimal(out: &mut String, n: i64)
    ensures
        final(out)@ == old(out)@ + decimal_text(n as int),
{
    if n < 0 {
        push_char(out, '-');
        let mag: u64 = (-(n as i128)) as u64;
        push_radix_digits(out, mag, 10);
        assert(old(out)@.push('-') + radix_digits(mag as nat, 10) == old(out)@ + (seq!['-']
            + radix_digits(mag as nat, 10)));
    } else {
        push_radix_digits(out, n as u64, 10);
    }
}

/// The decimal text of an integer.
pub fn decimal_string(n: i64) -> (s: String)
    ensures
        s@ == decimal_text(n as int),
{
    let mut s = String::new();
    push_decimal(&mut s, n);
    s
}

fn radix_string(value: i64, prefix: char, base: u64) -> (s: String)
    requires
        2 <= base <= 16,
    ensures
        s@ == seq!['0', prefix] + radix_digits(twos_complement(value as int), base as nat),
{
    let mut s = String::new();
    push_char(&mut s, '0');
    push_char(&mut s, prefix);
    let bits: u64 = value as u64;
    assert(value < 0 ==> bits == value + 0x1_0000_0000_0000_0000) by (bit_vector)
        requires
            bits == value as u64,
    ;
    assert(value >= 0 ==> bits == value) by (bit_vector)
        requires
            bits == value as u64,
    ;
    push_radix_digits(&mut s, bits, base);
    s
}

/// Upper-case hexadecimal text of an integer, prefixed with `0x`; a negative value
/// is written by its 64-bit two's complement.
pub fn to_hex(value: i64) -> (s: String)
    ensures
        s@ == seq!['0', 'x'] + radix_digits(twos_complement(value as int), 16),
{
    radix_string(value, 'x', 16)
}

/// Binary text of an integer, prefixed with `0b`; a negative value is written by
/// its 64-bit two's complement.
pub fn to_binary(value: i64) -> (s: String)
    ensures
        s@ == seq!['0', 'b'] + radix_digits(twos_complement(value as int), 2),
{
    radix_string(value, 'b', 2)
}

/// Octal text of an integer, prefixed with `0o`; a negative value is written by
/// its 64-bit two's complement.
pub fn to_octal(value: i64) -> (s: String)
    ensures
        s@ == seq!['0', 'o'] + radix_digits(twos_complement(value as int), 8),
{
    radix_string(value, 'o', 8)
}

} // verus!
