use vstd::prelude::*;
use vstd::string::*;
use vstd::utf8::encode_utf8;
use crate::numfmt::{decimal_text, push_decimal};
use crate::text::{push_char, trim_class, trim_spec, TrimClass, join, join_spec, views, law_trim_ends, lemma_join_push, lemma_trim_within};
use crate::value::{Value, value_depth, pairs_depth, lemma_pairs_depth_bound, depth_within};

verus! {

broadcast use vstd::string::group_string_axioms;

/// Why a formatting call was refused.
#[derive(Debug, PartialEq, Eq, Structural)]
pub enum FmtError {
    /// A `{}` placeholder has no argument left to fill it.
    NotEnoughArguments,
    /// Arguments are left over after the last placeholder.
    TooManyArguments,
    /// A string to be written is not valid UTF-8.
    InvalidUtf8,
    /// The template (the first argument) is not a string.
    TemplateNotString,
    /// A value of a kind the function does not accept.
    UnsupportedValue,
}

/// `n` spaces.
pub open spec fn spaces(n: nat) -> Seq<char> {
    Seq::new(n, |i: int| ' ')
}

/// `s` between double quotes.
pub open spec fn quoted(s: Seq<char>) -> Seq<char> {
    seq!['"'] + s + seq!['"']
}

/// How a table key is written: strings quoted, integers in decimal, anything else as `<key>`.
/// `None` when the key is a string that is not valid UTF-8.
pub open spec fn key_text(k: Value) -> Option<Seq<char>> {
    match k {
        Value::Str(s) => Some(quoted(s@)),
        Value::RawStr(_) => None,
        Value::Integer(i) => Some(decimal_text(i as int)),
        _ => Some("<key>"@),
    }
}

/// How a value is written at indentation `indent`; strings are quoted when
/// `in_table`. `None` when some string met on the way is not valid UTF-8.
pub open spec fn value_text(v: Value, indent: nat, in_table: bool) -> Option<Seq<char>>
    decreases v, 0nat,
{
    match v {
        Value::Nil => Some("nil"@),
        Value::Boolean(b) => Some(
            if b {
                "true"@
            } else {
                "false"@
            },
        ),
        Value::Integer(i) => Some(decimal_text(i as int)),
        Value::Number(t) => Some(t@),
        Value::Str(s) => Some(
            if in_table {
                quoted(s@)
            } else {
                s@
            },
        ),
        Value::RawStr(_) => None,
        Value::Table(pairs) => match entries_text(pairs, pairs@.len(), indent) {
            None => None,
            Some(body) => Some(
                "{\n"@ + (if pairs@.len() == 0 {
                    Seq::empty()
                } else {
                    body + seq!['\n'] + spaces(indent)
                }) + seq!['}'],
            ),
        },
        _ => Some("<unsupported>"@),
    }
}

/// The first `n` entries of a table at indentation `indent`, one per line,
/// separated by `,` and a line break; each is `key: value`, indented by `indent + 2`.
pub open spec fn entries_text(pairs: Vec<(Value, Value)>, n: nat, indent: nat) -> Option<
    Seq<char>,
>
    decreases pairs, n,
{
    if n == 0 || n > pairs@.len() {
        Some(Seq::empty())
    } else {
        let sep = if n == 1 {
            Seq::empty()
        } else {
            ",\n"@
        };
        match entries_text(pairs, (n - 1) as nat, indent) {
            None => None,
            Some(prev) => match key_text(pairs@[n - 1].0) {
                None => None,
                Some(k) => match value_text(pairs@[n - 1].1, indent + 2, true) {
                    None => None,
                    Some(val) => Some(prev + sep + spaces(indent + 2) + k + ": "@ + val),
                },
            },
        }
    }
}

proof fn lemma_entries_none_stays(pairs: Vec<(Value, Value)>, i: nat, n: nat, indent: nat)
    requires
        i <= n <= pairs@.len(),
        0 < i,
        entries_text(pairs, i, indent) is None,
    ensures
        entries_text(pairs, n, indent) is None,
    decreases n - i,
{
    if n > i {
        lemma_entries_none_stays(pairs, i, (n - 1) as nat, indent);
    }
}

fn push_spaces(out: &mut String, n: usize)
    ensures
        final(out)@ == old(out)@ + spaces(n as nat),
{
    let ghost start = out@;
    let mut i: usize = 0;
    while i < n
        invariant
            i <= n,
            out@ == start + spaces(i as nat),
        decreases n - i,
    {
        push_char(out, ' ');
        i = i + 1;
        assert(start + spaces(i as nat) == (start + spaces((i - 1) as nat)).push(' '));
    }
}

fn push_key(out: &mut String, k: &Value) -> (ok: bool)
    ensures
        ok == key_text(*k) is Some,
        ok ==> final(out)@ == old(out)@ + key_text(*k).unwrap(),
{
    match k {
        Value::Str(s) => {
            push_char(out, '"');
            out.append(s.as_str());
            push_char(out, '"');
            assert(old(out)@.push('"') + s@ + seq!['"'] == old(out)@ + quoted(s@));
            true
        },
        Value::RawStr(_) => false,
        Value::Integer(i) => {
            push_decimal(out, *i);
            true
        },
        _ => {
            out.append("<key>");
            true
        },
    }
}

/// Appends the text of `v` (see `value_text`); `false` when it has none.
fn push_value(out: &mut String, v: &Value, indent: usize, in_table: bool) -> (ok: bool)
    requires
        indent + 2 * value_depth(*v) <= usize::MAX,
    ensures
        ok == value_text(*v, indent as nat, in_table) is Some,
        ok ==> final(out)@ == old(out)@ + value_text(*v, indent as nat, in_table).unwrap(),
    decreases v,
{
    match v {
        Value::Nil => {
            out.append("nil");
            true
        },
        Value::Boolean(b) => {
            if *b {
                out.append("true");
            } else {
                out.append("false");
            }
            true
        },
        Value::Integer(i) => {
            push_decimal(out, *i);
            true
        },
        Value::Number(t) => {
            out.append(t.as_str());
            true
        },
        Value::Str(s) => {
            if in_table {
                push_char(out, '"');
                out.append(s.as_str());
                push_char(out, '"');
                assert(old(out)@.push('"') + s@ + seq!['"'] == old(out)@ + quoted(s@));
            } else {
                out.append(s.as_str());
            }
            true
        },
        Value::RawStr(_) => false,
        Value::Table(pairs) => {
            let ghost start = out@;
            out.append("{\n");
            let next = indent + 2;
            let n = pairs.len();
            let mut i: usize = 0;
            while i < n
                invariant
                    n == pairs@.len(),
                    i <= n,
                    next == indent + 2,
                    indent + 2 * value_depth(*v) <= usize::MAX,
                    *v == Value::Table(*pairs),
                    entries_text(*pairs, i as nat, indent as nat) is Some,
                    out@ == start + "{\n"@ + entries_text(*pairs, i as nat, indent as nat).unwrap(),
                decreases n - i,
            {
                let ghost before = out@;
                let ghost prev = entries_text(*pairs, i as nat, indent as nat).unwrap();
                if i > 0 {
                    out.append(",\n");
                }
                let ghost sep: Seq<char> = if i == 0 {
                    Seq::empty()
                } else {
                    ",\n"@
                };
                assert(out@ == before + sep);
                push_spaces(out, next);
                let (k, val) = &pairs[i];
                if !push_key(out, k) {
                    proof {
                        lemma_entries_none_stays(*pairs, (i + 1) as nat, n as nat, indent as nat);
                    }
                    return false;
                }
                out.append(": ");
                proof {
                    lemma_pairs_depth_bound(*pairs, n as nat, i as int);
                }
                if !push_value(out, val, next, true) {
                    proof {
                        lemma_entries_none_stays(*pairs, (i + 1) as nat, n as nat, indent as nat);
                    }
                    return false;
                }
                i = i + 1;
                assert(out@ == start + "{\n"@ + entries_text(*pairs, i as nat, indent as nat).unwrap());
            }
            if n > 0 {
                push_char(out, '\n');
                push_spaces(out, indent);
            }
            push_char(out, '}');
            true
        },
        _ => {
            out.append("<unsupported>");
            true
        },
    }
}


/// `Ok` text with `p` in front; an error passes unchanged.
pub open spec fn prepend(p: Seq<char>, r: Result<Seq<char>, FmtError>) -> Result<Seq<char>, FmtError> {
    match r {
        Ok(s) => Ok(p + s),
        Err(e) => Err(e),
    }
}

/// The text of a formatting result, for contracts.
pub open spec fn text_of(r: Result<String, FmtError>) -> Result<Seq<char>, FmtError> {
    match r {
        Ok(s) => Ok(s@),
        Err(e) => Err(e),
    }
}

/// Formats the template characters `t` from position `i` on, with `args[k]` the next argument.
///
/// `{}` takes the next argument (written as `value_text` at indentation 0, strings
/// unquoted), `{{` writes `{`, `}}` writes `}`, and every other character is copied
/// unchanged. Running out of arguments, an argument without text, and
/// arguments left at the end are errors, the first met from left to right.
pub open spec fn render(t: Seq<char>, args: Seq<Value>, i: nat, k: nat) -> Result<Seq<char>, FmtError>
    decreases t.len() - i,
{
    if i >= t.len() {
        if k < args.len() {
            Err(FmtError::TooManyArguments)
        } else {
            Ok(Seq::empty())
        }
    } else if t[i as int] == '{' && i + 1 < t.len() && t[i + 1int] == '}' {
        if k >= args.len() {
            Err(FmtError::NotEnoughArguments)
        } else {
            match value_text(args[k as int], 0, false) {
                None => Err(FmtError::InvalidUtf8),
                Some(s) => prepend(s, render(t, args, i + 2, k + 1)),
            }
        }
    } else if t[i as int] == '{' && i + 1 < t.len() && t[i + 1int] == '{' {
        prepend(seq!['{'], render(t, args, i + 2, k))
    } else if t[i as int] == '}' && i + 1 < t.len() && t[i + 1int] == '}' {
        prepend(seq!['}'], render(t, args, i + 2, k))
    } else {
        prepend(seq![t[i as int]], render(t, args, i + 1, k))
    }
}

/// Every argument from `first` on can be written without overflowing the indentation.
pub open spec fn args_fit(args: Seq<Value>, first: nat) -> bool {
    forall|k: int| first <= k < args.len() ==> 2 * value_depth(#[trigger] args[k]) <= usize::MAX
}

/// Whether every argument from `first` on fits (see `args_fit`).
pub fn args_fit_check(args: &[Value], first: usize) -> (r: bool)
    ensures
        r == args_fit(args@, first as nat),
{
    let n = args.len();
    let mut k: usize = first;
    while k < n
        invariant
            n == args@.len(),
            first <= k,
            forall|j: int| first <= j < k && j < n ==> 2 * value_depth(#[trigger] args@[j]) <= usize::MAX,
        decreases n - k,
    {
        if !depth_within(&args[k], usize::MAX / 2) {
            assert(2 * value_depth(args@[k as int]) > usize::MAX);
            return false;
        }
        k = k + 1;
    }
    true
}

proof fn lemma_prepend_assoc(a: Seq<char>, b: Seq<char>, r: Result<Seq<char>, FmtError>)
    ensures
        prepend(a, prepend(b, r)) == prepend(a + b, r),
{
    match r {
        Ok(s) => {
            assert(a + (b + s) == a + b + s);
        },
        Err(_) => {},
    }
}

fn format_from(template: &str, args: &[Value], first: usize) -> (r: Result<String, FmtError>)
    requires
        first <= args@.len(),
        args_fit(args@, first as nat),
    ensures
        text_of(r) == render(template@, args@, 0, first as nat),
{
    let t = crate::text::chars_of(template);
    let ghost tb = template@;
    let n = t.len();
    let mut out = String::new();
    let mut i: usize = 0;
    let mut k: usize = first;
    while i < n
        invariant
            t@ == tb,
            tb == template@,
            n == tb.len(),
            i <= n,
            first <= k <= args@.len(),
            args_fit(args@, first as nat),
            render(tb, args@, 0, first as nat) == prepend(out@, render(tb, args@, i as nat, k as nat)),
        decreases n - i,
    {
        let ghost before = out@;
        let b = t[i];
        if b == '{' && i + 1 < n && t[i + 1] == '}' {
            if k >= args.len() {
                assert(render(tb, args@, i as nat, k as nat) == Err::<Seq<char>, _>(
                    FmtError::NotEnoughArguments,
                ));
                return Err(FmtError::NotEnoughArguments);
            }
            let mut piece = String::new();
            if !push_value(&mut piece, &args[k], 0, false) {
                assert(render(tb, args@, i as nat, k as nat) == Err::<Seq<char>, _>(
                    FmtError::InvalidUtf8,
                ));
                return Err(FmtError::InvalidUtf8);
            }
            out.append(piece.as_str());
            assert(render(tb, args@, i as nat, k as nat) == prepend(
                piece@,
                render(tb, args@, (i + 2) as nat, (k + 1) as nat),
            ));
            proof {
                lemma_prepend_assoc(before, piece@, render(tb, args@, (i + 2) as nat, (k + 1) as nat));
            }
            k = k + 1;
            i = i + 2;
        } else if b == '{' && i + 1 < n && t[i + 1] == '{' {
            push_char(&mut out, '{');
            assert(out@ == before + seq!['{']);
            assert(render(tb, args@, i as nat, k as nat) == prepend(
                seq!['{'],
                render(tb, args@, (i + 2) as nat, k as nat),
            ));
            proof {
                lemma_prepend_assoc(before, seq!['{'], render(tb, args@, (i + 2) as nat, k as nat));
            }
            i = i + 2;
        } else if b == '}' && i + 1 < n && t[i + 1] == '}' {
            push_char(&mut out, '}');
            assert(out@ == before + seq!['}']);
            assert(render(tb, args@, i as nat, k as nat) == prepend(
                seq!['}'],
                render(tb, args@, (i + 2) as nat, k as nat),
            ));
            proof {
                lemma_prepend_assoc(before, seq!['}'], render(tb, args@, (i + 2) as nat, k as nat));
            }
            i = i + 2;
        } else {
            push_char(&mut out, b);
            assert(out@ == before + seq![b]);
            assert(render(tb, args@, i as nat, k as nat) == prepend(
                seq![b],
                render(tb, args@, (i + 1) as nat, k as nat),
            ));
            proof {
                lemma_prepend_assoc(before, seq![b], render(tb, args@, (i + 1) as nat, k as nat));
            }
            i = i + 1;
        }
    }
    if k < args.len() {
        return Err(FmtError::TooManyArguments);
    }
    assert(out@ + Seq::<char>::empty() == out@);
    Ok(out)
}

/// Formats `template` with `args` in order (see `render`).
pub fn format_with_args(template: &str, args: &[Value]) -> (r: Result<String, FmtError>)
    requires
        args_fit(args@, 0),
    ensures
        text_of(r) == render(template@, args@, 0, 0),
{
    format_from(template, args, 0)
}

/// The text of `v` at indentation `indent`, strings quoted when `in_table`.
pub fn format_value(v: &Value, indent: usize, in_table: bool) -> (r: Result<String, FmtError>)
    requires
        indent + 2 * value_depth(*v) <= usize::MAX,
    ensures
        r is Ok == value_text(*v, indent as nat, in_table) is Some,
        r matches Ok(s) ==> s@ == value_text(*v, indent as nat, in_table).unwrap(),
        r matches Err(e) ==> e == FmtError::InvalidUtf8,
{
    let mut out = String::new();
    if push_value(&mut out, v, indent, in_table) {
        Ok(out)
    } else {
        Err(FmtError::InvalidUtf8)
    }
}

/// What a variadic formatting call computes: nothing for no arguments, else the
/// first argument is the template and the rest fill it.
pub open spec fn call_text(args: Seq<Value>) -> Result<Seq<char>, FmtError> {
    if args.len() == 0 {
        Ok(Seq::empty())
    } else {
        match args[0] {
            Value::Str(t) => render(t@, args, 0, 1),
            Value::RawStr(_) => Err(FmtError::InvalidUtf8),
            _ => Err(FmtError::TemplateNotString),
        }
    }
}

/// `fmt.string(template, ...)`: the formatted text (see `call_text`).
pub fn string(args: &Vec<Value>) -> (r: Result<String, FmtError>)
    requires
        args_fit(args@, 1),
    ensures
        text_of(r) == call_text(args@),
{
    if args.len() == 0 {
        return Ok(String::new());
    }
    match &args[0] {
        Value::Str(t) => format_from(t.as_str(), args.as_slice(), 1),
        Value::RawStr(_) => Err(FmtError::InvalidUtf8),
        _ => Err(FmtError::TemplateNotString),
    }
}


/// The text `pad_left`, `pad_right` and `path_join` take from a value: strings as they
/// are, integers in decimal, floats by their text; other kinds are refused.
pub open spec fn plain_text(v: Value) -> Result<Seq<char>, FmtError> {
    match v {
        Value::Str(s) => Ok(s@),
        Value::RawStr(_) => Err(FmtError::InvalidUtf8),
        Value::Integer(i) => Ok(decimal_text(i as int)),
        Value::Number(t) => Ok(t@),
        _ => Err(FmtError::UnsupportedValue),
    }
}

fn plain_text_exec(v: &Value) -> (r: Result<String, FmtError>)
    ensures
        text_of(r) == plain_text(*v),
{
    match v {
        Value::Str(s) => Ok(s.clone()),
        Value::RawStr(_) => Err(FmtError::InvalidUtf8),
        Value::Integer(i) => Ok(crate::numfmt::decimal_string(*i)),
        Value::Number(t) => Ok(t.clone()),
        _ => Err(FmtError::UnsupportedValue),
    }
}

/// The length of a text in UTF-8 bytes.
pub open spec fn byte_len(s: Seq<char>) -> nat {
    encode_utf8(s).len()
}

pub proof fn lemma_encode_concat(a: Seq<char>, b: Seq<char>)
    ensures
        encode_utf8(a + b) == encode_utf8(a) + encode_utf8(b),
    decreases a.len(),
{
    if a.len() == 0 {
        assert(a + b == b);
    } else {
        lemma_encode_concat(a.drop_first(), b);
        assert((a + b).drop_first() == a.drop_first() + b);
    }
}

pub proof fn lemma_byte_len_positive(s: Seq<char>)
    requires
        s.len() > 0,
    ensures
        byte_len(s) > 0,
{
}

/// `k` copies of `s` one after another.
pub open spec fn repeat(s: Seq<char>, k: nat) -> Seq<char>
    decreases k,
{
    if k == 0 {
        Seq::empty()
    } else {
        repeat(s, (k - 1) as nat) + s
    }
}

/// The fill a padding call uses: the given one, else a single space.
pub open spec fn fill_of(fill: Option<String>) -> Seq<char> {
    match fill {
        Some(f) => f@,
        None => seq![' '],
    }
}

/// How many copies of a fill of `fill_len` bytes bring a text of `len` bytes to at
/// least `width` bytes: the fewest that do.
pub open spec fn fill_copies(len: nat, width: nat, fill_len: nat) -> nat {
    if len >= width || fill_len == 0 {
        0
    } else {
        ((width - len - 1) as nat / fill_len + 1) as nat
    }
}

/// The padding put beside `s` to bring it to `width` bytes.
pub open spec fn padding(s: Seq<char>, width: nat, fill: Seq<char>) -> Seq<char> {
    repeat(fill, fill_copies(byte_len(s), width, byte_len(fill)))
}

/// A padding call can run: the fill is not empty where padding is needed.
pub open spec fn pad_defined(value: Value, width: nat, fill: Option<String>) -> bool {
    plain_text(value) matches Ok(s) && byte_len(s) < width ==> fill_of(fill).len() > 0
}

/// `s` with `padding` on the given side.
pub open spec fn padded(s: Seq<char>, width: nat, fill: Seq<char>, left: bool) -> Seq<char> {
    if left {
        padding(s, width, fill) + s
    } else {
        s + padding(s, width, fill)
    }
}

fn pad(value: &Value, width: usize, fill: Option<String>, left: bool) -> (r: Result<String, FmtError>)
    requires
        pad_defined(*value, width as nat, fill),
    ensures
        text_of(r) == match plain_text(*value) {
            Ok(s) => Ok(padded(s, width as nat, fill_of(fill), left)),
            Err(e) => Err(e),
        },
{
    let ghost fill_view = fill_of(fill);
    let text = match plain_text_exec(value) {
        Ok(t) => t,
        Err(e) => return Err(e),
    };
    assert(plain_text(*value) == Ok::<Seq<char>, FmtError>(text@));
    let len = text.as_str().as_bytes().len();
    assert(len == byte_len(text@));
    let fill_str = match fill {
        Some(f) => f,
        None => {
            let mut f = String::new();
            push_char(&mut f, ' ');
            f
        },
    };
    assert(fill_str@ == fill_view);
    if len >= width {
        assert(repeat(fill_view, 0) == Seq::<char>::empty());
        assert(text@ + Seq::<char>::empty() == text@);
        assert(Seq::<char>::empty() + text@ == text@);
        return Ok(text);
    }
    proof {
        lemma_byte_len_positive(fill_view);
    }
    let flen = fill_str.as_str().as_bytes().len();
    let copies = (width - len - 1) / flen + 1;
    let mut pad_str = String::new();
    let mut i: usize = 0;
    while i < copies
        invariant
            i <= copies,
            pad_str@ == repeat(fill_view, i as nat),
            fill_str@ == fill_view,
        decreases copies - i,
    {
        pad_str.append(fill_str.as_str());
        i = i + 1;
    }
    if left {
        pad_str.append(text.as_str());
        Ok(pad_str)
    } else {
        let mut out = text;
        out.append(pad_str.as_str());
        Ok(out)
    }
}

/// `fmt.pad_left(value, width, fill)`: the text of `value` with copies of `fill`
/// (default a single space) in front, the fewest that bring it to `width` bytes;
/// unchanged when it is already that wide.
pub fn pad_left(value: &Value, width: usize, fill: Option<String>) -> (r: Result<String, FmtError>)
    requires
        pad_defined(*value, width as nat, fill),
    ensures
        text_of(r) == match plain_text(*value) {
            Ok(s) => Ok(padding(s, width as nat, fill_of(fill)) + s),
            Err(e) => Err(e),
        },
{
    pad(value, width, fill, true)
}

/// `fmt.pad_right(value, width, fill)`: the text of `value` with copies of `fill`
/// (default a single space) after it, the fewest that bring it to `width` bytes;
/// unchanged when it is already that wide.
pub fn pad_right(value: &Value, width: usize, fill: Option<String>) -> (r: Result<String, FmtError>)
    requires
        pad_defined(*value, width as nat, fill),
    ensures
        text_of(r) == match plain_text(*value) {
            Ok(s) => Ok(s + padding(s, width as nat, fill_of(fill))),
            Err(e) => Err(e),
        },
{
    pad(value, width, fill, false)
}

pub proof fn lemma_repeat_byte_len(f: Seq<char>, k: nat)
    ensures
        byte_len(repeat(f, k)) == k * byte_len(f),
    decreases k,
{
    if k > 0 {
        lemma_repeat_byte_len(f, (k - 1) as nat);
        lemma_encode_concat(repeat(f, (k - 1) as nat), f);
        assert(byte_len(repeat(f, k)) == (k - 1) * byte_len(f) + byte_len(f));
        assert((k - 1) * byte_len(f) + byte_len(f) == k * byte_len(f)) by (nonlinear_arith);
    } else {
        assert(encode_utf8(Seq::<char>::empty()) == Seq::<u8>::empty());
        assert(0 * byte_len(f) == 0) by (nonlinear_arith);
    }
}

/// A padded text reaches the width, and one copy of the fill fewer would not:
/// for a text shorter than `width` and a non-empty fill, the padded text is at
/// least `width` bytes long and less than `width` plus the fill's length.
pub proof fn law_padding_reaches_width(s: Seq<char>, width: nat, fill: Seq<char>, left: bool)
    requires
        byte_len(s) < width,
        fill.len() > 0,
    ensures
        byte_len(padded(s, width, fill, left)) >= width,
        byte_len(padded(s, width, fill, left)) < width + byte_len(fill),
{
    lemma_byte_len_positive(fill);
    let l = byte_len(s);
    let f = byte_len(fill);
    let k = fill_copies(l, width, f);
    lemma_repeat_byte_len(fill, k);
    lemma_encode_concat(repeat(fill, k), s);
    lemma_encode_concat(s, repeat(fill, k));
    let d = (width - l - 1) as nat;
    assert(k == d / f + 1);
    assert(l + k * f >= width && l + k * f < width + f) by (nonlinear_arith)
        requires
            k == d / f + 1,
            d == width - l - 1,
            f > 0,
            l < width,
    {
        assert(d / f * f <= d);
        assert(d < (d / f + 1) * f);
    }
}


/// The path segments `path_join` keeps from the first `n` arguments: the text of each
/// with leading and trailing `/` removed, those left empty dropped; the first
/// argument without text is the error.
pub open spec fn path_segments(args: Seq<Value>, n: nat) -> Result<Seq<Seq<char>>, FmtError>
    decreases n,
{
    if n == 0 || n > args.len() {
        Ok(Seq::empty())
    } else {
        match path_segments(args, (n - 1) as nat) {
            Err(e) => Err(e),
            Ok(prev) => match plain_text(args[n - 1]) {
                Err(e) => Err(e),
                Ok(t) => {
                    let p = trim_spec(t, TrimClass::Char('/'));
                    if p.len() == 0 {
                        Ok(prev)
                    } else {
                        Ok(prev.push(p))
                    }
                },
            },
        }
    }
}

/// What `path_join` gives for `args`: the kept segments joined with `/`.
pub open spec fn path_join_spec(args: Seq<Value>) -> Result<Seq<char>, FmtError> {
    match path_segments(args, args.len()) {
        Ok(parts) => Ok(join_spec(parts, seq!['/'])),
        Err(e) => Err(e),
    }
}

/// `fmt.path_join(...)`: the segments joined with single `/` between them, each
/// stripped of surrounding `/`, empty ones left out.
pub fn path_join(args: &Vec<Value>) -> (r: Result<String, FmtError>)
    ensures
        text_of(r) == path_join_spec(args@),
{
    let n = args.len();
    let mut parts: Vec<String> = Vec::new();
    let mut i: usize = 0;
    assert(views(parts@) == Seq::<Seq<char>>::empty());
    while i < n
        invariant
            n == args@.len(),
            i <= n,
            path_segments(args@, i as nat) == Ok::<_, FmtError>(views(parts@)),
        decreases n - i,
    {
        let t = match plain_text_exec(&args[i]) {
            Ok(t) => t,
            Err(e) => {
                assert(path_segments(args@, (i + 1) as nat) == Err::<Seq<Seq<char>>, _>(e));
                proof {
                    lemma_path_segments_err_stays(args@, (i + 1) as nat, n as nat);
                }
                return Err(e);
            },
        };
        let p = trim_class(t.as_str(), TrimClass::Char('/'));
        let ghost prev = parts@;
        if !p.as_str().is_empty() {
            parts.push(p);
            assert(views(parts@) == views(prev).push(p@));
        }
        i = i + 1;
    }
    let slash = "/";
    proof {
        reveal_strlit("/");
    }
    assert(slash@ == seq!['/']);
    Ok(join(&parts, slash))
}

proof fn lemma_path_segments_err_stays(args: Seq<Value>, i: nat, n: nat)
    requires
        0 < i <= n <= args.len(),
        path_segments(args, i) is Err,
    ensures
        path_segments(args, n) == path_segments(args, i),
    decreases n - i,
{
    if n > i {
        lemma_path_segments_err_stays(args, i, (n - 1) as nat);
    }
}

/// Every kept segment is non-empty and neither starts nor ends with `/`.
proof fn lemma_path_segments_clean(args: Seq<Value>, n: nat)
    ensures
        path_segments(args, n) matches Ok(parts) ==> forall|j: int|
            0 <= j < parts.len() ==> #[trigger] parts[j].len() > 0 && parts[j][0] != '/'
                && parts[j].last() != '/',
    decreases n,
{
    if n > 0 && n <= args.len() {
        lemma_path_segments_clean(args, (n - 1) as nat);
        if let Ok(t) = plain_text(args[n - 1]) {
            law_trim_ends(t, TrimClass::Char('/'));
        }
    }
}

proof fn lemma_join_slash_ends(parts: Seq<Seq<char>>)
    requires
        forall|j: int|
            0 <= j < parts.len() ==> #[trigger] parts[j].len() > 0 && parts[j][0] != '/'
                && parts[j].last() != '/',
    ensures
        join_spec(parts, seq!['/']).len() > 0 ==> join_spec(parts, seq!['/'])[0] != '/'
            && join_spec(parts, seq!['/']).last() != '/',
    decreases parts.len(),
{
    if parts.len() >= 2 {
        let rest = parts.drop_first();
        assert forall|j: int| 0 <= j < rest.len() implies #[trigger] rest[j].len() > 0
            && rest[j][0] != '/' && rest[j].last() != '/' by {
            assert(rest[j] == parts[j + 1]);
        }
        lemma_join_slash_ends(rest);
        let tail = join_spec(rest, seq!['/']);
        assert(parts[0].len() > 0);
        assert(rest.len() >= 1);
        if rest.len() == 1 {
            assert(tail == rest[0]);
        }
        assert(tail.len() > 0) by {
            if rest.len() > 1 {
                assert(tail == rest[0] + seq!['/'] + join_spec(rest.drop_first(), seq!['/']));
                assert(rest[0].len() > 0);
            }
        }
        let whole = parts[0] + seq!['/'] + tail;
        assert(whole[0] == parts[0][0]);
        assert(whole.last() == tail.last());
    } else if parts.len() == 1 {
        assert(parts[0].len() > 0);
    }
}

/// A joined path neither starts nor ends with `/`.
pub proof fn law_path_join_no_outer_slash(args: Seq<Value>)
    ensures
        path_join_spec(args) matches Ok(p) ==> (p.len() > 0 ==> p[0] != '/' && p.last() != '/'),
{
    lemma_path_segments_clean(args, args.len());
    if let Ok(parts) = path_segments(args, args.len()) {
        lemma_join_slash_ends(parts);
    }
}


/// The text of each of the first `n` arguments with surrounding `/` removed.
pub open spec fn trimmed_texts(args: Seq<Value>, n: nat) -> Seq<Seq<char>> {
    Seq::new(n, |k: int| trim_spec(plain_text(args[k])->Ok_0, TrimClass::Char('/')))
}

proof fn lemma_path_segments_filter(args: Seq<Value>, n: nat)
    requires
        n <= args.len(),
        forall|k: int| 0 <= k < n ==> #[trigger] plain_text(args[k]) is Ok,
    ensures
        path_segments(args, n) == Ok::<_, FmtError>(
            trimmed_texts(args, n).filter(|p: Seq<char>| p.len() > 0),
        ),
    decreases n,
{
    let pred = |p: Seq<char>| p.len() > 0;
    reveal(Seq::filter);
    if n > 0 {
        lemma_path_segments_filter(args, (n - 1) as nat);
        let all = trimmed_texts(args, n);
        assert(all.drop_last() == trimmed_texts(args, (n - 1) as nat));
        assert(plain_text(args[n - 1]) is Ok);
        assert(all.last() == trim_spec(plain_text(args[n - 1])->Ok_0, TrimClass::Char('/')));
        assert(all.filter(pred) == (if pred(all.last()) {
            all.drop_last().filter(pred).push(all.last())
        } else {
            all.drop_last().filter(pred)
        }));
    } else {
        assert(trimmed_texts(args, 0).filter(pred) == Seq::<Seq<char>>::empty());
    }
}

proof fn lemma_path_segments_err(args: Seq<Value>, n: nat)
    requires
        n <= args.len(),
    ensures
        path_segments(args, n) is Err <==> exists|k: int| 0 <= k < n && #[trigger] plain_text(args[k]) is Err,
    decreases n,
{
    if n > 0 {
        lemma_path_segments_err(args, (n - 1) as nat);
    }
}

/// `path_join` keeps one segment for each argument whose text, stripped of
/// surrounding `/`, is not empty, in argument order and repeats included, and
/// joins them with `/`; it is refused exactly when some argument has no text.
pub proof fn law_path_join_keeps_every_segment(args: Seq<Value>)
    ensures
        path_join_spec(args) is Err <==> exists|k: int| 0 <= k < args.len() && #[trigger] plain_text(args[k]) is Err,
        (forall|k: int| 0 <= k < args.len() ==> #[trigger] plain_text(args[k]) is Ok) ==> path_join_spec(args)
            == Ok::<_, FmtError>(
            join_spec(trimmed_texts(args, args.len()).filter(|p: Seq<char>| p.len() > 0), seq!['/']),
        ),
{
    lemma_path_segments_err(args, args.len());
    if forall|k: int| 0 <= k < args.len() ==> #[trigger] plain_text(args[k]) is Ok {
        lemma_path_segments_filter(args, args.len());
    }
}

/// No two slashes stand next to each other in `s`.
pub open spec fn single_slashes(s: Seq<char>) -> bool {
    forall|i: int| 0 <= i < s.len() - 1 ==> !(#[trigger] s[i] == '/' && s[i + 1] == '/')
}

/// Every kept segment is free of doubled slashes when every argument's text is.
proof fn lemma_path_segments_single(args: Seq<Value>, n: nat)
    requires
        forall|k: int| 0 <= k < args.len() ==> (#[trigger] plain_text(args[k]) matches Ok(t) ==> single_slashes(t)),
    ensures
        path_segments(args, n) matches Ok(parts) ==> forall|j: int|
            0 <= j < parts.len() ==> single_slashes(#[trigger] parts[j]),
    decreases n,
{
    if n > 0 && n <= args.len() {
        lemma_path_segments_single(args, (n - 1) as nat);
        if let Ok(t) = plain_text(args[n - 1]) {
            assert(plain_text(args[n - 1]) matches Ok(t2) ==> single_slashes(t2));
            let p = trim_spec(t, TrimClass::Char('/'));
            let a = lemma_trim_within(t, TrimClass::Char('/'));
            assert forall|i: int| 0 <= i < p.len() - 1 implies !(#[trigger] p[i] == '/' && p[i + 1] == '/') by {
                assert(p[i] == t[a + i]);
                assert(p[i + 1] == t[a + i + 1]);
            }
        }
    }
}

proof fn lemma_join_single(parts: Seq<Seq<char>>)
    requires
        forall|j: int|
            0 <= j < parts.len() ==> #[trigger] parts[j].len() > 0 && parts[j][0] != '/'
                && parts[j].last() != '/' && single_slashes(parts[j]),
    ensures
        single_slashes(join_spec(parts, seq!['/'])),
    decreases parts.len(),
{
    if parts.len() >= 2 {
        let rest = parts.drop_first();
        assert forall|j: int| 0 <= j < rest.len() implies #[trigger] rest[j].len() > 0 && rest[j][0] != '/'
            && rest[j].last() != '/' && single_slashes(rest[j]) by {
            assert(rest[j] == parts[j + 1]);
        }
        lemma_join_single(rest);
        lemma_join_slash_ends(rest);
        let p0 = parts[0];
        assert(p0.len() > 0 && p0.last() != '/' && single_slashes(p0));
        let tail = join_spec(rest, seq!['/']);
        assert(tail.len() > 0) by {
            if rest.len() == 1 {
                assert(tail == rest[0]);
            } else {
                assert(tail == rest[0] + seq!['/'] + join_spec(rest.drop_first(), seq!['/']));
            }
            assert(rest[0].len() > 0);
        }
        let whole = p0 + seq!['/'] + tail;
        assert(whole == join_spec(parts, seq!['/']));
        let m = p0.len() as int;
        assert forall|i: int| 0 <= i < whole.len() - 1 implies !(#[trigger] whole[i] == '/' && whole[i + 1] == '/') by {
            if i < m - 1 {
                assert(whole[i] == p0[i] && whole[i + 1] == p0[i + 1]);
            } else if i == m - 1 {
                assert(whole[i] == p0.last());
            } else if i == m {
                assert(whole[i + 1] == tail[0]);
            } else {
                assert(whole[i] == tail[i - m - 1] && whole[i + 1] == tail[i - m]);
            }
        }
    } else if parts.len() == 1 {
        assert(join_spec(parts, seq!['/']) == parts[0]);
    }
}

/// A joined path has no doubled slash when no segment text has one: a single `/`
/// stands between segments.
pub proof fn law_path_join_single_slashes(args: Seq<Value>)
    requires
        forall|k: int| 0 <= k < args.len() ==> (#[trigger] plain_text(args[k]) matches Ok(t) ==> single_slashes(t)),
    ensures
        path_join_spec(args) matches Ok(p) ==> single_slashes(p),
{
    lemma_path_segments_clean(args, args.len());
    lemma_path_segments_single(args, args.len());
    if let Ok(parts) = path_segments(args, args.len()) {
        lemma_join_single(parts);
    }
}


/// No brace in `s`.
pub open spec fn brace_free(s: Seq<char>) -> bool {
    forall|i: int| 0 <= i < s.len() ==> #[trigger] s[i] != '{' && s[i] != '}'
}

proof fn lemma_render_plain(t: Seq<char>, args: Seq<Value>, i: nat, j: nat, k: nat)
    requires
        i <= j <= t.len(),
        forall|q: int| i <= q < j ==> #[trigger] t[q] != '{' && t[q] != '}',
    ensures
        render(t, args, i, k) == prepend(t.subrange(i as int, j as int), render(t, args, j, k)),
    decreases j - i,
{
    if i < j {
        lemma_render_plain(t, args, i + 1, j, k);
        lemma_prepend_assoc(seq![t[i as int]], t.subrange(i + 1int, j as int), render(t, args, j, k));
        assert(seq![t[i as int]] + t.subrange(i + 1int, j as int) == t.subrange(i as int, j as int));
    } else {
        assert(t.subrange(i as int, j as int) == Seq::<char>::empty());
        match render(t, args, j, k) {
            Ok(r) => assert(Seq::<char>::empty() + r == r),
            Err(_) => {},
        }
    }
}

/// Scalars are written by their value: `true`, `false`, `nil`, an integer in
/// decimal, a float by its text, and a string as it is outside a table and
/// quoted inside one.
pub proof fn law_scalar_texts(b: bool, i: i64, t: Seq<char>, indent: nat, in_table: bool)
    ensures
        value_text(Value::Boolean(b), indent, in_table) == Some(if b { "true"@ } else { "false"@ }),
        value_text(Value::Boolean(true), indent, in_table) != value_text(Value::Boolean(false), indent, in_table),
        value_text(Value::Nil, indent, in_table) == Some("nil"@),
        value_text(Value::Integer(i), indent, in_table) == Some(decimal_text(i as int)),
        forall|s: String| #[trigger] s@ == t ==> value_text(Value::Str(s), indent, false) == Some(t),
        forall|s: String| #[trigger] s@ == t ==> value_text(Value::Str(s), indent, true) == Some(
            seq!['"'] + t + seq!['"'],
        ),
{
    reveal_strlit("true");
    reveal_strlit("false");
    assert("true"@[0] != "false"@[0]);
}

/// A template with one placeholder between brace-free text formats its one
/// argument into that place: the text before and after is copied unchanged.
pub proof fn law_render_single_placeholder(pre: Seq<char>, post: Seq<char>, v: Value)
    requires
        brace_free(pre),
        brace_free(post),
    ensures
        render(pre + seq!['{', '}'] + post, seq![v], 0, 0) == match value_text(v, 0, false) {
            Some(x) => Ok(pre + x + post),
            None => Err(FmtError::InvalidUtf8),
        },
{
    let t = pre + seq!['{', '}'] + post;
    let args = seq![v];
    let p = pre.len();
    assert forall|q: int| 0 <= q < p implies #[trigger] t[q] != '{' && t[q] != '}' by {
        assert(t[q] == pre[q]);
    }
    lemma_render_plain(t, args, 0, p, 0);
    assert(t.subrange(0, p as int) == pre);
    assert forall|q: int| p + 2 <= q < t.len() implies #[trigger] t[q] != '{' && t[q] != '}' by {
        assert(t[q] == post[q - p - 2]);
    }
    lemma_render_plain(t, args, p + 2, t.len(), 1);
    assert(t.subrange(p + 2int, t.len() as int) == post);
    assert(t[p as int] == '{' && t[p + 1int] == '}');
    assert(render(t, args, t.len(), 1) == Ok::<_, FmtError>(Seq::<char>::empty()));
    assert(post + Seq::<char>::empty() == post);
    match value_text(v, 0, false) {
        Some(x) => {
            lemma_prepend_assoc(x, post, render(t, args, t.len(), 1));
            lemma_prepend_assoc(pre, x + post, render(t, args, t.len(), 1));
            assert(pre + (x + post) == pre + x + post);
        },
        None => {},
    }
}

/// The number of `{}` placeholders in the template characters from position `i` on,
/// read as `render` reads them (`{{` and `}}` are escapes, not placeholders).
pub open spec fn placeholder_count(t: Seq<char>, i: nat) -> nat
    decreases t.len() - i,
{
    if i >= t.len() {
        0
    } else if t[i as int] == '{' && i + 1 < t.len() && t[i + 1int] == '}' {
        1 + placeholder_count(t, i + 2)
    } else if (t[i as int] == '{' || t[i as int] == '}') && i + 1 < t.len() && t[i + 1int]
        == t[i as int] {
        placeholder_count(t, i + 2)
    } else {
        placeholder_count(t, i + 1)
    }
}

proof fn lemma_render_ok(t: Seq<char>, args: Seq<Value>, i: nat, k: nat)
    requires
        k <= args.len(),
    ensures
        render(t, args, i, k) is Ok <==> (k + placeholder_count(t, i) == args.len() && forall|j: int|
            k <= j < args.len() ==> value_text(#[trigger] args[j], 0, false) is Some),
    decreases t.len() - i,
{
    if i >= t.len() {
    } else if t[i as int] == '{' && i + 1 < t.len() && t[i + 1int] == '}' {
        if k < args.len() {
            lemma_render_ok(t, args, i + 2, k + 1);
        }
    } else if t[i as int] == '{' && i + 1 < t.len() && t[i + 1int] == '{' {
        lemma_render_ok(t, args, i + 2, k);
    } else if t[i as int] == '}' && i + 1 < t.len() && t[i + 1int] == '}' {
        lemma_render_ok(t, args, i + 2, k);
    } else {
        lemma_render_ok(t, args, i + 1, k);
    }
}

/// A template formats exactly when it has as many placeholders as there are
/// arguments and every argument has a text: a count that does not match is an error.
pub proof fn law_placeholders_match_arguments(t: Seq<char>, args: Seq<Value>)
    ensures
        render(t, args, 0, 0) is Ok <==> (placeholder_count(t, 0) == args.len() && forall|j: int|
            0 <= j < args.len() ==> value_text(#[trigger] args[j], 0, false) is Some),
{
    lemma_render_ok(t, args, 0, 0);
}

} // verus!
