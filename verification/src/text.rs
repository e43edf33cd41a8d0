use vstd::prelude::*;
use vstd::utf8::encode_utf8;

verus! {

broadcast use vstd::string::group_string_axioms;

/// `String::push`: appends one character.
#[verifier::external_body]
pub(crate) fn push_char(s: &mut String, c: char)
    ensures
        final(s)@ == old(s)@.push(c),
{
    s.push(c);
}

/// The characters of a string slice, in order.
pub fn chars_of(s: &str) -> (v: Vec<char>)
    ensures
        v@ == s@,
{
    let mut v: Vec<char> = Vec::new();
    for c in it: s.chars()
        invariant
            v@ == it.seq().take(it.index()),
    {
        v.push(c);
    }
    v
}

/// Appends `v[from..to]` to `out`.
pub fn push_range(out: &mut String, v: &Vec<char>, from: usize, to: usize)
    requires
        from <= to <= v@.len(),
    ensures
        final(out)@ == old(out)@ + v@.subrange(from as int, to as int),
{
    let ghost start = out@;
    let mut i = from;
    while i < to
        invariant
            from <= i <= to <= v@.len(),
            out@ == start + v@.subrange(from as int, i as int),
        decreases to - i,
    {
        push_char(out, v[i]);
        i = i + 1;
        assert(v@.subrange(from as int, i as int) == v@.subrange(from as int, i - 1).push(
            v@[i - 1],
        ));
    }
}

/// A string holding the given characters.
pub fn string_of(v: &Vec<char>) -> (s: String)
    ensures
        s@ == v@,
{
    let mut s = String::new();
    push_range(&mut s, v, 0, v.len());
    assert(v@.subrange(0, v@.len() as int) == v@);
    s
}

/// Whether `c` has the Unicode `White_Space` property.
pub open spec fn is_white_space(c: char) -> bool {
    ||| '\u{9}' <= c <= '\u{d}'
    ||| c == ' '
    ||| c == '\u{85}'
    ||| c == '\u{a0}'
    ||| c == '\u{1680}'
    ||| '\u{2000}' <= c <= '\u{200a}'
    ||| c == '\u{2028}'
    ||| c == '\u{2029}'
    ||| c == '\u{202f}'
    ||| c == '\u{205f}'
    ||| c == '\u{3000}'
}

/// Whether `c` has the Unicode `White_Space` property.
pub fn is_whitespace(c: char) -> (b: bool)
    ensures
        b == is_white_space(c),
{
    ('\u{9}' <= c && c <= '\u{d}') || c == ' ' || c == '\u{85}' || c == '\u{a0}' || c
        == '\u{1680}' || ('\u{2000}' <= c && c <= '\u{200a}') || c == '\u{2028}' || c
        == '\u{2029}' || c == '\u{202f}' || c == '\u{205f}' || c == '\u{3000}'
}

/// The characters a trim removes.
#[derive(Debug, Clone, Copy, PartialEq, Eq)]
pub enum TrimClass {
    Whitespace,
    Char(char),
}

pub open spec fn trims(class: TrimClass, c: char) -> bool {
    match class {
        TrimClass::Whitespace => is_white_space(c),
        TrimClass::Char(t) => c == t,
    }
}

fn trims_exec(class: &TrimClass, c: char) -> (b: bool)
    ensures
        b == trims(*class, c),
{
    match class {
        TrimClass::Whitespace => is_whitespace(c),
        TrimClass::Char(t) => c == *t,
    }
}

/// `s` without its leading characters of `class`.
pub open spec fn strip_start(s: Seq<char>, class: TrimClass) -> Seq<char>
    decreases s.len(),
{
    if s.len() > 0 && trims(class, s[0]) {
        strip_start(s.drop_first(), class)
    } else {
        s
    }
}

/// `s` without its trailing characters of `class`.
pub open spec fn strip_end(s: Seq<char>, class: TrimClass) -> Seq<char>
    decreases s.len(),
{
    if s.len() > 0 && trims(class, s.last()) {
        strip_end(s.drop_last(), class)
    } else {
        s
    }
}

/// `s` without leading and trailing characters of `class`.
pub open spec fn trim_spec(s: Seq<char>, class: TrimClass) -> Seq<char> {
    strip_end(strip_start(s, class), class)
}

/// `s` without leading and trailing characters of `class`.
pub fn trim_class(s: &str, class: TrimClass) -> (r: String)
    ensures
        r@ == trim_spec(s@, class),
{
    let v = chars_of(s);
    let n = v.len();
    let mut a: usize = 0;
    assert(v@.subrange(0, n as int) == v@);
    while a < n && trims_exec(&class, v[a])
        invariant
            n == v@.len(),
            a <= n,
            strip_start(v@, class) == strip_start(v@.subrange(a as int, n as int), class),
        decreases n - a,
    {
        assert(v@.subrange(a + 1, n as int) == v@.subrange(a as int, n as int).drop_first());
        a = a + 1;
    }
    let mut b: usize = n;
    assert(v@.subrange(0, n as int) == v@);
    while b > a && trims_exec(&class, v[b - 1])
        invariant
            n == v@.len(),
            a <= b <= n,
            strip_start(v@, class) == v@.subrange(a as int, n as int),
            trim_spec(v@, class) == strip_end(v@.subrange(a as int, b as int), class),
        decreases b,
    {
        assert(v@.subrange(a as int, b - 1) == v@.subrange(a as int, b as int).drop_last());
        b = b - 1;
    }
    let mut r = String::new();
    push_range(&mut r, &v, a, b);
    r
}

/// `str::trim`: `s` without leading and trailing white space.
pub fn trim(s: &str) -> (r: String)
    ensures
        r@ == trim_spec(s@, TrimClass::Whitespace),
{
    trim_class(s, TrimClass::Whitespace)
}


/// Whether `sep` occurs in `s` at index `i`.
pub open spec fn occurs_at(s: Seq<char>, sep: Seq<char>, i: int) -> bool {
    0 <= i && i + sep.len() <= s.len() && s.subrange(i, i + sep.len()) == sep
}

/// The index of the first occurrence of a non-empty `sep` in `s`.
pub open spec fn find_first(s: Seq<char>, sep: Seq<char>) -> Option<int>
    decreases s.len(),
{
    if sep.len() == 0 || s.len() < sep.len() {
        None
    } else if s.take(sep.len() as int) == sep {
        Some(0)
    } else {
        match find_first(s.drop_first(), sep) {
            Some(j) => Some(j + 1),
            None => None,
        }
    }
}

/// `find_first` gives the least index where `sep` occurs, and `None` when it occurs nowhere.
pub proof fn lemma_find_first(s: Seq<char>, sep: Seq<char>)
    requires
        sep.len() > 0,
    ensures
        find_first(s, sep) matches Some(j) ==> occurs_at(s, sep, j) && forall|i: int|
            0 <= i < j ==> !#[trigger] occurs_at(s, sep, i),
        find_first(s, sep) is None ==> forall|i: int| !#[trigger] occurs_at(s, sep, i),
    decreases s.len(),
{
    if s.len() < sep.len() {
    } else if s.take(sep.len() as int) == sep {
        assert(s.subrange(0, sep.len() as int) == s.take(sep.len() as int));
    } else {
        let t = s.drop_first();
        lemma_find_first(t, sep);
        assert(!occurs_at(s, sep, 0)) by {
            assert(s.subrange(0, sep.len() as int) == s.take(sep.len() as int));
        }
        assert forall|i: int| 1 <= i implies occurs_at(s, sep, i) == occurs_at(t, sep, i - 1) by {
            if i + sep.len() <= s.len() {
                assert(s.subrange(i, i + sep.len()) == t.subrange(i - 1, i - 1 + sep.len()));
            }
        }
        if find_first(t, sep) is None {
            assert forall|i: int| !#[trigger] occurs_at(s, sep, i) by {
                if i >= 1 {
                    assert(!occurs_at(t, sep, i - 1));
                }
            }
        } else {
            let j = find_first(t, sep)->0;
            assert forall|i: int| 0 <= i < j + 1 implies !#[trigger] occurs_at(s, sep, i) by {
                if i >= 1 {
                    assert(!occurs_at(t, sep, i - 1));
                }
            }
        }
    }
}

/// A least index where `sep` occurs is what `find_first` gives.
pub proof fn lemma_find_first_least(s: Seq<char>, sep: Seq<char>, j: int)
    requires
        sep.len() > 0,
        occurs_at(s, sep, j),
        forall|i: int| 0 <= i < j ==> !#[trigger] occurs_at(s, sep, i),
    ensures
        find_first(s, sep) == Some(j),
{
    lemma_find_first(s, sep);
    if find_first(s, sep) is None {
        assert(!occurs_at(s, sep, j));
    } else {
        let k = find_first(s, sep)->0;
        if k < j {
            assert(!occurs_at(s, sep, k));
        } else if k > j {
            assert(!occurs_at(s, sep, j));
        }
    }
}

/// `str::split` with a non-empty separator: the pieces of `s` between the
/// occurrences of `sep`, taken from left to right without overlap.
pub open spec fn split_spec(s: Seq<char>, sep: Seq<char>) -> Seq<Seq<char>>
    decreases s.len(),
{
    match find_first(s, sep) {
        None => seq![s],
        Some(j) => {
            proof {
                lemma_find_first(s, sep);
            }
            seq![s.take(j)] + split_spec(s.skip(j + sep.len()), sep)
        },
    }
}

/// The pieces joined with `sep` between each two neighbours.
pub open spec fn join_spec(parts: Seq<Seq<char>>, sep: Seq<char>) -> Seq<char>
    decreases parts.len(),
{
    if parts.len() == 0 {
        Seq::empty()
    } else if parts.len() == 1 {
        parts[0]
    } else {
        parts[0] + sep + join_spec(parts.drop_first(), sep)
    }
}

pub proof fn lemma_split_not_empty(s: Seq<char>, sep: Seq<char>)
    requires
        sep.len() > 0,
    ensures
        split_spec(s, sep).len() >= 1,
    decreases s.len(),
{
    if let Some(j) = find_first(s, sep) {
        lemma_find_first(s, sep);
        lemma_split_not_empty(s.skip(j + sep.len()), sep);
    }
}

/// Joining the pieces of a split with the same separator gives back the string.
pub proof fn law_join_split(s: Seq<char>, sep: Seq<char>)
    requires
        sep.len() > 0,
    ensures
        join_spec(split_spec(s, sep), sep) == s,
    decreases s.len(),
{
    match find_first(s, sep) {
        None => {},
        Some(j) => {
            lemma_find_first(s, sep);
            let rest = s.skip(j + sep.len());
            law_join_split(rest, sep);
            lemma_split_not_empty(rest, sep);
            let parts = split_spec(s, sep);
            assert(parts.drop_first() == split_spec(rest, sep));
            assert(s == s.take(j) + s.subrange(j, j + sep.len()) + rest);
        },
    }
}

/// The piece views of a vector of strings.
pub open spec fn views(v: Seq<String>) -> Seq<Seq<char>> {
    v.map_values(|x: String| x@)
}

/// Whether `sep` occurs in `s` at index `i`.
fn occurs_at_exec(s: &Vec<char>, sep: &Vec<char>, i: usize) -> (b: bool)
    requires
        i + sep@.len() <= s@.len(),
    ensures
        b == occurs_at(s@, sep@, i as int),
{
    let m = sep.len();
    let n = s.len();
    let mut k: usize = 0;
    while k < m
        invariant
            m == sep@.len(),
            n == s@.len(),
            i + m <= s@.len(),
            k <= m,
            forall|q: int| 0 <= q < k ==> s@[i + q] == sep@[q],
        decreases m - k,
    {
        assert(i + k < s@.len());
        if s[i + k] != sep[k] {
            assert(s@.subrange(i as int, i + m)[k as int] != sep@[k as int]);
            return false;
        }
        k = k + 1;
    }
    assert(s@.subrange(i as int, i + m) == sep@);
    true
}

/// The first index at or after `from` where `sep` occurs in `s`.
fn find_from(s: &Vec<char>, sep: &Vec<char>, from: usize) -> (r: Option<usize>)
    requires
        sep@.len() > 0,
        from <= s@.len(),
    ensures
        r matches Some(j) ==> from <= j && find_first(s@.skip(from as int), sep@) == Some(
            j - from,
        ),
        r is None ==> find_first(s@.skip(from as int), sep@) is None,
{
    let n = s.len();
    let m = sep.len();
    let ghost t = s@.skip(from as int);
    proof {
        lemma_find_first(t, sep@);
    }
    if m > n {
        assert forall|i: int| !#[trigger] occurs_at(t, sep@, i) by {}
        return None;
    }
    let mut i: usize = from;
    while i <= n - m
        invariant
            n == s@.len(),
            m == sep@.len(),
            m > 0,
            m <= n,
            from <= i,
            i <= n,
            t == s@.skip(from as int),
            forall|q: int| from <= q < i ==> !#[trigger] occurs_at(s@, sep@, q),
        decreases n - i,
    {
        if occurs_at_exec(s, sep, i) {
            assert forall|q: int| 0 <= q < i - from implies !#[trigger] occurs_at(t, sep@, q) by {
                assert(t.subrange(q, q + m) == s@.subrange(from + q, from + q + m));
                assert(!occurs_at(s@, sep@, from + q));
            }
            assert(t.subrange(i - from, i - from + m) == s@.subrange(i as int, i + m));
            proof {
                lemma_find_first_least(t, sep@, i - from);
            }
            return Some(i);
        }
        i = i + 1;
    }
    assert forall|q: int| !#[trigger] occurs_at(t, sep@, q) by {
        if 0 <= q && q + m <= t.len() {
            assert(t.subrange(q, q + m) == s@.subrange(from + q, from + q + m));
            assert(!occurs_at(s@, sep@, from + q));
        }
    }
    None
}

/// The pieces of `s` between occurrences of a non-empty `sep`.
pub fn split_chars(s: &Vec<char>, sep: &Vec<char>) -> (r: Vec<String>)
    requires
        sep@.len() > 0,
    ensures
        views(r@) == split_spec(s@, sep@),
{
    let n = s.len();
    let m = sep.len();
    let mut r: Vec<String> = Vec::new();
    let mut pos: usize = 0;
    assert(s@.skip(0) == s@);
    loop
        invariant
            n == s@.len(),
            m == sep@.len(),
            m > 0,
            pos <= n,
            split_spec(s@, sep@) == views(r@) + split_spec(s@.skip(pos as int), sep@),
        decreases n - pos,
    {
        let ghost t = s@.skip(pos as int);
        let ghost prev = r@;
        match find_from(s, sep, pos) {
            None => {
                let mut piece = String::new();
                push_range(&mut piece, s, pos, n);
                assert(piece@ == t);
                r.push(piece);
                assert(views(r@) == views(prev).push(piece@));
                assert(split_spec(t, sep@) == seq![t]);
                assert(views(prev) + seq![t] == views(prev).push(t));
                return r;
            },
            Some(j) => {
                proof {
                    lemma_find_first(t, sep@);
                }
                let mut piece = String::new();
                push_range(&mut piece, s, pos, j);
                assert(piece@ == t.take(j - pos));
                assert(s@.skip(j + m) == t.skip(j - pos + m));
                r.push(piece);
                assert(views(r@) == views(prev).push(piece@));
                assert(split_spec(t, sep@) == seq![piece@] + split_spec(s@.skip(j + m), sep@));
                assert(views(prev) + (seq![piece@] + split_spec(s@.skip(j + m), sep@))
                    == views(prev).push(piece@) + split_spec(s@.skip(j + m), sep@));
                pos = j + m;
            },
        }
    }
}


/// `str.trim(string)`: the string without leading and trailing white space.
#[allow(non_snake_case)]
pub fn Trim(string: String) -> (r: String)
    ensures
        r@ == trim_spec(string@, TrimClass::Whitespace),
{
    trim(string.as_str())
}

/// How many characters at the front of `t` are not white space.
pub open spec fn run_len(t: Seq<char>) -> nat
    decreases t.len(),
{
    if t.len() == 0 || is_white_space(t[0]) {
        0
    } else {
        1 + run_len(t.drop_first())
    }
}

pub proof fn lemma_run_len_bound(t: Seq<char>)
    ensures
        run_len(t) <= t.len(),
    decreases t.len(),
{
    if t.len() > 0 && !is_white_space(t[0]) {
        lemma_run_len_bound(t.drop_first());
    }
}

/// The words of `s`: its maximal runs of characters that are not white space, in
/// order (white space at either end or repeated yields no empty word).
pub open spec fn words(s: Seq<char>) -> Seq<Seq<char>>
    decreases s.len(),
{
    if s.len() == 0 {
        Seq::empty()
    } else if is_white_space(s[0]) {
        words(s.drop_first())
    } else {
        proof {
            lemma_run_len_bound(s);
        }
        seq![s.take(run_len(s) as int)] + words(s.skip(run_len(s) as int))
    }
}

/// `run_len` of a text whose first `m` characters are not white space and whose
/// character `m`, if any, is.
proof fn lemma_run_len_is(t: Seq<char>, m: nat)
    requires
        m <= t.len(),
        forall|k: int| 0 <= k < m ==> !is_white_space(#[trigger] t[k]),
        m == t.len() || is_white_space(t[m as int]),
    ensures
        run_len(t) == m,
    decreases m,
{
    if m > 0 {
        let d = t.drop_first();
        assert forall|k: int| 0 <= k < m - 1 implies !is_white_space(#[trigger] d[k]) by {
            assert(d[k] == t[k + 1]);
        }
        if m < t.len() {
            assert(d[m - 1] == t[m as int]);
        }
        lemma_run_len_is(d, (m - 1) as nat);
    }
}

/// The words of `s` (see `words`).
pub fn split_words(s: &Vec<char>) -> (r: Vec<String>)
    ensures
        views(r@) == words(s@),
{
    let n = s.len();
    let mut r: Vec<String> = Vec::new();
    let mut i: usize = 0;
    assert(s@.skip(0) == s@);
    while i < n
        invariant
            n == s@.len(),
            i <= n,
            words(s@) == views(r@) + words(s@.skip(i as int)),
        decreases n - i,
    {
        let ghost t = s@.skip(i as int);
        if is_whitespace(s[i]) {
            assert(t[0] == s@[i as int]);
            assert(t.drop_first() == s@.skip(i + 1));
            i = i + 1;
        } else {
            let mut j: usize = i + 1;
            while j < n && !is_whitespace(s[j])
                invariant
                    n == s@.len(),
                    i < j <= n,
                    forall|k: int| i <= k < j ==> !is_white_space(#[trigger] s@[k]),
                decreases n - j,
            {
                j = j + 1;
            }
            assert forall|k: int| 0 <= k < j - i implies !is_white_space(#[trigger] t[k]) by {
                assert(t[k] == s@[i + k]);
            }
            if j < n {
                assert(t[j - i] == s@[j as int]);
            }
            proof {
                lemma_run_len_is(t, (j - i) as nat);
            }
            assert(t[0] == s@[i as int]);
            let mut piece = String::new();
            push_range(&mut piece, s, i, j);
            assert(t.take(j - i) == s@.subrange(i as int, j as int));
            assert(t.skip(j - i) == s@.skip(j as int));
            let ghost prev = r@;
            r.push(piece);
            assert(views(r@) == views(prev).push(piece@));
            assert(views(prev) + (seq![piece@] + words(s@.skip(j as int))) == views(prev).push(piece@) + words(
                s@.skip(j as int),
            ));
            i = j;
        }
    }
    assert(s@.skip(n as int) == Seq::<char>::empty());
    assert(views(r@) + Seq::<Seq<char>>::empty() == views(r@));
    r
}

/// `str.split(string, sep)`: the pieces of `string` between the occurrences of `sep`;
/// an empty `sep` splits on white space, into the words of `string`.
#[allow(non_snake_case)]
pub fn Split(string: String, sep: String) -> (r: Vec<String>)
    ensures
        sep@.len() == 0 ==> views(r@) == words(string@),
        sep@.len() > 0 ==> views(r@) == split_spec(string@, sep@),
{
    let s = chars_of(string.as_str());
    let sp = chars_of(sep.as_str());
    if sp.len() == 0 {
        split_words(&s)
    } else {
        split_chars(&s, &sp)
    }
}

/// A line without the carriage return that ended it, if any.
pub open spec fn strip_cr(l: Seq<char>) -> Seq<char> {
    if l.len() > 0 && l.last() == '\r' {
        l.drop_last()
    } else {
        l
    }
}

/// `str::lines`: the lines of `s`, each without its `\n` or `\r\n` ending; a last
/// line without a `\n` keeps its characters as they are, and an empty one is left out.
pub open spec fn lines_spec(s: Seq<char>) -> Seq<Seq<char>> {
    let parts = split_spec(s, seq!['\n']);
    let count = if parts.last().len() == 0 {
        parts.len() - 1
    } else {
        parts.len() as int
    };
    Seq::new(
        count as nat,
        |i: int|
            if i < parts.len() - 1 {
                strip_cr(parts[i])
            } else {
                parts[i]
            },
    )
}

fn strip_cr_exec(l: &String) -> (r: String)
    ensures
        r@ == strip_cr(l@),
{
    let v = chars_of(l.as_str());
    let n = v.len();
    let mut r = String::new();
    if n > 0 && v[n - 1] == '\r' {
        push_range(&mut r, &v, 0, n - 1);
        assert(v@.subrange(0, n - 1) == v@.drop_last());
    } else {
        push_range(&mut r, &v, 0, n);
        assert(v@.subrange(0, n as int) == v@);
    }
    r
}

/// The lines of `s` (see `lines_spec`).
pub fn lines(s: &str) -> (r: Vec<String>)
    ensures
        views(r@) == lines_spec(s@),
{
    let v = chars_of(s);
    let mut nl: Vec<char> = Vec::new();
    nl.push('\n');
    let parts = split_chars(&v, &nl);
    proof {
        lemma_split_not_empty(s@, seq!['\n']);
    }
    assert(nl@ == seq!['\n']);
    let p = parts.len();
    let last_empty = parts[p - 1].as_str().is_empty();
    let count = if last_empty {
        p - 1
    } else {
        p
    };
    let ghost target = lines_spec(s@);
    assert(target.len() == count);
    let mut r: Vec<String> = Vec::new();
    let mut i: usize = 0;
    while i < count
        invariant
            p == parts@.len(),
            p >= 1,
            count <= p,
            i <= count,
            views(parts@) == split_spec(s@, seq!['\n']),
            target == lines_spec(s@),
            target.len() == count,
            views(r@) == target.take(i as int),
        decreases count - i,
    {
        let ghost prev = r@;
        let line = if i < p - 1 {
            strip_cr_exec(&parts[i])
        } else {
            parts[i].clone()
        };
        assert(line@ == target[i as int]);
        r.push(line);
        i = i + 1;
        assert(views(r@) == views(prev).push(line@));
        assert(target.take(i as int) == target.take(i - 1).push(target[i - 1]));
    }
    assert(target.take(count as int) == target);
    r
}


pub proof fn lemma_join_push(parts: Seq<Seq<char>>, sep: Seq<char>, p: Seq<char>)
    requires
        parts.len() > 0,
    ensures
        join_spec(parts.push(p), sep) == join_spec(parts, sep) + sep + p,
    decreases parts.len(),
{
    if parts.len() == 1 {
        assert(parts.push(p).drop_first() == seq![p]);
        assert(join_spec(seq![p], sep) == p);
    } else {
        lemma_join_push(parts.drop_first(), sep, p);
        assert(parts.push(p).drop_first() == parts.drop_first().push(p));
        assert(parts.push(p)[0] == parts[0]);
        let j = join_spec(parts.drop_first(), sep);
        assert(parts[0] + sep + (j + sep + p) == parts[0] + sep + j + sep + p);
    }
}

/// The strings joined with `sep` between each two neighbours.
pub fn join(parts: &Vec<String>, sep: &str) -> (r: String)
    ensures
        r@ == join_spec(views(parts@), sep@),
{
    let mut r = String::new();
    let n = parts.len();
    let mut i: usize = 0;
    while i < n
        invariant
            n == parts@.len(),
            i <= n,
            r@ == join_spec(views(parts@).take(i as int), sep@),
        decreases n - i,
    {
        let ghost prev = views(parts@).take(i as int);
        if i > 0 {
            r.append(sep);
            proof {
                lemma_join_push(prev, sep@, parts@[i as int]@);
            }
        } else {
            assert(views(parts@).take(1) == seq![parts@[0]@]);
        }
        r.append(parts[i].as_str());
        assert(views(parts@).take(i + 1) == prev.push(parts@[i as int]@));
        i = i + 1;
    }
    assert(views(parts@).take(n as int) == views(parts@));
    r
}

/// What remains of a strip from the end is a prefix.
pub proof fn lemma_strip_end_prefix(s: Seq<char>, class: TrimClass)
    ensures
        strip_end(s, class).len() <= s.len(),
        strip_end(s, class) == s.take(strip_end(s, class).len() as int),
        strip_end(s, class).len() > 0 ==> !trims(class, strip_end(s, class).last()),
    decreases s.len(),
{
    if s.len() > 0 && trims(class, s.last()) {
        lemma_strip_end_prefix(s.drop_last(), class);
        let r = strip_end(s.drop_last(), class);
        assert(s.drop_last().take(r.len() as int) == s.take(r.len() as int));
    } else {
        assert(s.take(s.len() as int) == s);
    }
}

pub proof fn lemma_strip_start_first(s: Seq<char>, class: TrimClass)
    ensures
        strip_start(s, class).len() > 0 ==> !trims(class, strip_start(s, class)[0]),
    decreases s.len(),
{
    if s.len() > 0 && trims(class, s[0]) {
        lemma_strip_start_first(s.drop_first(), class);
    }
}

/// What remains of a strip from the start is a suffix.
pub proof fn lemma_strip_start_suffix(s: Seq<char>, class: TrimClass)
    ensures
        strip_start(s, class).len() <= s.len(),
        strip_start(s, class) == s.skip(s.len() - strip_start(s, class).len()),
    decreases s.len(),
{
    if s.len() > 0 && trims(class, s[0]) {
        lemma_strip_start_suffix(s.drop_first(), class);
        let r = strip_start(s.drop_first(), class);
        assert(s.drop_first().skip(s.len() - 1 - r.len()) == s.skip(s.len() - r.len()));
    } else {
        assert(s.skip(0) == s);
    }
}

/// A trimmed text is a contiguous part of the text.
pub proof fn lemma_trim_within(s: Seq<char>, class: TrimClass) -> (a: int)
    ensures
        0 <= a,
        a + trim_spec(s, class).len() <= s.len(),
        trim_spec(s, class) == s.subrange(a, a + trim_spec(s, class).len()),
{
    let st = strip_start(s, class);
    lemma_strip_start_suffix(s, class);
    lemma_strip_end_prefix(st, class);
    let t = trim_spec(s, class);
    let a = s.len() - st.len();
    assert(t == st.take(t.len() as int));
    assert(t == s.subrange(a, a + t.len()));
    a
}

/// A trimmed text neither starts nor ends with a character of the class.
pub proof fn law_trim_ends(s: Seq<char>, class: TrimClass)
    ensures
        trim_spec(s, class).len() > 0 ==> !trims(class, trim_spec(s, class)[0]) && !trims(
            class,
            trim_spec(s, class).last(),
        ),
{
    let a = strip_start(s, class);
    lemma_strip_start_first(s, class);
    lemma_strip_end_prefix(a, class);
    let b = strip_end(a, class);
    if b.len() > 0 {
        assert(b[0] == a[0]);
    }
}


/// Whether two string slices hold the same characters.
pub fn same_text(a: &str, b: &str) -> (r: bool)
    ensures
        r == (a@ == b@),
{
    let x = chars_of(a);
    let y = chars_of(b);
    if x.len() != y.len() {
        return false;
    }
    let n = x.len();
    let mut i: usize = 0;
    while i < n
        invariant
            n == x@.len(),
            n == y@.len(),
            x@ == a@,
            y@ == b@,
            i <= n,
            forall|q: int| 0 <= q < i ==> x@[q] == y@[q],
        decreases n - i,
    {
        if x[i] != y[i] {
            assert(x@[i as int] != y@[i as int]);
            return false;
        }
        i = i + 1;
    }
    assert(x@ == y@);
    true
}

/// Lexicographic order on byte strings (a prefix comes first).
pub open spec fn bytes_le(a: Seq<u8>, b: Seq<u8>) -> bool
    decreases a.len(),
{
    if a.len() == 0 {
        true
    } else if b.len() == 0 {
        false
    } else if a[0] < b[0] {
        true
    } else if a[0] > b[0] {
        false
    } else {
        bytes_le(a.drop_first(), b.drop_first())
    }
}

pub proof fn lemma_bytes_le_total(a: Seq<u8>, b: Seq<u8>)
    ensures
        bytes_le(a, b) || bytes_le(b, a),
    decreases a.len(),
{
    if a.len() > 0 && b.len() > 0 && a[0] == b[0] {
        lemma_bytes_le_total(a.drop_first(), b.drop_first());
    }
}

pub proof fn lemma_bytes_le_trans(a: Seq<u8>, b: Seq<u8>, c: Seq<u8>)
    requires
        bytes_le(a, b),
        bytes_le(b, c),
    ensures
        bytes_le(a, c),
    decreases a.len(),
{
    if a.len() > 0 && b.len() > 0 && c.len() > 0 && a[0] == b[0] && b[0] == c[0] {
        lemma_bytes_le_trans(a.drop_first(), b.drop_first(), c.drop_first());
    }
}

/// The order of `String`s: lexicographic on their UTF-8 bytes.
pub open spec fn text_le(a: Seq<char>, b: Seq<char>) -> bool {
    bytes_le(encode_utf8(a), encode_utf8(b))
}

fn bytes_le_exec(a: &[u8], b: &[u8]) -> (r: bool)
    ensures
        r == bytes_le(a@, b@),
{
    let n = a.len();
    let m = b.len();
    let mut i: usize = 0;
    assert(a@.skip(0) == a@);
    assert(b@.skip(0) == b@);
    loop
        invariant
            n == a@.len(),
            m == b@.len(),
            i <= n,
            i <= m,
            bytes_le(a@, b@) == bytes_le(a@.skip(i as int), b@.skip(i as int)),
        decreases n - i,
    {
        if i == n {
            return true;
        }
        if i == m {
            return false;
        }
        if a[i] < b[i] {
            return true;
        }
        if a[i] > b[i] {
            return false;
        }
        assert(a@.skip(i as int).drop_first() == a@.skip(i + 1));
        assert(b@.skip(i as int).drop_first() == b@.skip(i + 1));
        i = i + 1;
    }
}

/// Whether `a` comes no later than `b` in the order of `String`s.
pub fn text_le_exec(a: &String, b: &String) -> (r: bool)
    ensures
        r == text_le(a@, b@),
{
    bytes_le_exec(a.as_str().as_bytes(), b.as_str().as_bytes())
}

/// The texts are in the order of `String`s.
pub open spec fn sorted_texts(v: Seq<Seq<char>>) -> bool {
    forall|i: int, j: int| 0 <= i < j < v.len() ==> text_le(#[trigger] v[i], #[trigger] v[j])
}

/// The strings in ascending order (as `slice::sort` orders them): the same strings,
/// sorted by their UTF-8 bytes.
pub fn sort_strings(v: Vec<String>) -> (r: Vec<String>)
    ensures
        views(r@).to_multiset() == views(v@).to_multiset(),
        sorted_texts(views(r@)),
{
    broadcast use vstd::seq_lib::to_multiset_insert, vstd::seq_lib::to_multiset_build;

    let n = v.len();
    let mut r: Vec<String> = Vec::new();
    let mut i: usize = 0;
    assert(views(v@).take(0) == Seq::<Seq<char>>::empty());
    assert(views(r@) == Seq::<Seq<char>>::empty());
    while i < n
        invariant
            n == v@.len(),
            i <= n,
            views(r@).to_multiset() == views(v@).take(i as int).to_multiset(),
            sorted_texts(views(r@)),
        decreases n - i,
    {
        let x = v[i].clone();
        let m = r.len();
        let mut p: usize = 0;
        while p < m && text_le_exec(&r[p], &x)
            invariant
                m == r@.len(),
                p <= m,
                i < n,
                n == v@.len(),
                x@ == v@[i as int]@,
                forall|q: int| 0 <= q < p ==> text_le(#[trigger] r@[q]@, x@),
            decreases m - p,
        {
            p = p + 1;
        }
        let ghost old_r = views(r@);
        proof {
            if p < m {
                lemma_bytes_le_total(encode_utf8(r@[p as int]@), encode_utf8(x@));
            }
        }
        r.insert(p, x);
        assert(views(r@) == old_r.insert(p as int, x@));
        assert(views(v@).take(i + 1) == views(v@).take(i as int).push(x@));
        proof {
            vstd::seq_lib::to_multiset_insert(old_r, p as int, x@);
            vstd::seq_lib::to_multiset_build(views(v@).take(i as int), x@);
        }
        assert forall|a: int, b: int| 0 <= a < b < views(r@).len() implies text_le(
            #[trigger] views(r@)[a],
            #[trigger] views(r@)[b],
        ) by {
            let rv = views(r@);
            if b < p {
                assert(rv[a] == old_r[a] && rv[b] == old_r[b]);
            } else if a < p && b == p {
                assert(rv[a] == old_r[a]);
            } else if a < p && b > p {
                assert(rv[a] == old_r[a] && rv[b] == old_r[b - 1]);
                lemma_bytes_le_trans(encode_utf8(old_r[a]), encode_utf8(x@), encode_utf8(old_r[p as int]));
                if b - 1 > p {
                    lemma_bytes_le_trans(encode_utf8(old_r[a]), encode_utf8(old_r[p as int]), encode_utf8(old_r[b - 1]));
                }
            } else if a == p {
                assert(rv[b] == old_r[b - 1]);
                if b - 1 > p {
                    lemma_bytes_le_trans(encode_utf8(x@), encode_utf8(old_r[p as int]), encode_utf8(old_r[b - 1]));
                }
            } else {
                assert(rv[a] == old_r[a - 1] && rv[b] == old_r[b - 1]);
            }
        }
        i = i + 1;
    }
    assert(views(v@).take(n as int) == views(v@));
    r
}


/// A copy of a list of strings.
pub fn clone_strings(v: &Vec<String>) -> (r: Vec<String>)
    ensures
        views(r@) == views(v@),
{
    let n = v.len();
    let mut r: Vec<String> = Vec::new();
    let mut i: usize = 0;
    while i < n
        invariant
            n == v@.len(),
            i <= n,
            views(r@) == views(v@).take(i as int),
        decreases n - i,
    {
        let ghost prev = r@;
        r.push(v[i].clone());
        assert(views(r@) == views(prev).push(v@[i as int]@));
        assert(views(v@).take(i + 1) == views(v@).take(i as int).push(v@[i as int]@));
        i = i + 1;
    }
    assert(views(v@).take(n as int) == views(v@));
    r
}

} // verus!
