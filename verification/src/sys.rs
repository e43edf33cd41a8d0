use vstd::prelude::*;
use vstd::string::*;
use crate::text::{trim, trim_spec, TrimClass, lines, lines_spec, views, same_text, push_char};
use crate::numfmt::{decimal_text, push_decimal};
use crate::builder::{lowercase, to_lowercase};
use crate::value::Value;

verus! {

broadcast use vstd::string::group_string_axioms;

/// Why a system call was refused.
#[derive(Debug, PartialEq, Eq)]
pub enum SysError {
    /// The command is empty or white space.
    EmptyCommand,
    /// The command would run the task runner itself.
    RecursiveCall,
    /// A value of a kind the function does not accept.
    UnsupportedValue,
    /// The regular expression could not be compiled; the compiler's message.
    InvalidPattern(String),
}

/// Whether a shell command may run: not empty once trimmed, and not the task
/// runner itself (`lush` in any letter case).
pub open spec fn command_check(command: Seq<char>) -> Result<(), SysError> {
    let t = trim_spec(command, TrimClass::Whitespace);
    if t.len() == 0 {
        Err(SysError::EmptyCommand)
    } else if lowercase(t) == "lush"@ {
        Err(SysError::RecursiveCall)
    } else {
        Ok(())
    }
}

/// Checks a shell command before it runs (see `command_check`).
pub fn check_command(command: &str) -> (r: Result<(), SysError>)
    ensures
        r == command_check(command@),
{
    let t = trim(command);
    if t.as_str().is_empty() {
        return Err(SysError::EmptyCommand);
    }
    let lower = to_lowercase(t.as_str());
    if same_text(lower.as_str(), "lush") {
        return Err(SysError::RecursiveCall);
    }
    Ok(())
}

/// The text a failed command reports: `command exited with status <code>`, or
/// `terminated by signal` when it has no exit code.
pub open spec fn exit_status_text(code: Option<i32>) -> Seq<char> {
    "command exited with status "@ + match code {
        Some(c) => decimal_text(c as int),
        None => "terminated by signal"@,
    }
}

/// The report of a command that exited without success (see `exit_status_text`).
pub fn exit_status_message(code: Option<i32>) -> (r: String)
    ensures
        r@ == exit_status_text(code),
{
    let mut s = String::new();
    s.append("command exited with status ");
    match code {
        Some(c) => push_decimal(&mut s, c as i64),
        None => s.append("terminated by signal"),
    }
    s
}

/// Why a captured command failed: its trimmed error output, or the exit status
/// when that output is empty.
pub open spec fn failure_text(stderr: Seq<char>, code: Option<i32>) -> Seq<char> {
    let t = trim_spec(stderr, TrimClass::Whitespace);
    if t.len() == 0 {
        exit_status_text(code)
    } else {
        t
    }
}

/// Why a captured command failed (see `failure_text`).
pub fn failure_detail(stderr: &str, code: Option<i32>) -> (r: String)
    ensures
        r@ == failure_text(stderr@, code),
{
    let t = trim(stderr);
    if t.as_str().is_empty() {
        exit_status_message(code)
    } else {
        t
    }
}

/// How many bytes a value takes: a string its bytes, a number 8.
pub open spec fn size_of_value(v: Value) -> Result<nat, SysError> {
    match v {
        Value::Str(s) => Ok(vstd::utf8::encode_utf8(s@).len()),
        Value::RawStr(b) => Ok(b@.len()),
        Value::Integer(_) => Ok(8),
        Value::Number(_) => Ok(8),
        _ => Err(SysError::UnsupportedValue),
    }
}

/// `sys.sizeof(value)`: the size of a string or number in bytes.
pub fn sizeof(value: &Value) -> (r: Result<usize, SysError>)
    ensures
        match r {
            Ok(n) => size_of_value(*value) == Ok::<nat, SysError>(n as nat),
            Err(e) => size_of_value(*value) == Err::<nat, _>(e),
        },
{
    match value {
        Value::Str(s) => Ok(s.as_str().as_bytes().len()),
        Value::RawStr(b) => Ok(b.len()),
        Value::Integer(_) => Ok(8),
        Value::Number(_) => Ok(8),
        _ => Err(SysError::UnsupportedValue),
    }
}

/// The kinds of path `sys.find` looks for.
#[derive(Debug, Clone, Copy, PartialEq, Eq, Structural)]
pub enum PathKind {
    File,
    Directory,
    Symlink,
}

/// The path kind a script selects by number: `sys.FILE` (0), `sys.DIRECTORY` (1),
/// `sys.SYMLINK` (2); no other.
pub fn path_kind(what: u8) -> (r: Option<PathKind>)
    ensures
        r == match what {
            0 => Some(PathKind::File),
            1 => Some(PathKind::Directory),
            2 => Some(PathKind::Symlink),
            _ => None::<PathKind>,
        },
{
    match what {
        0 => Some(PathKind::File),
        1 => Some(PathKind::Directory),
        2 => Some(PathKind::Symlink),
        _ => None,
    }
}

/// The script a run loads: the given path, else `./lush.lua`.
pub fn script_path(file_path: Option<String>) -> (r: String)
    ensures
        r@ == match file_path {
            Some(p) => p@,
            None => "./lush.lua"@,
        },
{
    match file_path {
        Some(p) => p,
        None => "./lush.lua".to_owned(),
    }
}


#[verifier::external_type_specification]
#[verifier::external_body]
pub struct ExRegex(regex::Regex);

/// Whether `regex::Regex::new` accepts a pattern (it refuses invalid patterns and
/// ones that compile beyond its default size limit).
pub uninterp spec fn regex_compiles(pattern: Seq<char>) -> bool;

/// Whether the regular expression compiled from `pattern` matches somewhere in `text`,
/// as `regex::Regex::is_match` decides.
pub uninterp spec fn regex_matches(pattern: Seq<char>, text: Seq<char>) -> bool;

/// `regex::Regex::new`: compiles a pattern; the claim is that it succeeds exactly
/// for the patterns named by `regex_compiles`. The error is the regex crate's
/// message, of which nothing is stated.
#[verifier::external_body]
fn compile_regex(pattern: &str) -> (r: Result<regex::Regex, String>)
    ensures
        r is Ok == regex_compiles(pattern@),
{
    regex::Regex::new(pattern).map_err(|e| e.to_string())
}

/// A compiled regular expression, kept with the pattern it was compiled from.
///
/// The fields are private and `LinePattern::new` is the only way to build one, so
/// `re` is always the expression `regex::Regex::new` compiled from `source`; the
/// contract of `pattern_is_match` rests on that.
pub struct LinePattern {
    source: String,
    re: regex::Regex,
}

impl LinePattern {
    /// The pattern this expression was compiled from.
    pub closed spec fn source(&self) -> Seq<char> {
        self.source@
    }

    /// Compiles `pattern`; refused, with the compiler's message, when the regex
    /// crate refuses it.
    pub fn new(pattern: &str) -> (r: Result<LinePattern, SysError>)
        ensures
            r is Ok == regex_compiles(pattern@),
            r matches Ok(p) ==> p.source() == pattern@,
            r matches Err(e) ==> e is InvalidPattern,
    {
        match compile_regex(pattern) {
            Ok(re) => Ok(LinePattern { source: pattern.to_owned(), re }),
            Err(msg) => Err(SysError::InvalidPattern(msg)),
        }
    }
}

/// `regex::Regex::is_match` on the expression a `LinePattern` holds; the claim is
/// that it answers `regex_matches` for the pattern the expression was compiled
/// from (a `LinePattern` is only built by `LinePattern::new`, from that pattern).
#[verifier::external_body]
fn pattern_is_match(p: &LinePattern, line: &str) -> (b: bool)
    ensures
        b == regex_matches(p.source(), line@),
{
    p.re.is_match(line)
}

/// The lines that `pattern` matches, in order.
pub open spec fn matching_lines(ls: Seq<Seq<char>>, pattern: Seq<char>) -> Seq<Seq<char>>
    decreases ls.len(),
{
    if ls.len() == 0 {
        Seq::empty()
    } else if regex_matches(pattern, ls.last()) {
        matching_lines(ls.drop_last(), pattern).push(ls.last())
    } else {
        matching_lines(ls.drop_last(), pattern)
    }
}

/// `grep` keeps exactly the lines the pattern matches, in their order: its lines
/// are the text's lines filtered by the regular expression alone, so every line it
/// returns is matched and every matched line is returned.
pub proof fn law_grep_keeps_matching_lines(ls: Seq<Seq<char>>, pattern: Seq<char>)
    ensures
        matching_lines(ls, pattern) == ls.filter(|l: Seq<char>| regex_matches(pattern, l)),
        forall|i: int|
            0 <= i < matching_lines(ls, pattern).len() ==> regex_matches(pattern, #[trigger] matching_lines(ls, pattern)[i]),
    decreases ls.len(),
{
    let pred = |l: Seq<char>| regex_matches(pattern, l);
    reveal(Seq::filter);
    if ls.len() > 0 {
        law_grep_keeps_matching_lines(ls.drop_last(), pattern);
        assert(ls.drop_last().filter(pred) == matching_lines(ls.drop_last(), pattern));
        assert(pred(ls.last()) == regex_matches(pattern, ls.last()));
        assert(ls.filter(pred) == (if pred(ls.last()) {
            ls.drop_last().filter(pred).push(ls.last())
        } else {
            ls.drop_last().filter(pred)
        }));
    } else {
        assert(ls.filter(pred) == ls);
    }
    assert(matching_lines(ls, pattern) == ls.filter(pred));
    assert forall|i: int| 0 <= i < ls.filter(pred).len() implies regex_matches(pattern, #[trigger] ls.filter(pred)[i]) by {
        ls.lemma_filter_pred(pred, i);
    }
}

/// `sys.grep(pattern, text)`: the lines of `text` that the regular expression
/// matches, in order; refused when the pattern does not compile.
pub fn grep(pattern: &str, text: &str) -> (r: Result<Vec<String>, SysError>)
    ensures
        r is Ok == regex_compiles(pattern@),
        r matches Ok(v) ==> views(v@) == matching_lines(lines_spec(text@), pattern@),
        r matches Err(e) ==> e is InvalidPattern,
{
    let p = match LinePattern::new(pattern) {
        Ok(p) => p,
        Err(e) => return Err(e),
    };
    let ls = lines(text);
    let n = ls.len();
    let mut out: Vec<String> = Vec::new();
    let mut i: usize = 0;
    assert(views(ls@).take(0) == Seq::<Seq<char>>::empty());
    assert(views(out@) == Seq::<Seq<char>>::empty());
    while i < n
        invariant
            n == ls@.len(),
            i <= n,
            p.source() == pattern@,
            views(out@) == matching_lines(views(ls@).take(i as int), pattern@),
        decreases n - i,
    {
        let ghost t = views(ls@).take(i + 1);
        assert(t.drop_last() == views(ls@).take(i as int));
        assert(t.last() == ls@[i as int]@);
        if pattern_is_match(&p, ls[i].as_str()) {
            let ghost prev = out@;
            out.push(ls[i].clone());
            assert(views(out@) == views(prev).push(ls@[i as int]@));
        }
        i = i + 1;
    }
    assert(views(ls@).take(n as int) == views(ls@));
    Ok(out)
}

} // verus!
