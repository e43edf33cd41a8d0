use vstd::prelude::*;
use vstd::string::*;
use crate::text::{join, join_spec, same_text, views, sort_strings, sorted_texts, clone_strings};
use crate::value::{Value, sequence_values, sequence_refs};

verus! {

broadcast use vstd::string::group_string_axioms;

/// The Unicode lower-case mapping of a text, as `str::to_lowercase` computes it.
pub uninterp spec fn lowercase(s: Seq<char>) -> Seq<char>;

/// The Unicode upper-case mapping of a text, as `str::to_uppercase` computes it.
pub uninterp spec fn uppercase(s: Seq<char>) -> Seq<char>;

/// Whether every character of `s` is ASCII.
pub open spec fn is_ascii_text(s: Seq<char>) -> bool {
    forall|i: int| 0 <= i < s.len() ==> (#[trigger] s[i] as u32) < 128
}

/// An ASCII character's lower-case form: `A`-`Z` become `a`-`z`, others stay.
pub open spec fn ascii_lower_char(c: char) -> char {
    if 'A' <= c && c <= 'Z' {
        ((c as u32) + 32) as char
    } else {
        c
    }
}

/// The text with each character lower-cased as `ascii_lower_char` does.
pub open spec fn ascii_lower(s: Seq<char>) -> Seq<char> {
    s.map_values(|c: char| ascii_lower_char(c))
}

/// `str::to_lowercase`. Its result is named `lowercase`: the Unicode lower-case
/// mapping of the whole text. Of an all-ASCII text the claim is also that the
/// mapping turns `A`-`Z` into `a`-`z` and keeps every other character, which is
/// what the Unicode lower-case mapping does on ASCII (the mapping
/// `str::to_ascii_lowercase` documents). Nothing more of it is stated.
#[verifier::external_body]
pub(crate) fn to_lowercase(s: &str) -> (r: String)
    ensures
        r@ == lowercase(s@),
        is_ascii_text(s@) ==> r@ == ascii_lower(s@),
{
    s.to_lowercase()
}

/// `str::to_uppercase`. Its result is named `uppercase`: the Unicode upper-case
/// mapping of the whole text; nothing more of it is stated.
#[verifier::external_body]
fn to_uppercase(s: &str) -> (r: String)
    ensures
        r@ == uppercase(s@),
{
    s.to_uppercase()
}

/// The compilers a build can run.
#[derive(Debug, Clone, Copy, PartialEq, Eq, Structural)]
pub enum Compiler {
    Gxx,
    Gcc,
    Clang,
}

/// The compiler numbered `val`: 0 `g++`, 1 `gcc`, 2 `clang`, no other.
pub open spec fn compiler_numbered(val: i32) -> Option<Compiler> {
    match val {
        0 => Some(Compiler::Gxx),
        1 => Some(Compiler::Gcc),
        2 => Some(Compiler::Clang),
        _ => None,
    }
}

impl Compiler {
    /// The command that runs the compiler.
    pub fn as_str(&self) -> (r: &'static str)
        ensures
            r@ == match *self {
                Compiler::Gxx => "g++"@,
                Compiler::Gcc => "gcc"@,
                Compiler::Clang => "clang"@,
            },
    {
        match self {
            Compiler::Gxx => "g++",
            Compiler::Gcc => "gcc",
            Compiler::Clang => "clang",
        }
    }

    /// The compiler a script selects by number: 0 `g++`, 1 `gcc`, 2 `clang`.
    pub fn from_int(val: i32) -> (r: Option<Compiler>)
        ensures
            r == compiler_numbered(val),
    {
        match val {
            0 => Some(Compiler::Gxx),
            1 => Some(Compiler::Gcc),
            2 => Some(Compiler::Clang),
            _ => None,
        }
    }
}

/// The outcome of a build or generation step, as scripts see it.
#[derive(Debug, Clone, PartialEq)]
pub struct BuildResult {
    pub success: bool,
    pub output: String,
    pub error: Option<String>,
    pub exit_code: Option<i32>,
}

impl BuildResult {
    /// A successful step with the given output text.
    pub fn new_success(output: String) -> (r: BuildResult)
        ensures
            r.success,
            r.output@ == output@,
            r.error is None,
            r.exit_code is None,
    {
        BuildResult { success: true, output, error: None, exit_code: None }
    }

    /// A failed step with its error text and exit code.
    pub fn new_error(error: String, exit_code: i32) -> (r: BuildResult)
        ensures
            !r.success,
            r.output@ == Seq::<char>::empty(),
            r.error matches Some(e) && e@ == error@,
            r.exit_code == Some(exit_code),
    {
        BuildResult { success: false, output: String::new(), error: Some(error), exit_code: Some(exit_code) }
    }
}

/// Where a build goes after the task is set up.
#[derive(Debug, Clone, Copy, PartialEq, Eq, Structural)]
pub enum BuildSystem {
    /// The compiler is run directly.
    Raw,
    CMake,
    Meson,
}

/// The build system a lower-cased name selects.
pub open spec fn build_system_named(lower: Seq<char>) -> Option<BuildSystem> {
    if lower == "cmake"@ {
        Some(BuildSystem::CMake)
    } else if lower == "meson"@ {
        Some(BuildSystem::Meson)
    } else if lower == "raw"@ || lower == "none"@ || lower == ""@ {
        Some(BuildSystem::Raw)
    } else {
        None
    }
}

impl BuildSystem {
    /// The build system named by an already lower-cased name: `cmake`, `meson`, and
    /// `raw`, `none` or the empty name for the direct compiler run.
    pub fn from_lowercase(lower: &str) -> (r: Option<BuildSystem>)
        ensures
            r == build_system_named(lower@),
    {
        if same_text(lower, "cmake") {
            Some(BuildSystem::CMake)
        } else if same_text(lower, "meson") {
            Some(BuildSystem::Meson)
        } else if same_text(lower, "raw") || same_text(lower, "none") || same_text(lower, "") {
            Some(BuildSystem::Raw)
        } else {
            None
        }
    }

    /// The build system a name selects, whatever its letter case.
    pub fn from_string(s: &str) -> (r: Option<BuildSystem>)
        ensures
            r == build_system_named(lowercase(s@)),
            is_ascii_text(s@) ==> r == build_system_named(ascii_lower(s@)),
    {
        let lower = to_lowercase(s);
        BuildSystem::from_lowercase(lower.as_str())
    }

    /// The name of the build system.
    pub fn as_str(&self) -> (r: &'static str)
        ensures
            r@ == match *self {
                BuildSystem::Raw => "raw"@,
                BuildSystem::CMake => "cmake"@,
                BuildSystem::Meson => "meson"@,
            },
    {
        match self {
            BuildSystem::Raw => "raw",
            BuildSystem::CMake => "cmake",
            BuildSystem::Meson => "meson",
        }
    }
}


/// What a build-file generator needs to know of a task.
#[derive(Debug, Clone, PartialEq)]
pub struct GeneratorConfig {
    pub language: String,
    pub files: Vec<String>,
    pub includes: Vec<String>,
    pub lib_paths: Vec<String>,
    pub defines: Vec<String>,
    pub link_libs: Vec<String>,
    pub flags: Vec<String>,
    pub optimize: Option<String>,
    pub debug: bool,
    pub output_name: String,
    /// Frameworks to link (Objective-C).
    pub frameworks: Vec<String>,
}

/// Each item between `pre` and `post`, one after another.
pub open spec fn wrap_each(items: Seq<Seq<char>>, pre: Seq<char>, post: Seq<char>) -> Seq<char>
    decreases items.len(),
{
    if items.len() == 0 {
        Seq::empty()
    } else {
        wrap_each(items.drop_last(), pre, post) + pre + items.last() + post
    }
}

/// Appends every item between `pre` and `post` (see `wrap_each`).
fn push_wrapped(out: &mut String, items: &Vec<String>, pre: &str, post: &str)
    ensures
        final(out)@ == old(out)@ + wrap_each(views(items@), pre@, post@),
{
    let ghost start = out@;
    let n = items.len();
    let mut i: usize = 0;
    assert(views(items@).take(0) == Seq::<Seq<char>>::empty());
    while i < n
        invariant
            n == items@.len(),
            i <= n,
            out@ == start + wrap_each(views(items@).take(i as int), pre@, post@),
        decreases n - i,
    {
        let ghost prev = out@;
        out.append(pre);
        out.append(items[i].as_str());
        out.append(post);
        let ghost t = views(items@).take(i + 1);
        assert(t.drop_last() == views(items@).take(i as int));
        assert(t.last() == items@[i as int]@);
        i = i + 1;
    }
    assert(views(items@).take(n as int) == views(items@));
}

/// Every item with `pre` in front and `post` after it.
pub open spec fn surround(items: Seq<Seq<char>>, pre: Seq<char>, post: Seq<char>) -> Seq<Seq<char>> {
    items.map_values(|x: Seq<char>| pre + x + post)
}

/// Every string with `pre` in front and `post` after it.
fn surround_all(items: &Vec<String>, pre: &str, post: &str) -> (r: Vec<String>)
    ensures
        views(r@) == surround(views(items@), pre@, post@),
{
    let n = items.len();
    let mut r: Vec<String> = Vec::new();
    let mut i: usize = 0;
    while i < n
        invariant
            n == items@.len(),
            i <= n,
            views(r@) == surround(views(items@).take(i as int), pre@, post@),
        decreases n - i,
    {
        let mut x = String::new();
        x.append(pre);
        x.append(items[i].as_str());
        x.append(post);
        let ghost prev = r@;
        r.push(x);
        assert(views(r@) == views(prev).push(x@));
        assert(views(items@).take(i + 1) == views(items@).take(i as int).push(items@[i as int]@));
        i = i + 1;
    }
    assert(views(items@).take(n as int) == views(items@));
    r
}

/// The line that turns on the source language in a CMake project.
pub open spec fn cmake_language_line(lang: Seq<char>) -> Seq<char> {
    if lang == "c"@ {
        "enable_language(C)\n"@
    } else if lang == "cpp"@ || lang == "c++"@ {
        "enable_language(CXX)\n"@
    } else if lang == "objc"@ {
        "enable_language(OBJC)\n"@
    } else {
        Seq::empty()
    }
}

/// The lines that find and link each framework of `fws` for target `name`.
pub open spec fn cmake_frameworks(name: Seq<char>, fws: Seq<Seq<char>>) -> Seq<char>
    decreases fws.len(),
{
    if fws.len() == 0 {
        Seq::empty()
    } else {
        let fw = fws.last();
        cmake_frameworks(name, fws.drop_last()) + "find_library(FRAMEWORK_"@ + uppercase(fw)
            + " NAMES "@ + fw + " TYPE FRAMEWORK)\n"@ + "target_link_libraries("@ + name
            + " ${FRAMEWORK_"@ + uppercase(fw) + "})\n"@
    }
}

/// The text of `CMakeLists.txt` for a configuration.
pub open spec fn cmake_text(c: GeneratorConfig) -> Seq<char> {
    let name = c.output_name@;
    "cmake_minimum_required(VERSION 3.10)\n"@ + "project("@ + name + ")\n\n"@
        + cmake_language_line(c.language@) + wrap_each(views(c.includes@), "include_directories("@, ")\n"@)
        + wrap_each(views(c.defines@), "add_compile_definitions("@, ")\n"@)
        + wrap_each(views(c.flags@), "add_compile_options("@, ")\n"@)
        + (if c.debug { "add_compile_options(-g)\n"@ } else { Seq::empty() })
        + (match c.optimize { Some(o) => "add_compile_options(-"@ + o@ + ")\n"@, None => Seq::empty() })
        + "\nadd_executable("@ + name + " "@ + join_spec(views(c.files@), " "@) + ")\n"@
        + wrap_each(views(c.link_libs@), "target_link_libraries("@ + name + " "@, ")\n"@)
        + cmake_frameworks(name, views(c.frameworks@))
}

/// The text of `CMakeLists.txt` for a configuration: language, include directories,
/// definitions, options, the executable with its sources, libraries and frameworks.
pub fn generate_cmake(config: &GeneratorConfig) -> (r: String)
    ensures
        r@ == cmake_text(*config),
{
    let name = config.output_name.as_str();
    let mut out = String::new();
    out.append("cmake_minimum_required(VERSION 3.10)\n");
    out.append("project(");
    out.append(name);
    out.append(")\n\n");
    let lang = config.language.as_str();
    if same_text(lang, "c") {
        out.append("enable_language(C)\n");
    } else if same_text(lang, "cpp") || same_text(lang, "c++") {
        out.append("enable_language(CXX)\n");
    } else if same_text(lang, "objc") {
        out.append("enable_language(OBJC)\n");
    }
    assert(out@ == "cmake_minimum_required(VERSION 3.10)\n"@ + "project("@ + name@ + ")\n\n"@
        + cmake_language_line(lang@));
    push_wrapped(&mut out, &config.includes, "include_directories(", ")\n");
    push_wrapped(&mut out, &config.defines, "add_compile_definitions(", ")\n");
    push_wrapped(&mut out, &config.flags, "add_compile_options(", ")\n");
    let ghost before_debug = out@;
    if config.debug {
        out.append("add_compile_options(-g)\n");
    }
    assert(out@ == before_debug + (if config.debug { "add_compile_options(-g)\n"@ } else { Seq::<char>::empty() }));
    let ghost before_opt = out@;
    match &config.optimize {
        Some(o) => {
            out.append("add_compile_options(-");
            out.append(o.as_str());
            out.append(")\n");
        },
        None => {},
    }
    assert(out@ == before_opt + (match config.optimize { Some(o) => "add_compile_options(-"@ + o@ + ")\n"@, None => Seq::<char>::empty() }));
    out.append("\nadd_executable(");
    out.append(name);
    out.append(" ");
    let file_list = join(&config.files, " ");
    out.append(file_list.as_str());
    out.append(")\n");
    let mut lib_pre = String::new();
    lib_pre.append("target_link_libraries(");
    lib_pre.append(name);
    lib_pre.append(" ");
    assert(lib_pre@ == "target_link_libraries("@ + name@ + " "@);
    push_wrapped(&mut out, &config.link_libs, lib_pre.as_str(), ")\n");
    let ghost before_fw = out@;
    let fws = &config.frameworks;
    let n = fws.len();
    let mut i: usize = 0;
    assert(views(fws@).take(0) == Seq::<Seq<char>>::empty());
    while i < n
        invariant
            n == fws@.len(),
            i <= n,
            name@ == config.output_name@,
            out@ == before_fw + cmake_frameworks(name@, views(fws@).take(i as int)),
        decreases n - i,
    {
        let fw = fws[i].as_str();
        let upper = to_uppercase(fw);
        out.append("find_library(FRAMEWORK_");
        out.append(upper.as_str());
        out.append(" NAMES ");
        out.append(fw);
        out.append(" TYPE FRAMEWORK)\n");
        out.append("target_link_libraries(");
        out.append(name);
        out.append(" ${FRAMEWORK_");
        out.append(upper.as_str());
        out.append("})\n");
        let ghost t = views(fws@).take(i + 1);
        assert(t.drop_last() == views(fws@).take(i as int));
        assert(t.last() == fws@[i as int]@);
        i = i + 1;
    }
    assert(views(fws@).take(n as int) == views(fws@));
    out
}


/// The language name a Meson project declares.
pub open spec fn meson_language(lang: Seq<char>) -> Seq<char> {
    if lang == "c"@ {
        "c"@
    } else if lang == "cpp"@ || lang == "c++"@ {
        "cpp"@
    } else if lang == "objc"@ {
        "objc"@
    } else {
        "c"@
    }
}

/// The quoted compiler arguments of a Meson executable: include directories,
/// definitions, flags, then the debug and optimisation options.
pub open spec fn meson_build_args(c: GeneratorConfig) -> Seq<Seq<char>> {
    surround(views(c.includes@), "'-I"@, "'"@) + surround(views(c.defines@), "'-D"@, "'"@)
        + surround(views(c.flags@), "'"@, "'"@) + (if c.debug {
        seq!["'-g'"@]
    } else {
        Seq::empty()
    }) + (match c.optimize {
        Some(o) => seq!["'-"@ + o@ + "'"@],
        None => Seq::empty(),
    })
}

/// A Meson list entry line, left out when the list is empty.
pub open spec fn meson_list_line(key: Seq<char>, items: Seq<Seq<char>>) -> Seq<char> {
    if items.len() > 0 {
        "  "@ + key + ": ["@ + join_spec(items, ", "@) + "],\n"@
    } else {
        Seq::empty()
    }
}

/// The text of `meson.build` for a configuration.
pub open spec fn meson_text(c: GeneratorConfig) -> Seq<char> {
    let name = c.output_name@;
    "project('"@ + name + "', '"@ + meson_language(c.language@) + "')\n\n"@ + "executable('"@ + name
        + "',\n"@ + wrap_each(views(c.files@), "  '"@, "',\n"@) + meson_list_line("c_args"@, meson_build_args(c))
        + meson_list_line("dependencies"@, surround(views(c.link_libs@), "'"@, "'"@))
        + meson_list_line("link_args"@, surround(views(c.frameworks@), "'"@, "'"@)) + ")\n"@
}

fn push_list_line(out: &mut String, key: &str, items: &Vec<String>)
    ensures
        final(out)@ == old(out)@ + meson_list_line(key@, views(items@)),
{
    if items.len() > 0 {
        out.append("  ");
        out.append(key);
        out.append(": [");
        let joined = join(items, ", ");
        out.append(joined.as_str());
        out.append("],\n");
    } else {
        assert(old(out)@ + Seq::<char>::empty() == old(out)@);
    }
}

/// The text of `meson.build` for a configuration: the project with its language,
/// the executable with its sources, compiler arguments, libraries and frameworks.
pub fn generate_meson(config: &GeneratorConfig) -> (r: String)
    ensures
        r@ == meson_text(*config),
{
    let name = config.output_name.as_str();
    let lang = config.language.as_str();
    let lang_str = if same_text(lang, "c") {
        "c"
    } else if same_text(lang, "cpp") || same_text(lang, "c++") {
        "cpp"
    } else if same_text(lang, "objc") {
        "objc"
    } else {
        "c"
    };
    assert(lang_str@ == meson_language(lang@));
    let mut out = String::new();
    out.append("project('");
    out.append(name);
    out.append("', '");
    out.append(lang_str);
    out.append("')\n\n");
    let mut build_args = surround_all(&config.includes, "'-I", "'");
    let mut defs = surround_all(&config.defines, "'-D", "'");
    let mut flags = surround_all(&config.flags, "'", "'");
    let ghost a0 = build_args@;
    let ghost d0 = defs@;
    build_args.append(&mut defs);
    assert(views(build_args@) == views(a0) + views(d0));
    let ghost a1 = build_args@;
    let ghost f0 = flags@;
    build_args.append(&mut flags);
    assert(views(build_args@) == views(a1) + views(f0));
    let ghost a2 = views(build_args@);
    if config.debug {
        let mut g = String::new();
        g.append("'-g'");
        build_args.push(g);
        assert(views(build_args@) == a2 + seq!["'-g'"@]);
    } else {
        assert(views(build_args@) == a2 + Seq::<Seq<char>>::empty());
    }
    let ghost a3 = views(build_args@);
    match &config.optimize {
        Some(o) => {
            let mut x = String::new();
            x.append("'-");
            x.append(o.as_str());
            x.append("'");
            build_args.push(x);
            assert(views(build_args@) == a3 + seq!["'-"@ + o@ + "'"@]);
        },
        None => {
            assert(views(build_args@) == a3 + Seq::<Seq<char>>::empty());
        },
    }
    assert(views(build_args@) == meson_build_args(*config));
    out.append("executable('");
    out.append(name);
    out.append("',\n");
    push_wrapped(&mut out, &config.files, "  '", "',\n");
    push_list_line(&mut out, "c_args", &build_args);
    let libs = surround_all(&config.link_libs, "'", "'");
    push_list_line(&mut out, "dependencies", &libs);
    let fws = surround_all(&config.frameworks, "'", "'");
    push_list_line(&mut out, "link_args", &fws);
    out.append(")\n");
    out
}


/// Why a build step was refused.
#[derive(Debug, PartialEq, Eq)]
pub enum BuildError {
    /// The compiler number names no compiler.
    InvalidCompiler,
    /// The generator name names no build system.
    InvalidGenerator(String),
    /// The task's build system name names no build system.
    InvalidBuildSystem,
    /// Build files cannot be generated for the direct compiler run.
    CannotGenerateRaw,
    /// No source file is left after the patterns are expanded.
    NoSourceFiles,
    /// A file pattern could not be read as a glob pattern.
    InvalidGlob { pattern: String, message: String },
    /// A list that must hold strings holds something else.
    ExpectedStrings,
    /// A string that is not valid UTF-8.
    InvalidUtf8,
}

/// Whether a file name is a glob pattern: it holds `*`, `?` or `[`.
pub open spec fn is_glob_pattern(p: Seq<char>) -> bool {
    p.contains('*') || p.contains('?') || p.contains('[')
}

/// Whether a file name is a glob pattern (see `is_glob_pattern`).
pub fn glob_like(p: &str) -> (r: bool)
    ensures
        r == is_glob_pattern(p@),
{
    let v = crate::text::chars_of(p);
    let n = v.len();
    let mut i: usize = 0;
    while i < n
        invariant
            n == v@.len(),
            v@ == p@,
            i <= n,
            forall|q: int| 0 <= q < i ==> v@[q] != '*' && v@[q] != '?' && v@[q] != '[',
        decreases n - i,
    {
        if v[i] == '*' || v[i] == '?' || v[i] == '[' {
            assert(p@[i as int] == v[i as int]);
            return true;
        }
        i = i + 1;
    }
    false
}

/// What a glob pattern matched, or why it could not be read.
#[derive(Debug, Clone, PartialEq)]
pub enum GlobOutcome {
    Matches(Vec<String>),
    Invalid(String),
}

/// The files the first `n` patterns stand for, in pattern order: a glob pattern
/// stands for what it matched, any other name for itself. `Err(i)` when pattern `i`
/// is the first glob pattern that could not be read.
pub open spec fn expansion(patterns: Seq<Seq<char>>, outcomes: Seq<GlobOutcome>, n: nat) -> Result<Seq<Seq<char>>, int>
    decreases n,
{
    if n == 0 || n > patterns.len() || n > outcomes.len() {
        Ok(Seq::empty())
    } else {
        match expansion(patterns, outcomes, (n - 1) as nat) {
            Err(i) => Err(i),
            Ok(prev) => {
                let p = patterns[n - 1];
                if is_glob_pattern(p) {
                    match outcomes[n - 1] {
                        GlobOutcome::Matches(m) => Ok(prev + views(m@)),
                        GlobOutcome::Invalid(_) => Err(n - 1),
                    }
                } else {
                    Ok(prev.push(p))
                }
            },
        }
    }
}

proof fn lemma_expansion_err_stays(patterns: Seq<Seq<char>>, outcomes: Seq<GlobOutcome>, i: nat, n: nat)
    requires
        0 < i <= n <= patterns.len(),
        n <= outcomes.len(),
        expansion(patterns, outcomes, i) is Err,
    ensures
        expansion(patterns, outcomes, n) == expansion(patterns, outcomes, i),
    decreases n - i,
{
    if n > i {
        lemma_expansion_err_stays(patterns, outcomes, i, (n - 1) as nat);
    }
}

/// The files the patterns stand for, sorted (`outcomes[i]` is what pattern `i`
/// matched when it is a glob pattern; it is not read for other names).
pub fn expand_glob_patterns(patterns: &Vec<String>, outcomes: &Vec<GlobOutcome>) -> (r: Result<Vec<String>, BuildError>)
    requires
        outcomes@.len() == patterns@.len(),
    ensures
        expansion(views(patterns@), outcomes@, patterns@.len()) is Ok <==> r is Ok,
        r matches Ok(files) ==> expansion(views(patterns@), outcomes@, patterns@.len()) matches Ok(all)
            && views(files@).to_multiset() == all.to_multiset() && sorted_texts(views(files@)),
        r matches Err(e) ==> expansion(views(patterns@), outcomes@, patterns@.len()) matches Err(i)
            && outcomes@[i] matches GlobOutcome::Invalid(m) && e == (BuildError::InvalidGlob {
                pattern: patterns@[i],
                message: m,
            }),
{
    let n = patterns.len();
    let mut files: Vec<String> = Vec::new();
    let mut i: usize = 0;
    assert(views(files@) == Seq::<Seq<char>>::empty());
    while i < n
        invariant
            n == patterns@.len(),
            n == outcomes@.len(),
            i <= n,
            expansion(views(patterns@), outcomes@, i as nat) == Ok::<_, int>(views(files@)),
        decreases n - i,
    {
        let p = &patterns[i];
        if glob_like(p.as_str()) {
            match &outcomes[i] {
                GlobOutcome::Matches(m) => {
                    let ghost prev = files@;
                    let mut more = clone_strings(m);
                    files.append(&mut more);
                    assert(views(files@) == views(prev) + views(m@));
                },
                GlobOutcome::Invalid(msg) => {
                    assert(expansion(views(patterns@), outcomes@, (i + 1) as nat) == Err::<Seq<Seq<char>>, int>(i as int));
                    proof {
                        lemma_expansion_err_stays(views(patterns@), outcomes@, (i + 1) as nat, n as nat);
                    }
                    return Err(BuildError::InvalidGlob { pattern: p.clone(), message: msg.clone() });
                },
            }
        } else {
            let ghost prev = files@;
            files.push(p.clone());
            assert(views(files@) == views(prev).push(p@));
        }
        i = i + 1;
    }
    Ok(sort_strings(files))
}

/// The texts of a list of strings; the first item that is not a valid string is the error.
pub open spec fn strings_of(vals: Seq<Value>) -> Result<Seq<Seq<char>>, BuildError>
    decreases vals.len(),
{
    if vals.len() == 0 {
        Ok(Seq::empty())
    } else {
        match strings_of(vals.drop_last()) {
            Err(e) => Err(e),
            Ok(prev) => match vals.last() {
                Value::Str(s) => Ok(prev.push(s@)),
                Value::RawStr(_) => Err(BuildError::InvalidUtf8),
                _ => Err(BuildError::ExpectedStrings),
            },
        }
    }
}

proof fn lemma_strings_of_err_stays(vals: Seq<Value>, i: nat)
    requires
        i <= vals.len(),
        strings_of(vals.take(i as int)) is Err,
    ensures
        strings_of(vals) == strings_of(vals.take(i as int)),
    decreases vals.len() - i,
{
    if i < vals.len() {
        assert(vals.take(i + 1int).drop_last() == vals.take(i as int));
        lemma_strings_of_err_stays(vals, i + 1);
    } else {
        assert(vals.take(i as int) == vals);
    }
}

/// The strings of a table's array part (keys 1, 2, ... up to the first missing one).
pub fn table_to_strings(table: &Vec<(Value, Value)>) -> (r: Result<Vec<String>, BuildError>)
    ensures
        match r {
            Ok(v) => strings_of(sequence_values(table@)) == Ok::<_, BuildError>(views(v@)),
            Err(e) => strings_of(sequence_values(table@)) == Err::<Seq<Seq<char>>, _>(e),
        },
{
    let vals = sequence_refs(table);
    let ghost sv = sequence_values(table@);
    let n = vals.len();
    let mut out: Vec<String> = Vec::new();
    let mut i: usize = 0;
    assert(sv.take(0) == Seq::<Value>::empty());
    assert(views(out@) == Seq::<Seq<char>>::empty());
    while i < n
        invariant
            n == vals@.len(),
            n == sv.len(),
            sv == sequence_values(table@),
            forall|k: int| 0 <= k < n ==> *vals@[k] == sv[k],
            i <= n,
            strings_of(sv.take(i as int)) == Ok::<_, BuildError>(views(out@)),
        decreases n - i,
    {
        assert(sv.take(i + 1).drop_last() == sv.take(i as int));
        assert(sv.take(i + 1).last() == *vals@[i as int]);
        match vals[i] {
            Value::Str(s) => {
                let ghost prev = out@;
                out.push(s.clone());
                assert(views(out@) == views(prev).push(s@));
            },
            Value::RawStr(_) => {
                proof {
                    lemma_strings_of_err_stays(sv, (i + 1) as nat);
                }
                return Err(BuildError::InvalidUtf8);
            },
            _ => {
                proof {
                    lemma_strings_of_err_stays(sv, (i + 1) as nat);
                }
                return Err(BuildError::ExpectedStrings);
            },
        }
        i = i + 1;
    }
    assert(sv.take(n as int) == sv);
    Ok(out)
}


/// Libraries and paths a system library needs, as the package probe reports them.
#[derive(Debug, Clone, PartialEq)]
pub struct LibraryInfo {
    pub include_paths: Vec<String>,
    pub lib_paths: Vec<String>,
    pub libs: Vec<String>,
}

impl LibraryInfo {
    /// What a successful probe of library `name` yields: its include and link
    /// directories, and the library itself to link.
    pub fn probed(name: &str, include_paths: Vec<String>, lib_paths: Vec<String>) -> (r: LibraryInfo)
        ensures
            views(r.include_paths@) == views(include_paths@),
            views(r.lib_paths@) == views(lib_paths@),
            views(r.libs@) == seq![name@],
    {
        let mut libs: Vec<String> = Vec::new();
        libs.push(name.to_owned());
        assert(views(libs@) == seq![name@]);
        LibraryInfo { include_paths, lib_paths, libs }
    }
}

/// Every item with `pre` in front.
pub open spec fn prefixed(items: Seq<Seq<char>>, pre: Seq<char>) -> Seq<Seq<char>> {
    items.map_values(|x: Seq<char>| pre + x)
}

/// Every string with `pre` in front.
fn prefix_all(items: &Vec<String>, pre: &str) -> (r: Vec<String>)
    ensures
        views(r@) == prefixed(views(items@), pre@),
{
    let n = items.len();
    let mut r: Vec<String> = Vec::new();
    let mut i: usize = 0;
    while i < n
        invariant
            n == items@.len(),
            i <= n,
            views(r@) == prefixed(views(items@).take(i as int), pre@),
        decreases n - i,
    {
        let mut x = String::new();
        x.append(pre);
        x.append(items[i].as_str());
        let ghost prev = r@;
        r.push(x);
        assert(views(r@) == views(prev).push(x@));
        assert(views(items@).take(i + 1) == views(items@).take(i as int).push(items@[i as int]@));
        i = i + 1;
    }
    assert(views(items@).take(n as int) == views(items@));
    r
}

/// Appends copies of the strings of `more` to `v`.
fn extend_strings(v: &mut Vec<String>, more: &Vec<String>)
    ensures
        views(final(v)@) == views(old(v)@) + views(more@),
{
    let ghost start = v@;
    let mut c = clone_strings(more);
    v.append(&mut c);
    assert(views(v@) == views(start) + views(more@));
}

/// A C++ build task as a script sets it up, step by step.
#[derive(Debug, Clone, PartialEq)]
pub struct CppTask {
    pub language: String,
    /// The compiler by number (see `Compiler::from_int`).
    pub compiler: i32,
    pub standard: String,
    pub files: Vec<String>,
    pub link_libs: Vec<String>,
    pub include_dirs: Vec<String>,
    pub lib_paths: Vec<String>,
    pub defines: Vec<String>,
    pub output: Option<String>,
    pub flags: Vec<String>,
    pub optimize: Option<String>,
    pub debug: bool,
    pub warnings: Option<String>,
    /// The build system by name (see `BuildSystem::from_string`).
    pub build_system: String,
    /// Frameworks to link (Objective-C).
    pub frameworks: Vec<String>,
}

/// A new task: C++ with compiler 0 (`g++`), standard `c++17`, no files, no
/// output name, no optimisation level, no debug symbols, no warning level,
/// built by running the compiler directly (`raw`).
pub fn create_task() -> (t: CppTask)
    ensures
        t.language@ == "cpp"@,
        t.compiler == 0,
        t.standard@ == "c++17"@,
        t.files@.len() == 0,
        t.link_libs@.len() == 0,
        t.include_dirs@.len() == 0,
        t.lib_paths@.len() == 0,
        t.defines@.len() == 0,
        t.output is None,
        t.flags@.len() == 0,
        t.optimize is None,
        !t.debug,
        t.warnings is None,
        t.build_system@ == "raw"@,
        t.frameworks@.len() == 0,
{
    CppTask {
        language: "cpp".to_owned(),
        compiler: 0,
        standard: "c++17".to_owned(),
        files: Vec::new(),
        link_libs: Vec::new(),
        include_dirs: Vec::new(),
        lib_paths: Vec::new(),
        defines: Vec::new(),
        output: None,
        flags: Vec::new(),
        optimize: None,
        debug: false,
        warnings: None,
        build_system: "raw".to_owned(),
        frameworks: Vec::new(),
    }
}

impl CppTask {
    /// Sets the source language (`c`, `cpp` or `objc` for the generators).
    pub fn language(&mut self, language: String)
        ensures
            *final(self) == (CppTask { language, ..*old(self) }),
    {
        self.language = language;
    }

    /// Sets the frameworks to link.
    pub fn frameworks(&mut self, frameworks: Vec<String>)
        ensures
            *final(self) == (CppTask { frameworks, ..*old(self) }),
    {
        self.frameworks = frameworks;
    }

    /// Selects the compiler by number; a number that names no compiler is refused
    /// and leaves the task as it was.
    pub fn compiler(&mut self, compiler: i32) -> (r: Result<(), BuildError>)
        ensures
            compiler_numbered(compiler) is Some ==> r is Ok && *final(self) == (CppTask { compiler, ..*old(self) }),
            compiler_numbered(compiler) is None ==> r == Err::<(), _>(BuildError::InvalidCompiler) && *final(self) == *old(self),
    {
        if Compiler::from_int(compiler).is_none() {
            return Err(BuildError::InvalidCompiler);
        }
        self.compiler = compiler;
        Ok(())
    }

    /// Sets the language standard.
    pub fn standard(&mut self, standard: String)
        ensures
            *final(self) == (CppTask { standard, ..*old(self) }),
    {
        self.standard = standard;
    }

    /// Sets the source files (names or glob patterns).
    pub fn files(&mut self, files: Vec<String>)
        ensures
            *final(self) == (CppTask { files, ..*old(self) }),
    {
        self.files = files;
    }

    /// Sets the output name.
    pub fn output(&mut self, name: String)
        ensures
            *final(self) == (CppTask { output: Some(name), ..*old(self) }),
    {
        self.output = Some(name);
    }

    /// Sets the optimisation level.
    pub fn optimize(&mut self, level: String)
        ensures
            *final(self) == (CppTask { optimize: Some(level), ..*old(self) }),
    {
        self.optimize = Some(level);
    }

    /// Turns debug symbols on or off.
    pub fn debug(&mut self, enabled: bool)
        ensures
            *final(self) == (CppTask { debug: enabled, ..*old(self) }),
    {
        self.debug = enabled;
    }

    /// Sets the warning level.
    pub fn warnings(&mut self, level: String)
        ensures
            *final(self) == (CppTask { warnings: Some(level), ..*old(self) }),
    {
        self.warnings = Some(level);
    }

    /// Sets the include directories.
    pub fn include_dirs(&mut self, dirs: Vec<String>)
        ensures
            *final(self) == (CppTask { include_dirs: dirs, ..*old(self) }),
    {
        self.include_dirs = dirs;
    }

    /// Sets the preprocessor definitions.
    pub fn defines(&mut self, defs: Vec<String>)
        ensures
            *final(self) == (CppTask { defines: defs, ..*old(self) }),
    {
        self.defines = defs;
    }

    /// Sets the libraries to link.
    pub fn link_libs(&mut self, libs: Vec<String>)
        ensures
            *final(self) == (CppTask { link_libs: libs, ..*old(self) }),
    {
        self.link_libs = libs;
    }

    /// Sets the extra compiler flags.
    pub fn flags(&mut self, flags: Vec<String>)
        ensures
            *final(self) == (CppTask { flags, ..*old(self) }),
    {
        self.flags = flags;
    }

    /// Adds what a found library needs: its include directories, its library
    /// directories (also as `-L` flags) and the libraries to link.
    pub fn find_library(&mut self, info: &LibraryInfo)
        ensures
            views(final(self).include_dirs@) == views(old(self).include_dirs@) + views(info.include_paths@),
            views(final(self).lib_paths@) == views(old(self).lib_paths@) + views(info.lib_paths@),
            views(final(self).flags@) == views(old(self).flags@) + prefixed(views(info.lib_paths@), "-L"@),
            views(final(self).link_libs@) == views(old(self).link_libs@) + views(info.libs@),
            final(self).language == old(self).language,
            final(self).compiler == old(self).compiler,
            final(self).standard == old(self).standard,
            final(self).files == old(self).files,
            final(self).defines == old(self).defines,
            final(self).output == old(self).output,
            final(self).optimize == old(self).optimize,
            final(self).debug == old(self).debug,
            final(self).warnings == old(self).warnings,
            final(self).build_system == old(self).build_system,
            final(self).frameworks == old(self).frameworks,
    {
        extend_strings(&mut self.include_dirs, &info.include_paths);
        extend_strings(&mut self.lib_paths, &info.lib_paths);
        let mut l = prefix_all(&info.lib_paths, "-L");
        let ghost f0 = self.flags@;
        self.flags.append(&mut l);
        assert(views(self.flags@) == views(f0) + prefixed(views(info.lib_paths@), "-L"@));
        extend_strings(&mut self.link_libs, &info.libs);
    }

    /// Selects the build system by name; a name that selects none is refused and
    /// leaves the task as it was.
    pub fn generator(&mut self, name: String) -> (r: Result<(), BuildError>)
        ensures
            build_system_named(lowercase(name@)) is Some ==> r is Ok && *final(self) == (CppTask { build_system: name, ..*old(self) }),
            build_system_named(lowercase(name@)) is None ==> (r matches Err(BuildError::InvalidGenerator(n)) && n@ == name@)
                && *final(self) == *old(self),
    {
        if BuildSystem::from_string(name.as_str()).is_none() {
            return Err(BuildError::InvalidGenerator(name));
        }
        self.build_system = name;
        Ok(())
    }
}


/// The output name of a task: the one set, else `a.out`.
pub open spec fn output_name_of(t: CppTask) -> Seq<char> {
    match t.output {
        Some(o) => o@,
        None => "a.out"@,
    }
}

/// The build system a task's name selects.
pub open spec fn system_of(t: CppTask) -> Option<BuildSystem> {
    build_system_named(lowercase(t.build_system@))
}

/// How a task is to be run.
#[derive(Debug, Clone, PartialEq)]
pub struct RunPlan {
    pub compiler: Compiler,
    pub system: BuildSystem,
    pub output_name: String,
}

/// The compiler arguments of a direct compiler run over `files`: the standard,
/// the sources, `-I` include directories, `-D` definitions, the optimisation level,
/// a non-empty warning level, `-g` for debug symbols, the extra flags, `-l`
/// libraries, and `-o` with the output name.
pub open spec fn raw_args_spec(t: CppTask, files: Seq<Seq<char>>) -> Seq<Seq<char>> {
    seq!["-std="@ + t.standard@] + files + prefixed(views(t.include_dirs@), "-I"@) + prefixed(
        views(t.defines@),
        "-D"@,
    ) + (match t.optimize {
        Some(o) => seq!["-"@ + o@],
        None => Seq::empty(),
    }) + (match t.warnings {
        Some(w) => if w@.len() > 0 {
            seq!["-"@ + w@]
        } else {
            Seq::empty()
        },
        None => Seq::empty(),
    }) + (if t.debug {
        seq!["-g"@]
    } else {
        Seq::empty()
    }) + views(t.flags@) + prefixed(views(t.link_libs@), "-l"@) + seq!["-o"@, output_name_of(t)]
}

fn owned(s: &str) -> (r: String)
    ensures
        r@ == s@,
{
    s.to_owned()
}

/// Appends `pre` followed by `s` to `v` as one string.
fn push_joined(v: &mut Vec<String>, pre: &str, s: &str)
    ensures
        views(final(v)@) == views(old(v)@).push(pre@ + s@),
{
    let mut x = String::new();
    x.append(pre);
    x.append(s);
    let ghost prev = v@;
    v.push(x);
    assert(views(v@) == views(prev).push(x@));
}

impl CppTask {
    /// The output name (see `output_name_of`).
    pub fn output_name(&self) -> (r: String)
        ensures
            r@ == output_name_of(*self),
    {
        match &self.output {
            Some(o) => o.clone(),
            None => owned("a.out"),
        }
    }

    /// How `run` proceeds: the compiler, the build system and the output name;
    /// refused when the compiler number or the build system name selects nothing.
    pub fn run_plan(&self) -> (r: Result<RunPlan, BuildError>)
        ensures
            compiler_numbered(self.compiler) is None ==> r == Err::<RunPlan, _>(BuildError::InvalidCompiler),
            compiler_numbered(self.compiler) is Some && system_of(*self) is None ==> r == Err::<RunPlan, _>(
                BuildError::InvalidBuildSystem,
            ),
            r matches Ok(p) ==> compiler_numbered(self.compiler) == Some(p.compiler) && system_of(*self)
                == Some(p.system) && p.output_name@ == output_name_of(*self),
            compiler_numbered(self.compiler) is Some && system_of(*self) is Some ==> r is Ok,
    {
        let compiler = match Compiler::from_int(self.compiler) {
            Some(c) => c,
            None => return Err(BuildError::InvalidCompiler),
        };
        let system = match BuildSystem::from_string(self.build_system.as_str()) {
            Some(b) => b,
            None => return Err(BuildError::InvalidBuildSystem),
        };
        Ok(RunPlan { compiler, system, output_name: self.output_name() })
    }

    /// What `generate` writes for: the build system and the output name; refused
    /// when the build system name selects nothing, or selects the direct run.
    pub fn generate_plan(&self) -> (r: Result<(BuildSystem, String), BuildError>)
        ensures
            system_of(*self) is None ==> r == Err::<(BuildSystem, String), _>(BuildError::InvalidBuildSystem),
            system_of(*self) == Some(BuildSystem::Raw) ==> r == Err::<(BuildSystem, String), _>(
                BuildError::CannotGenerateRaw,
            ),
            r matches Ok((b, n)) ==> system_of(*self) == Some(b) && b != BuildSystem::Raw && n@
                == output_name_of(*self),
            (system_of(*self) matches Some(b) && b != BuildSystem::Raw) ==> r is Ok,
    {
        let system = match BuildSystem::from_string(self.build_system.as_str()) {
            Some(b) => b,
            None => return Err(BuildError::InvalidBuildSystem),
        };
        if system == BuildSystem::Raw {
            return Err(BuildError::CannotGenerateRaw);
        }
        Ok((system, self.output_name()))
    }

    /// The generator configuration of the task over the expanded `files`: its
    /// language, directories, definitions, libraries, flags, options, output name
    /// and frameworks.
    pub fn generator_config(&self, files: Vec<String>) -> (c: GeneratorConfig)
        ensures
            c.language@ == self.language@,
            c.files == files,
            views(c.includes@) == views(self.include_dirs@),
            views(c.lib_paths@) == views(self.lib_paths@),
            views(c.defines@) == views(self.defines@),
            views(c.link_libs@) == views(self.link_libs@),
            views(c.flags@) == views(self.flags@),
            c.optimize == self.optimize,
            c.debug == self.debug,
            c.output_name@ == output_name_of(*self),
            views(c.frameworks@) == views(self.frameworks@),
    {
        GeneratorConfig {
            language: self.language.clone(),
            files,
            includes: clone_strings(&self.include_dirs),
            lib_paths: clone_strings(&self.lib_paths),
            defines: clone_strings(&self.defines),
            link_libs: clone_strings(&self.link_libs),
            flags: clone_strings(&self.flags),
            optimize: match &self.optimize {
                Some(o) => Some(o.clone()),
                None => None,
            },
            debug: self.debug,
            output_name: self.output_name(),
            frameworks: clone_strings(&self.frameworks),
        }
    }

    /// The arguments of a direct compiler run over the expanded `files` (see
    /// `raw_args_spec`); refused when there is no source file.
    pub fn raw_args(&self, files: &Vec<String>) -> (r: Result<Vec<String>, BuildError>)
        ensures
            files@.len() == 0 ==> r == Err::<Vec<String>, _>(BuildError::NoSourceFiles),
            files@.len() > 0 ==> (r matches Ok(args) && views(args@) == raw_args_spec(*self, views(files@))),
    {
        if files.len() == 0 {
            return Err(BuildError::NoSourceFiles);
        }
        let mut args: Vec<String> = Vec::new();
        push_joined(&mut args, "-std=", self.standard.as_str());
        assert(views(args@) == seq!["-std="@ + self.standard@]);
        extend_strings(&mut args, files);
        let ghost a1 = views(args@);
        let mut inc = prefix_all(&self.include_dirs, "-I");
        args.append(&mut inc);
        let ghost a2 = views(args@);
        assert(a2 == a1 + prefixed(views(self.include_dirs@), "-I"@));
        let mut defs = prefix_all(&self.defines, "-D");
        args.append(&mut defs);
        let ghost a3 = views(args@);
        assert(a3 == a2 + prefixed(views(self.defines@), "-D"@));
        match &self.optimize {
            Some(o) => {
                push_joined(&mut args, "-", o.as_str());
            },
            None => {},
        }
        let ghost a4 = views(args@);
        assert(a4 == a3 + (match self.optimize {
            Some(o) => seq!["-"@ + o@],
            None => Seq::<Seq<char>>::empty(),
        }));
        match &self.warnings {
            Some(w) => {
                if !w.as_str().is_empty() {
                    push_joined(&mut args, "-", w.as_str());
                }
            },
            None => {},
        }
        let ghost a5 = views(args@);
        assert(a5 == a4 + (match self.warnings {
            Some(w) => if w@.len() > 0 {
                seq!["-"@ + w@]
            } else {
                Seq::<Seq<char>>::empty()
            },
            None => Seq::<Seq<char>>::empty(),
        }));
        if self.debug {
            push_joined(&mut args, "-g", "");
            assert("-g"@ + ""@ == "-g"@) by {
                reveal_strlit("");
            }
        }
        let ghost a6 = views(args@);
        assert(a6 == a5 + (if self.debug {
            seq!["-g"@]
        } else {
            Seq::<Seq<char>>::empty()
        }));
        extend_strings(&mut args, &self.flags);
        let ghost a7 = views(args@);
        let mut libs = prefix_all(&self.link_libs, "-l");
        args.append(&mut libs);
        assert(views(args@) == a7 + prefixed(views(self.link_libs@), "-l"@));
        let ghost a8 = views(args@);
        args.push(owned("-o"));
        args.push(self.output_name());
        assert(views(args@) == a8 + seq!["-o"@, output_name_of(*self)]);
        Ok(args)
    }
}

impl BuildResult {
    /// The result of a generation for `system`: success, with output
    /// `Generated <name> configuration` and exit code 0.
    pub fn generated(system: BuildSystem) -> (r: BuildResult)
        ensures
            r.success,
            r.output@ == "Generated "@ + system_name(system) + " configuration"@,
            r.error is None,
            r.exit_code == Some(0i32),
    {
        let mut out = String::new();
        out.append("Generated ");
        out.append(system.as_str());
        out.append(" configuration");
        BuildResult { success: true, output: out, error: None, exit_code: Some(0) }
    }

    /// The result of a build through `system`: success, with output
    /// `Built with <name>` and exit code 0.
    pub fn built_with(system: BuildSystem) -> (r: BuildResult)
        ensures
            r.success,
            r.output@ == "Built with "@ + system_name(system),
            r.error is None,
            r.exit_code == Some(0i32),
    {
        let mut out = String::new();
        out.append("Built with ");
        out.append(system.as_str());
        BuildResult { success: true, output: out, error: None, exit_code: Some(0) }
    }
}

/// The name of a build system.
pub open spec fn system_name(b: BuildSystem) -> Seq<char> {
    match b {
        BuildSystem::Raw => "raw"@,
        BuildSystem::CMake => "cmake"@,
        BuildSystem::Meson => "meson"@,
    }
}

/// A build system's name selects that build system again, and each name that
/// selects a build system is one of its names.
pub proof fn law_build_system_names(b: BuildSystem, lower: Seq<char>)
    ensures
        build_system_named(system_name(b)) == Some(b),
        build_system_named(lower) == Some(b) ==> lower == system_name(b) || (b == BuildSystem::Raw && (lower
            == "none"@ || lower == ""@)),
{
    reveal_strlit("cmake");
    reveal_strlit("meson");
    reveal_strlit("raw");
    reveal_strlit("none");
    reveal_strlit("");
    assert("cmake"@[0] != "meson"@[0]);
    assert("cmake"@.len() != "raw"@.len() && "meson"@.len() != "raw"@.len());
    assert("none"@.len() != "cmake"@.len() && "none"@.len() != "meson"@.len());
    assert(""@.len() != "cmake"@.len() && ""@.len() != "meson"@.len());
}

/// Lower-casing an ASCII text twice gives what lower-casing it once gives, and the
/// result is ASCII again.
proof fn lemma_ascii_lower_twice(s: Seq<char>)
    requires
        is_ascii_text(s),
    ensures
        is_ascii_text(ascii_lower(s)),
        ascii_lower(ascii_lower(s)) == ascii_lower(s),
{
    let t = ascii_lower(s);
    assert forall|i: int| 0 <= i < t.len() implies (#[trigger] t[i] as u32) < 128 && ascii_lower_char(t[i]) == t[i] by {
        let c = s[i];
        assert((c as u32) < 128);
        if 'A' <= c && c <= 'Z' {
            assert(t[i] == ((c as u32) + 32) as char);
        }
    }
    assert(ascii_lower(t) =~= t);
}

/// Build system names read from an ASCII text: `from_string` ignores letter case
/// (the text and its lower-case form select the same build system), each build
/// system's own name selects it, and a name selects a build system exactly when
/// its lower-case form is `cmake`, `meson`, `raw`, `none` or empty.
pub proof fn law_build_system_from_ascii(b: BuildSystem, s: Seq<char>)
    ensures
        is_ascii_text(system_name(b)),
        build_system_named(ascii_lower(system_name(b))) == Some(b),
        is_ascii_text(s) ==> is_ascii_text(ascii_lower(s)) && build_system_named(ascii_lower(ascii_lower(s)))
            == build_system_named(ascii_lower(s)),
        build_system_named(ascii_lower(s)) is Some <==> (ascii_lower(s) == "cmake"@ || ascii_lower(s) == "meson"@
            || ascii_lower(s) == "raw"@ || ascii_lower(s) == "none"@ || ascii_lower(s) == ""@),
{
    reveal_strlit("cmake");
    reveal_strlit("meson");
    reveal_strlit("raw");
    let n = system_name(b);
    assert(is_ascii_text(n));
    lemma_ascii_lower_twice(n);
    assert forall|i: int| 0 <= i < n.len() implies ascii_lower_char(#[trigger] n[i]) == n[i] by {}
    assert(ascii_lower(n) =~= n);
    law_build_system_names(b, n);
    if is_ascii_text(s) {
        lemma_ascii_lower_twice(s);
    }
}

/// The direct-run arguments in their documented order: the standard, then every
/// source in order, then every include directory after `-I`, every definition
/// after `-D`, the optimisation level, a non-empty warning level, `-g` for debug
/// symbols, every extra flag, every library after `-l`, and `-o` with the output
/// name; each list contributes exactly one argument per item.
pub proof fn law_raw_args_order(t: CppTask, files: Seq<Seq<char>>)
    ensures
        ({
            let a = raw_args_spec(t, files);
            let inc = views(t.include_dirs@);
            let defs = views(t.defines@);
            let flags = views(t.flags@);
            let libs = views(t.link_libs@);
            let nf = files.len() as int;
            let ni = inc.len() as int;
            let nd = defs.len() as int;
            let nl = libs.len() as int;
            let nx = flags.len() as int;
            let opt: int = if t.optimize is Some { 1 } else { 0 };
            let warn: int = if t.warnings matches Some(w) && w@.len() > 0 { 1 } else { 0 };
            let dbg: int = if t.debug { 1 } else { 0 };
            let m = 1 + nf + ni + nd;
            &&& a.len() == m + opt + warn + dbg + nx + nl + 2
            &&& a[0] == "-std="@ + t.standard@
            &&& forall|k: int| 0 <= k < nf ==> a[1 + k] == #[trigger] files[k]
            &&& forall|k: int| 0 <= k < ni ==> a[1 + nf + k] == "-I"@ + #[trigger] inc[k]
            &&& forall|k: int| 0 <= k < nd ==> a[1 + nf + ni + k] == "-D"@ + #[trigger] defs[k]
            &&& (t.optimize matches Some(o) ==> a[m] == "-"@ + o@)
            &&& (t.warnings matches Some(w) ==> (w@.len() > 0 ==> a[m + opt] == "-"@ + w@))
            &&& (t.debug ==> a[m + opt + warn] == "-g"@)
            &&& forall|k: int| 0 <= k < nx ==> a[m + opt + warn + dbg + k] == #[trigger] flags[k]
            &&& forall|k: int| 0 <= k < nl ==> a[m + opt + warn + dbg + nx + k] == "-l"@ + #[trigger] libs[k]
            &&& a[a.len() - 2] == "-o"@
            &&& a[a.len() - 1] == output_name_of(t)
        }),
{
}

/// The text of `CMakeLists.txt` starts with the minimum version and the project
/// line, and then enables the configured language: `c` gives C, `cpp` and `c++`
/// give CXX, `objc` gives OBJC.
pub proof fn law_cmake_language(c: GeneratorConfig)
    ensures
        ({
            let head = "cmake_minimum_required(VERSION 3.10)\n"@ + "project("@ + c.output_name@ + ")\n\n"@;
            let text = cmake_text(c);
            let h = head.len() as int;
            &&& text.take(h) == head
            &&& c.language@ == "c"@ ==> text.subrange(h, h + "enable_language(C)\n"@.len()) == "enable_language(C)\n"@
            &&& (c.language@ == "cpp"@ || c.language@ == "c++"@) ==> text.subrange(
                h,
                h + "enable_language(CXX)\n"@.len(),
            ) == "enable_language(CXX)\n"@
            &&& c.language@ == "objc"@ ==> text.subrange(h, h + "enable_language(OBJC)\n"@.len())
                == "enable_language(OBJC)\n"@
        }),
{
    reveal_strlit("c");
    reveal_strlit("cpp");
    reveal_strlit("c++");
    reveal_strlit("objc");
    assert("c"@.len() != "cpp"@.len() && "c"@.len() != "c++"@.len() && "c"@.len() != "objc"@.len());
    assert("cpp"@.len() != "objc"@.len() && "c++"@.len() != "objc"@.len());
    let head = "cmake_minimum_required(VERSION 3.10)\n"@ + "project("@ + c.output_name@ + ")\n\n"@;
    let text = cmake_text(c);
    let line = cmake_language_line(c.language@);
    let rest = text.skip((head.len() + line.len()) as int);
    assert(text == head + line + rest);
    assert(text.take(head.len() as int) == head);
    assert(text.subrange(head.len() as int, (head.len() + line.len()) as int) == line);
}

/// How a compiler process ended, as the caller observed it.
#[derive(Debug, Clone, PartialEq)]
pub enum ProcessOutcome {
    /// The process ran and exited, with its exit code when it has one.
    Exited { success: bool, code: Option<i32>, stderr: String },
    /// The process could not be started.
    SpawnFailed(String),
}

/// The result of a direct compiler run: success with `Build successful`, or the
/// error text with the exit code (`-1` when there is none).
pub fn build_result_of(outcome: ProcessOutcome) -> (r: BuildResult)
    ensures
        match outcome {
            ProcessOutcome::Exited { success: true, .. } => r.success && r.output@ == "Build successful"@
                && r.error is None && r.exit_code is None,
            ProcessOutcome::Exited { success: false, code, stderr } => !r.success && r.output@.len() == 0
                && (r.error matches Some(e) && e@ == stderr@) && r.exit_code == Some(
                match code {
                    Some(c) => c,
                    None => -1i32,
                },
            ),
            ProcessOutcome::SpawnFailed(msg) => !r.success && r.output@.len() == 0 && (r.error matches Some(
                e,
            ) && e@ == msg@) && r.exit_code == Some(-1i32),
        },
{
    match outcome {
        ProcessOutcome::Exited { success, code, stderr } => {
            if success {
                BuildResult::new_success(owned("Build successful"))
            } else {
                let c = match code {
                    Some(c) => c,
                    None => -1,
                };
                BuildResult::new_error(stderr, c)
            }
        },
        ProcessOutcome::SpawnFailed(msg) => BuildResult::new_error(msg, -1),
    }
}

} // verus!
