use lush::builder::{
    build_result_of, create_task, expand_glob_patterns, generate_cmake, generate_meson, glob_like, table_to_strings,
    BuildError, BuildResult, BuildSystem, Compiler, GeneratorConfig, GlobOutcome, LibraryInfo, ProcessOutcome,
};
use lush::value::Value;

fn strs(v: &[&str]) -> Vec<String> {
    v.iter().map(|s| s.to_string()).collect()
}

fn config_sample() -> GeneratorConfig {
    GeneratorConfig {
        language: "cpp".to_string(),
        files: strs(&["main.cpp", "util.cpp"]),
        includes: strs(&["include"]),
        lib_paths: strs(&[]),
        defines: strs(&["DEBUG=1"]),
        link_libs: strs(&["m"]),
        flags: strs(&["-Wall"]),
        optimize: Some("O2".to_string()),
        debug: true,
        output_name: "app".to_string(),
        frameworks: strs(&[]),
    }
}

#[test]
fn compiler_names_and_numbers() {
    assert_eq!(Compiler::from_int(0), Some(Compiler::Gxx));
    assert_eq!(Compiler::from_int(1), Some(Compiler::Gcc));
    assert_eq!(Compiler::from_int(2), Some(Compiler::Clang));
    assert_eq!(Compiler::from_int(3), None);
    assert_eq!(Compiler::from_int(-1), None);
    assert_eq!(Compiler::Gxx.as_str(), "g++");
    assert_eq!(Compiler::Gcc.as_str(), "gcc");
    assert_eq!(Compiler::Clang.as_str(), "clang");
}

#[test]
fn build_system_from_any_case() {
    assert_eq!(BuildSystem::from_string("CMake"), Some(BuildSystem::CMake));
    assert_eq!(BuildSystem::from_string("MESON"), Some(BuildSystem::Meson));
    assert_eq!(BuildSystem::from_string("None"), Some(BuildSystem::Raw));
    assert_eq!(BuildSystem::from_string(""), Some(BuildSystem::Raw));
    assert_eq!(BuildSystem::from_string("raw"), Some(BuildSystem::Raw));
    assert_eq!(BuildSystem::from_string("ninja"), None);
    assert_eq!(BuildSystem::from_lowercase("CMake"), None);
}

#[test]
fn build_system_names() {
    assert_eq!(BuildSystem::Raw.as_str(), "raw");
    assert_eq!(BuildSystem::CMake.as_str(), "cmake");
    assert_eq!(BuildSystem::Meson.as_str(), "meson");
    for b in [BuildSystem::Raw, BuildSystem::CMake, BuildSystem::Meson] {
        assert_eq!(BuildSystem::from_string(b.as_str()), Some(b));
    }
}

#[test]
fn build_result_constructors() {
    let ok = BuildResult::new_success("done".to_string());
    assert!(ok.success);
    assert_eq!(ok.output, "done");
    assert_eq!(ok.error, None);
    assert_eq!(ok.exit_code, None);
    let bad = BuildResult::new_error("boom".to_string(), 2);
    assert!(!bad.success);
    assert_eq!(bad.output, "");
    assert_eq!(bad.error, Some("boom".to_string()));
    assert_eq!(bad.exit_code, Some(2));
}

#[test]
fn cmake_text_for_a_task() {
    let text = generate_cmake(&config_sample());
    let expected = "cmake_minimum_required(VERSION 3.10)\n\
project(app)\n\n\
enable_language(CXX)\n\
include_directories(include)\n\
add_compile_definitions(DEBUG=1)\n\
add_compile_options(-Wall)\n\
add_compile_options(-g)\n\
add_compile_options(-O2)\n\
\nadd_executable(app main.cpp util.cpp)\n\
target_link_libraries(app m)\n";
    assert_eq!(text, expected);
}

#[test]
fn cmake_frameworks_use_upper_case() {
    let mut c = config_sample();
    c.language = "objc".to_string();
    c.frameworks = strs(&["Cocoa"]);
    c.link_libs = strs(&[]);
    c.debug = false;
    c.optimize = None;
    let text = generate_cmake(&c);
    assert!(text.contains("enable_language(OBJC)\n"));
    assert!(text.ends_with(
        "find_library(FRAMEWORK_COCOA NAMES Cocoa TYPE FRAMEWORK)\ntarget_link_libraries(app ${FRAMEWORK_COCOA})\n"
    ));
    assert!(!text.contains("-g"));
}

#[test]
fn cmake_unknown_language_has_no_language_line() {
    let mut c = config_sample();
    c.language = "rust".to_string();
    assert!(!generate_cmake(&c).contains("enable_language"));
}

#[test]
fn meson_text_for_a_task() {
    let text = generate_meson(&config_sample());
    let expected = "project('app', 'cpp')\n\nexecutable('app',\n  'main.cpp',\n  'util.cpp',\n  c_args: ['-Iinclude', '-DDEBUG=1', '-Wall', '-g', '-O2'],\n  dependencies: ['m'],\n)\n";
    assert_eq!(text, expected);
}

#[test]
fn meson_minimal_config() {
    let c = GeneratorConfig {
        language: "fortran".to_string(),
        files: strs(&["a.c"]),
        includes: strs(&[]),
        lib_paths: strs(&[]),
        defines: strs(&[]),
        link_libs: strs(&[]),
        flags: strs(&[]),
        optimize: None,
        debug: false,
        output_name: "x".to_string(),
        frameworks: strs(&["Foundation"]),
    };
    assert_eq!(generate_meson(&c), "project('x', 'c')\n\nexecutable('x',\n  'a.c',\n  link_args: ['Foundation'],\n)\n");
}

#[test]
fn glob_detection() {
    assert!(glob_like("src/*.cpp"));
    assert!(glob_like("file?.c"));
    assert!(glob_like("[ab].c"));
    assert!(!glob_like("main.cpp"));
}

#[test]
fn expand_patterns_sorted() {
    let patterns = strs(&["z.cpp", "src/*.cpp", "a.cpp"]);
    let outcomes = vec![
        GlobOutcome::Matches(vec![]),
        GlobOutcome::Matches(strs(&["src/b.cpp", "src/a.cpp"])),
        GlobOutcome::Matches(vec![]),
    ];
    assert_eq!(expand_glob_patterns(&patterns, &outcomes), Ok(strs(&["a.cpp", "src/a.cpp", "src/b.cpp", "z.cpp"])));
}

#[test]
fn expand_literal_names_kept_without_reading_outcome() {
    let patterns = strs(&["missing.c"]);
    let outcomes = vec![GlobOutcome::Invalid("ignored".to_string())];
    assert_eq!(expand_glob_patterns(&patterns, &outcomes), Ok(strs(&["missing.c"])));
}

#[test]
fn expand_invalid_glob_is_an_error() {
    let patterns = strs(&["ok.c", "bad[", "later*"]);
    let outcomes = vec![
        GlobOutcome::Matches(vec![]),
        GlobOutcome::Invalid("unclosed".to_string()),
        GlobOutcome::Invalid("never read".to_string()),
    ];
    assert_eq!(
        expand_glob_patterns(&patterns, &outcomes),
        Err(BuildError::InvalidGlob { pattern: "bad[".to_string(), message: "unclosed".to_string() })
    );
}

#[test]
fn table_strings_read_array_part() {
    let t = vec![
        (Value::Integer(2), Value::Str("b".to_string())),
        (Value::Str("name".to_string()), Value::Integer(5)),
        (Value::Integer(1), Value::Str("a".to_string())),
        (Value::Integer(4), Value::Str("d".to_string())),
    ];
    assert_eq!(table_to_strings(&t), Ok(strs(&["a", "b"])));
    assert_eq!(table_to_strings(&vec![]), Ok(strs(&[])));
}

#[test]
fn table_strings_reject_non_strings() {
    let t = vec![(Value::Integer(1), Value::Str("a".to_string())), (Value::Integer(2), Value::Integer(3))];
    assert_eq!(table_to_strings(&t), Err(BuildError::ExpectedStrings));
    let u = vec![(Value::Integer(1), Value::RawStr(vec![0xff]))];
    assert_eq!(table_to_strings(&u), Err(BuildError::InvalidUtf8));
}

#[test]
fn new_task_defaults() {
    let t = create_task();
    assert_eq!(t.language, "cpp");
    assert_eq!(t.compiler, 0);
    assert_eq!(t.standard, "c++17");
    assert!(t.files.is_empty() && t.link_libs.is_empty() && t.include_dirs.is_empty());
    assert!(t.lib_paths.is_empty() && t.defines.is_empty() && t.flags.is_empty());
    assert_eq!(t.output, None);
    assert_eq!(t.optimize, None);
    assert!(!t.debug);
    assert_eq!(t.warnings, None);
    assert_eq!(t.build_system, "raw");
    assert_eq!(t.output_name(), "a.out");
}

#[test]
fn task_compiler_choice() {
    let mut t = create_task();
    assert_eq!(t.compiler(2), Ok(()));
    assert_eq!(t.compiler, 2);
    assert_eq!(t.compiler(7), Err(BuildError::InvalidCompiler));
    assert_eq!(t.compiler, 2);
}

#[test]
fn task_generator_choice() {
    let mut t = create_task();
    assert_eq!(t.generator("CMake".to_string()), Ok(()));
    assert_eq!(t.build_system, "CMake");
    assert_eq!(t.generator("bazel".to_string()), Err(BuildError::InvalidGenerator("bazel".to_string())));
    assert_eq!(t.build_system, "CMake");
}

#[test]
fn task_find_library_appends() {
    let mut t = create_task();
    t.include_dirs(strs(&["inc"]));
    t.flags(strs(&["-O"]));
    let info = LibraryInfo::probed("z", strs(&["/usr/include/z"]), strs(&["/usr/lib/z"]));
    assert_eq!(info.libs, strs(&["z"]));
    t.find_library(&info);
    assert_eq!(t.include_dirs, strs(&["inc", "/usr/include/z"]));
    assert_eq!(t.lib_paths, strs(&["/usr/lib/z"]));
    assert_eq!(t.flags, strs(&["-O", "-L/usr/lib/z"]));
    assert_eq!(t.link_libs, strs(&["z"]));
}

#[test]
fn raw_compiler_arguments() {
    let mut t = create_task();
    t.standard("c++20".to_string());
    t.include_dirs(strs(&["inc"]));
    t.defines(strs(&["X=1"]));
    t.optimize("O3".to_string());
    t.warnings("Wall".to_string());
    t.debug(true);
    t.flags(strs(&["-pthread"]));
    t.link_libs(strs(&["m"]));
    t.output("prog".to_string());
    let args = t.raw_args(&strs(&["a.cpp", "b.cpp"])).unwrap();
    assert_eq!(
        args,
        strs(&["-std=c++20", "a.cpp", "b.cpp", "-Iinc", "-DX=1", "-O3", "-Wall", "-g", "-pthread", "-lm", "-o", "prog"])
    );
}

#[test]
fn raw_arguments_skip_empty_warning_level() {
    let mut t = create_task();
    t.warnings(String::new());
    assert_eq!(t.raw_args(&strs(&["m.c"])).unwrap(), strs(&["-std=c++17", "m.c", "-o", "a.out"]));
}

#[test]
fn raw_arguments_need_sources() {
    let t = create_task();
    assert_eq!(t.raw_args(&vec![]), Err(BuildError::NoSourceFiles));
}

#[test]
fn run_plan_checks_compiler_and_system() {
    let mut t = create_task();
    let p = t.run_plan().unwrap();
    assert_eq!(p.compiler, Compiler::Gxx);
    assert_eq!(p.system, BuildSystem::Raw);
    assert_eq!(p.output_name, "a.out");
    t.build_system = "bogus".to_string();
    assert_eq!(t.run_plan(), Err(BuildError::InvalidBuildSystem));
    t.compiler = 9;
    assert_eq!(t.run_plan(), Err(BuildError::InvalidCompiler));
}

#[test]
fn generate_plan_refuses_raw() {
    let mut t = create_task();
    assert_eq!(t.generate_plan(), Err(BuildError::CannotGenerateRaw));
    t.generator("meson".to_string()).unwrap();
    t.output("tool".to_string());
    assert_eq!(t.generate_plan(), Ok((BuildSystem::Meson, "tool".to_string())));
    t.build_system = "?".to_string();
    assert_eq!(t.generate_plan(), Err(BuildError::InvalidBuildSystem));
}

#[test]
fn generator_config_from_task() {
    let mut t = create_task();
    t.include_dirs(strs(&["i"]));
    t.defines(strs(&["D"]));
    t.optimize("O1".to_string());
    let c = t.generator_config(strs(&["f.cpp"]));
    assert_eq!(c.language, "cpp");
    assert_eq!(c.files, strs(&["f.cpp"]));
    assert_eq!(c.includes, strs(&["i"]));
    assert_eq!(c.defines, strs(&["D"]));
    assert_eq!(c.optimize, Some("O1".to_string()));
    assert_eq!(c.output_name, "a.out");
    assert!(c.frameworks.is_empty());
}

#[test]
fn build_step_results() {
    let g = BuildResult::generated(BuildSystem::CMake);
    assert_eq!(g.output, "Generated cmake configuration");
    assert_eq!(g.exit_code, Some(0));
    assert!(g.success);
    let b = BuildResult::built_with(BuildSystem::Meson);
    assert_eq!(b.output, "Built with meson");
    assert_eq!(b.error, None);
}

#[test]
fn compiler_process_outcomes() {
    let ok = build_result_of(ProcessOutcome::Exited { success: true, code: Some(0), stderr: String::new() });
    assert_eq!(ok, BuildResult::new_success("Build successful".to_string()));
    let failed = build_result_of(ProcessOutcome::Exited { success: false, code: Some(1), stderr: "err".to_string() });
    assert_eq!(failed, BuildResult::new_error("err".to_string(), 1));
    let killed = build_result_of(ProcessOutcome::Exited { success: false, code: None, stderr: String::new() });
    assert_eq!(killed.exit_code, Some(-1));
    let spawn = build_result_of(ProcessOutcome::SpawnFailed("no such file".to_string()));
    assert_eq!(spawn, BuildResult::new_error("no such file".to_string(), -1));
}

#[test]
fn task_language_and_frameworks_reach_generators() {
    let mut t = create_task();
    t.language("objc".to_string());
    t.frameworks(strs(&["Cocoa", "Metal"]));
    t.files(strs(&["main.m"]));
    let c = t.generator_config(t.files.clone());
    assert_eq!(c.language, "objc");
    assert_eq!(c.frameworks, strs(&["Cocoa", "Metal"]));
    assert!(generate_meson(&c).contains("  link_args: ['Cocoa', 'Metal'],\n"));
    assert!(generate_cmake(&c).contains("find_library(FRAMEWORK_METAL NAMES Metal TYPE FRAMEWORK)\n"));
}

#[test]
fn build_system_names_ignore_ascii_case() {
    for s in ["cmake", "CMAKE", "cMaKe", "Meson", "RAW", "NoNe", ""] {
        assert_eq!(BuildSystem::from_string(s), BuildSystem::from_string(&s.to_lowercase()));
        assert!(BuildSystem::from_string(s).is_some());
    }
    assert_eq!(BuildSystem::from_string(" cmake"), None);
}
