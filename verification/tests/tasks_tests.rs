use lush::tasks::{
    after_tasks, command_fallback, contains_text, parse_command, parse_depends, parse_task, start_command, CommandSpec,
    CommandStep, CommandTable, PlanError, TaskArgError, TaskEntry, TaskPlan, TaskRegistry,
};
use lush::value::Value;

fn names(v: &[&str]) -> Vec<String> {
    v.iter().map(|s| s.to_string()).collect()
}

fn entry(name: &str, deps: &[&str], handler: u64) -> TaskEntry {
    TaskEntry { name: name.to_string(), depends: names(deps), handler }
}

fn registry(entries: Vec<TaskEntry>) -> TaskRegistry {
    let mut r = TaskRegistry::new();
    for e in entries {
        r.register(e);
    }
    r
}

fn vstr(s: &str) -> Value {
    Value::Str(s.to_string())
}

#[test]
fn register_then_get() {
    let mut r = TaskRegistry::new();
    assert!(r.get("build").is_none());
    r.register(entry("build", &[], 1));
    r.register(entry("test", &["build"], 2));
    assert_eq!(r.get("build"), Some(&entry("build", &[], 1)));
    r.register(entry("build", &["fmt"], 3));
    assert_eq!(r.get("build"), Some(&entry("build", &["fmt"], 3)));
    assert_eq!(r.get("test"), Some(&entry("test", &["build"], 2)));
    assert_eq!(r.tasks.len(), 2);
}

#[test]
fn plan_runs_dependencies_first() {
    let r = registry(vec![entry("build", &[], 1), entry("test", &["build"], 2), entry("release", &["test", "build"], 3)]);
    let p = r.plan("release").unwrap();
    assert_eq!(p, TaskPlan { runs: names(&["build", "test", "release"]), failure: None });
}

#[test]
fn plan_runs_each_task_once() {
    let r = registry(vec![entry("ok", &[], 1), entry("y", &["ok", "ok"], 2)]);
    assert_eq!(r.plan("y").unwrap().runs, names(&["ok", "y"]));
}

#[test]
fn plan_detects_cycles() {
    let r = registry(vec![entry("a", &["b"], 1), entry("b", &["a"], 2)]);
    let p = r.plan("a").unwrap();
    assert_eq!(p.runs, names(&[]));
    assert_eq!(p.failure, Some(PlanError::Circular("a".to_string())));
    let s = registry(vec![entry("self", &["self"], 1)]);
    assert_eq!(s.plan("self").unwrap().failure, Some(PlanError::Circular("self".to_string())));
}

#[test]
fn plan_stops_at_missing_dependency() {
    let r = registry(vec![entry("ok", &[], 1), entry("x", &["ok", "nope", "later"], 2), entry("later", &[], 3)]);
    let p = r.plan("x").unwrap();
    assert_eq!(p.runs, names(&["ok"]));
    assert_eq!(p.failure, Some(PlanError::Missing("nope".to_string())));
}

#[test]
fn plan_of_unknown_task() {
    let r = registry(vec![entry("ok", &[], 1)]);
    assert!(r.plan("other").is_none());
}

#[test]
fn contains_text_finds_exact() {
    let v = names(&["a", "bc"]);
    assert!(contains_text(&v, "bc"));
    assert!(!contains_text(&v, "b"));
}

#[test]
fn task_with_handler_only() {
    let args = vec![vstr("build"), Value::Function(1)];
    assert_eq!(parse_task(&args), Ok(entry("build", &[], 1)));
}

#[test]
fn task_with_depends_forms() {
    let list = Value::Table(vec![(Value::Integer(1), vstr("a")), (Value::Integer(2), vstr("b"))]);
    assert_eq!(parse_task(&vec![vstr("run"), list, Value::Function(2)]), Ok(entry("run", &["a", "b"], 2)));
    let one = Value::Table(vec![(vstr("depends"), vstr("x"))]);
    assert_eq!(parse_task(&vec![vstr("run"), one, Value::Function(3)]), Ok(entry("run", &["x"], 3)));
    let nested = Value::Table(vec![(vstr("depends"), Value::Table(vec![(Value::Integer(1), vstr("build"))]))]);
    assert_eq!(parse_task(&vec![vstr("run"), nested, Value::Function(4)]), Ok(entry("run", &["build"], 4)));
    assert_eq!(parse_task(&vec![vstr("run"), Value::Nil, Value::Function(5)]), Ok(entry("run", &[], 5)));
    let empty = Value::Table(vec![]);
    assert_eq!(parse_task(&vec![vstr("run"), empty, Value::Function(6)]), Ok(entry("run", &[], 6)));
}

#[test]
fn task_argument_errors() {
    assert_eq!(parse_task(&vec![]), Err(TaskArgError::MissingArguments));
    assert_eq!(parse_task(&vec![Value::Integer(1), Value::Function(1)]), Err(TaskArgError::NameNotString));
    assert_eq!(parse_task(&vec![vstr("t"), Value::Integer(1), Value::Function(1)]), Err(TaskArgError::OptionsNotTable));
    assert_eq!(parse_task(&vec![vstr("t")]), Err(TaskArgError::WrongArgumentCount));
    assert_eq!(
        parse_task(&vec![vstr("t"), Value::Nil, Value::Nil, Value::Function(1)]),
        Err(TaskArgError::WrongArgumentCount)
    );
    assert_eq!(parse_task(&vec![vstr("t"), vstr("h")]), Err(TaskArgError::HandlerNotFunction));
    assert_eq!(parse_task(&vec![Value::RawStr(vec![0xff]), Value::Function(1)]), Err(TaskArgError::InvalidUtf8));
}

#[test]
fn depends_reading() {
    let nums = vec![(Value::Integer(1), Value::Integer(7))];
    assert_eq!(parse_depends(&nums), Ok(names(&["7"])));
    let bad = vec![(vstr("depends"), Value::Boolean(true))];
    assert_eq!(parse_depends(&bad), Err(TaskArgError::DependsNotStrings));
    let bad_item = vec![(vstr("depends"), Value::Table(vec![(Value::Integer(1), Value::Boolean(false))]))];
    assert_eq!(parse_depends(&bad_item), Err(TaskArgError::DependencyNotString));
    assert_eq!(parse_depends(&vec![(vstr("other"), vstr("x"))]), Ok(names(&[])));
}

#[test]
fn command_registration_arguments() {
    assert_eq!(
        parse_command(&vec![vstr("build"), Value::Function(5)]),
        Ok(CommandSpec { name: "build".to_string(), alias: None, handler: 5 })
    );
    assert_eq!(
        parse_command(&vec![vstr("build"), vstr("b"), Value::Function(5)]),
        Ok(CommandSpec { name: "build".to_string(), alias: Some("b".to_string()), handler: 5 })
    );
    assert_eq!(parse_command(&vec![vstr("x")]), Err(TaskArgError::ExpectedNameAndHandler));
    assert_eq!(parse_command(&vec![Value::Nil, Value::Function(1)]), Err(TaskArgError::CommandNameNotString));
    assert_eq!(parse_command(&vec![vstr("x"), Value::Nil, Value::Function(1)]), Err(TaskArgError::AliasNotString));
    assert_eq!(parse_command(&vec![vstr("x"), vstr("y")]), Err(TaskArgError::HandlerNotFunction));
}

#[test]
fn command_table_last_registration_wins() {
    let mut t = CommandTable::new();
    assert_eq!(t.get("build"), None);
    t.register(CommandSpec { name: "build".to_string(), alias: Some("b".to_string()), handler: 1 });
    assert_eq!(t.get("build"), Some(1));
    assert_eq!(t.get("b"), Some(1));
    t.set("b".to_string(), 2);
    assert_eq!(t.get("b"), Some(2));
    assert_eq!(t.get("build"), Some(1));
}

#[test]
fn command_dispatch_prefers_tasks() {
    let tasks = registry(vec![entry("build", &[], 1)]);
    let mut cmds = CommandTable::new();
    cmds.set("build".to_string(), 9);
    cmds.set("lint".to_string(), 8);
    assert_eq!(
        start_command(&tasks, &cmds, "build"),
        CommandStep::RunTasks(TaskPlan { runs: names(&["build"]), failure: None })
    );
    assert_eq!(start_command(&tasks, &cmds, "lint"), CommandStep::CallCommand(8));
    assert_eq!(start_command(&tasks, &cmds, "none"), CommandStep::Finish(false));
}

#[test]
fn command_after_tasks() {
    let mut cmds = CommandTable::new();
    cmds.set("build".to_string(), 4);
    assert_eq!(after_tasks(&cmds, "build", true), CommandStep::Finish(true));
    assert_eq!(after_tasks(&cmds, "build", false), CommandStep::CallCommand(4));
    assert_eq!(after_tasks(&cmds, "x", false), CommandStep::Finish(false));
    assert_eq!(command_fallback(&cmds, "x"), CommandStep::Finish(false));
}
