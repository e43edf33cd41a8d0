use vstd::prelude::*;
use vstd::string::*;
use crate::text::{same_text, views};
use crate::numfmt::{decimal_text, decimal_string};
use crate::value::{Value, sequence_values, sequence_refs, lookup_str, lookup_str_exec};

verus! {

broadcast use vstd::string::group_string_axioms;

/// A registered task: its name, the tasks it depends on, and its handler (an
/// opaque handle of the runtime).
#[derive(Debug, Clone, PartialEq)]
pub struct TaskEntry {
    pub name: String,
    pub depends: Vec<String>,
    pub handler: u64,
}

/// The tasks a script registered, by name.
#[derive(Debug)]
pub struct TaskRegistry {
    pub tasks: Vec<TaskEntry>,
}

/// The index of the first task named `name`.
pub open spec fn task_index(tasks: Seq<TaskEntry>, name: Seq<char>) -> Option<int>
    decreases tasks.len(),
{
    if tasks.len() == 0 {
        None
    } else if tasks.last().name@ == name {
        match task_index(tasks.drop_last(), name) {
            Some(i) => Some(i),
            None => Some(tasks.len() - 1),
        }
    } else {
        task_index(tasks.drop_last(), name)
    }
}

/// The task registered as `name`, if any.
pub open spec fn lookup_task(tasks: Seq<TaskEntry>, name: Seq<char>) -> Option<TaskEntry> {
    match task_index(tasks, name) {
        Some(i) => Some(tasks[i]),
        None => None,
    }
}

proof fn lemma_task_index(tasks: Seq<TaskEntry>, name: Seq<char>)
    ensures
        task_index(tasks, name) matches Some(i) ==> 0 <= i < tasks.len() && tasks[i].name@ == name
            && forall|j: int| 0 <= j < i ==> #[trigger] tasks[j].name@ != name,
        task_index(tasks, name) is None ==> forall|j: int| 0 <= j < tasks.len() ==> #[trigger] tasks[j].name@ != name,
    decreases tasks.len(),
{
    if tasks.len() > 0 {
        lemma_task_index(tasks.drop_last(), name);
        assert forall|j: int| 0 <= j < tasks.len() - 1 implies tasks[j] == tasks.drop_last()[j] by {}
    }
}

proof fn lemma_task_index_least(tasks: Seq<TaskEntry>, name: Seq<char>, i: int)
    requires
        0 <= i < tasks.len(),
        tasks[i].name@ == name,
        forall|j: int| 0 <= j < i ==> #[trigger] tasks[j].name@ != name,
    ensures
        task_index(tasks, name) == Some(i),
{
    lemma_task_index(tasks, name);
    match task_index(tasks, name) {
        Some(k) => {
            if k < i {
                assert(tasks[k].name@ != name);
            } else if k > i {
                assert(tasks[i].name@ != name);
            }
        },
        None => {
            assert(tasks[i].name@ != name);
        },
    }
}

/// Where the task named `name` stands, if it is registered.
fn find_task(tasks: &Vec<TaskEntry>, name: &str) -> (r: Option<usize>)
    ensures
        r matches Some(i) ==> task_index(tasks@, name@) == Some(i as int),
        r is None ==> task_index(tasks@, name@) is None,
{
    let n = tasks.len();
    let mut i: usize = 0;
    while i < n
        invariant
            n == tasks@.len(),
            i <= n,
            forall|j: int| 0 <= j < i ==> #[trigger] tasks@[j].name@ != name@,
        decreases n - i,
    {
        if same_text(tasks[i].name.as_str(), name) {
            proof {
                lemma_task_index_least(tasks@, name@, i as int);
            }
            return Some(i);
        }
        i = i + 1;
    }
    proof {
        lemma_task_index(tasks@, name@);
        if task_index(tasks@, name@) is Some {
            let k = task_index(tasks@, name@)->0;
            assert(tasks@[k].name@ != name@);
        }
    }
    None
}

impl TaskRegistry {
    /// An empty registry.
    pub fn new() -> (r: TaskRegistry)
        ensures
            r.tasks@.len() == 0,
    {
        TaskRegistry { tasks: Vec::new() }
    }

    /// Registers a task; one of the same name is replaced.
    pub fn register(&mut self, entry: TaskEntry)
        ensures
            lookup_task(final(self).tasks@, entry.name@) == Some(entry),
            forall|n: Seq<char>| n != entry.name@ ==> #[trigger] lookup_task(final(self).tasks@, n)
                == lookup_task(old(self).tasks@, n),
    {
        let ghost old_tasks = self.tasks@;
        let ghost name = entry.name@;
        match find_task(&self.tasks, entry.name.as_str()) {
            Some(i) => {
                proof {
                    lemma_task_index(old_tasks, name);
                }
                self.tasks.set(i, entry);
                proof {
                    lemma_task_index_least(self.tasks@, name, i as int);
                    assert forall|n: Seq<char>| n != name implies #[trigger] lookup_task(self.tasks@, n)
                        == lookup_task(old_tasks, n) by {
                        lemma_task_index(old_tasks, n);
                        lemma_task_index(self.tasks@, n);
                        if let Some(k) = task_index(old_tasks, n) {
                            assert(k != i);
                            lemma_task_index_least(self.tasks@, n, k);
                        } else {
                            if let Some(k) = task_index(self.tasks@, n) {
                                assert(old_tasks[k].name@ != n);
                                assert(k != i);
                            }
                        }
                    }
                }
            },
            None => {
                self.tasks.push(entry);
                proof {
                    lemma_task_index(old_tasks, name);
                    lemma_task_index_least(self.tasks@, name, old_tasks.len() as int);
                    assert forall|n: Seq<char>| n != name implies #[trigger] lookup_task(self.tasks@, n)
                        == lookup_task(old_tasks, n) by {
                        assert(self.tasks@.drop_last() == old_tasks);
                        lemma_task_index(old_tasks, n);
                        if let Some(k) = task_index(old_tasks, n) {
                            assert(self.tasks@[k] == old_tasks[k]);
                        }
                    }
                }
            },
        }
    }

    /// The task registered as `name`, if any.
    pub fn get(&self, name: &str) -> (r: Option<&TaskEntry>)
        ensures
            r matches Some(e) ==> lookup_task(self.tasks@, name@) == Some(*e),
            r is None ==> lookup_task(self.tasks@, name@) is None,
    {
        proof {
            lemma_task_index(self.tasks@, name@);
        }
        match find_task(&self.tasks, name) {
            Some(i) => Some(&self.tasks[i]),
            None => None,
        }
    }
}

/// How planning a task's run ended.
pub enum PlanEnd {
    /// Every task reached can run.
    Done,
    /// The task is reached again while its own dependencies are being planned.
    Circular(Seq<char>),
    /// No task of that name is registered.
    Missing(Seq<char>),
}

/// Why a task's run cannot go on.
#[derive(Debug, PartialEq, Eq)]
pub enum PlanError {
    /// A circular dependency that involves the named task.
    Circular(String),
    /// A dependency names no registered task.
    Missing(String),
}

/// The end of a plan as an exec result says it.
pub open spec fn end_of(r: Result<(), PlanError>) -> PlanEnd {
    match r {
        Ok(()) => PlanEnd::Done,
        Err(PlanError::Circular(n)) => PlanEnd::Circular(n@),
        Err(PlanError::Missing(n)) => PlanEnd::Missing(n@),
    }
}

/// The dependencies of a registered task.
pub open spec fn deps_of(e: TaskEntry) -> Seq<Seq<char>> {
    views(e.depends@)
}

/// Plans task `name` the way a depth-first walk runs it: a task already run (in
/// `done`) is skipped; a task on the walk's current path (`stack`) is a circular
/// dependency; otherwise its dependencies are planned in order, and then it runs.
/// Returns the tasks run so far, in order, and how the walk ended.
pub open spec fn visit(tasks: Seq<TaskEntry>, name: Seq<char>, stack: Seq<Seq<char>>, done: Seq<Seq<char>>) -> (Seq<Seq<char>>, PlanEnd)
    decreases tasks.len() + 1 - stack.len(), 0nat,
{
    if done.contains(name) {
        (done, PlanEnd::Done)
    } else if stack.contains(name) || stack.len() > tasks.len() {
        (done, PlanEnd::Circular(name))
    } else {
        match lookup_task(tasks, name) {
            None => (done, PlanEnd::Missing(name)),
            Some(e) => {
                let (d2, end) = visit_deps(tasks, deps_of(e), 0, stack.push(name), done);
                if end == PlanEnd::Done {
                    (d2.push(name), PlanEnd::Done)
                } else {
                    (d2, end)
                }
            },
        }
    }
}

/// Plans the dependencies `deps[i..]` in order (see `visit`), stopping at the first
/// that cannot run.
pub open spec fn visit_deps(tasks: Seq<TaskEntry>, deps: Seq<Seq<char>>, i: nat, stack: Seq<Seq<char>>, done: Seq<Seq<char>>) -> (Seq<Seq<char>>, PlanEnd)
    decreases tasks.len() + 1 - stack.len(), deps.len() - i,
{
    if i >= deps.len() {
        (done, PlanEnd::Done)
    } else {
        let (d1, end) = visit(tasks, deps[i as int], stack, done);
        if end == PlanEnd::Done {
            visit_deps(tasks, deps, i + 1, stack, d1)
        } else {
            (d1, end)
        }
    }
}

/// Whether a list of strings holds `s`.
pub fn contains_text(v: &Vec<String>, s: &str) -> (r: bool)
    ensures
        r == views(v@).contains(s@),
{
    let n = v.len();
    let mut i: usize = 0;
    while i < n
        invariant
            n == v@.len(),
            i <= n,
            forall|j: int| 0 <= j < i ==> v@[j]@ != s@,
        decreases n - i,
    {
        if same_text(v[i].as_str(), s) {
            assert(views(v@)[i as int] == s@);
            return true;
        }
        i = i + 1;
    }
    assert forall|j: int| 0 <= j < n implies views(v@)[j] != s@ by {
        assert(v@[j]@ != s@);
    }
    false
}

fn visit_exec(tasks: &Vec<TaskEntry>, name: &str, stack: &Vec<String>, done: &mut Vec<String>) -> (r: Result<(), PlanError>)
    ensures
        (views(final(done)@), end_of(r)) == visit(tasks@, name@, views(stack@), views(old(done)@)),
    decreases tasks@.len() + 1 - stack@.len(), 0nat,
{
    if contains_text(done, name) {
        return Ok(());
    }
    if contains_text(stack, name) || stack.len() > tasks.len() {
        return Err(PlanError::Circular(name.to_owned()));
    }
    proof {
        lemma_task_index(tasks@, name@);
    }
    let idx = match find_task(tasks, name) {
        Some(i) => i,
        None => return Err(PlanError::Missing(name.to_owned())),
    };
    let entry = &tasks[idx];
    assert(lookup_task(tasks@, name@) == Some(*entry));
    let mut inner = crate::text::clone_strings(stack);
    inner.push(name.to_owned());
    let ghost s2 = views(inner@);
    assert(s2 == views(stack@).push(name@)) by {
        assert(views(inner@) == views(inner@.drop_last()).push(inner@.last()@));
    }
    let ghost deps = deps_of(*entry);
    let ghost done0 = views(done@);
    let n = entry.depends.len();
    let mut i: usize = 0;
    while i < n
        invariant
            n == entry.depends@.len(),
            deps == views(entry.depends@),
            i <= n,
            s2 == views(inner@),
            inner@.len() == stack@.len() + 1,
            stack@.len() <= tasks@.len(),
            lookup_task(tasks@, name@) == Some(*entry),
            done0 == views(old(done)@),
            !done0.contains(name@),
            !views(stack@).contains(name@),
            s2 == views(stack@).push(name@),
            deps == deps_of(*entry),
            visit_deps(tasks@, deps, 0, s2, done0) == visit_deps(tasks@, deps, i as nat, s2, views(done@)),
        decreases n - i,
    {
        let ghost pre = views(done@);
        let r = visit_exec(tasks, entry.depends[i].as_str(), &inner, done);
        assert(entry.depends@[i as int]@ == deps[i as int]);
        match r {
            Ok(()) => {},
            Err(e) => {
                assert(end_of(r) != PlanEnd::Done);
                assert(visit_deps(tasks@, deps, i as nat, s2, pre) == (views(done@), end_of(r)));
                assert(lookup_task(tasks@, name@) == Some(*entry));
                return Err(e);
            },
        }
        i = i + 1;
    }
    done.push(name.to_owned());
    assert(views(done@) == views(done@.drop_last()).push(name@));
    Ok(())
}

/// A task's run as planned: the tasks to run, in order, and why the run stops
/// after them, if it does.
#[derive(Debug, PartialEq)]
pub struct TaskPlan {
    pub runs: Vec<String>,
    pub failure: Option<PlanError>,
}

impl TaskRegistry {
    /// Plans running task `name` with its dependencies, depth first (see `visit`);
    /// `None` when no task of that name is registered.
    pub fn plan(&self, name: &str) -> (r: Option<TaskPlan>)
        ensures
            lookup_task(self.tasks@, name@) is None <==> r is None,
            r matches Some(p) ==> (views(p.runs@), end_of(
                match p.failure {
                    None => Ok(()),
                    Some(e) => Err(e),
                },
            )) == visit(self.tasks@, name@, Seq::empty(), Seq::empty()),
    {
        if self.get(name).is_none() {
            return None;
        }
        let stack: Vec<String> = Vec::new();
        let mut done: Vec<String> = Vec::new();
        assert(views(stack@) == Seq::<Seq<char>>::empty());
        assert(views(done@) == Seq::<Seq<char>>::empty());
        let r = visit_exec(&self.tasks, name, &stack, &mut done);
        let failure = match r {
            Ok(()) => None,
            Err(e) => Some(e),
        };
        Some(TaskPlan { runs: done, failure })
    }
}


/// A run order is sound: no task runs twice, every task that runs is registered,
/// and every dependency of a task runs before it.
pub open spec fn sound_order(tasks: Seq<TaskEntry>, done: Seq<Seq<char>>) -> bool {
    &&& done.no_duplicates()
    &&& forall|k: int| 0 <= k < done.len() ==> #[trigger] lookup_task(tasks, done[k]) is Some
    &&& forall|k: int, d: int|
        0 <= k < done.len() && 0 <= d < deps_of(lookup_task(tasks, done[k]).unwrap()).len() ==> done.take(
            k,
        ).contains(#[trigger] deps_of(lookup_task(tasks, #[trigger] done[k]).unwrap())[d])
}

/// What a step of the walk keeps: the order stays sound, runs are only added at the
/// end, and no task on the current path is added.
pub open spec fn walk_step(tasks: Seq<TaskEntry>, stack: Seq<Seq<char>>, done: Seq<Seq<char>>, after: Seq<Seq<char>>) -> bool {
    &&& sound_order(tasks, after)
    &&& done.len() <= after.len()
    &&& after.take(done.len() as int) == done
    &&& forall|y: Seq<char>| #[trigger] after.contains(y) && !done.contains(y) ==> !stack.contains(y)
}

proof fn lemma_visit(tasks: Seq<TaskEntry>, name: Seq<char>, stack: Seq<Seq<char>>, done: Seq<Seq<char>>)
    requires
        sound_order(tasks, done),
    ensures
        walk_step(tasks, stack, done, visit(tasks, name, stack, done).0),
        visit(tasks, name, stack, done).1 == PlanEnd::Done ==> visit(tasks, name, stack, done).0.contains(name),
    decreases tasks.len() + 1 - stack.len(), 0nat,
{
    assert(done.take(done.len() as int) == done);
    if done.contains(name) {
    } else if stack.contains(name) || stack.len() > tasks.len() {
    } else {
        match lookup_task(tasks, name) {
            None => {},
            Some(e) => {
                let s2 = stack.push(name);
                lemma_visit_deps(tasks, deps_of(e), 0, s2, done);
                let (d2, end) = visit_deps(tasks, deps_of(e), 0, s2, done);
                assert forall|y: Seq<char>| #[trigger] d2.contains(y) && !done.contains(y) implies !stack.contains(y) by {
                    if stack.contains(y) {
                        let q = choose|q: int| 0 <= q < stack.len() && stack[q] == y;
                        assert(s2[q] == y);
                    }
                }
                if end == PlanEnd::Done {
                    let d = d2.push(name);
                    assert(s2.contains(name)) by {
                        assert(s2[s2.len() - 1] == name);
                    }
                    assert(!d2.contains(name));
                    assert(d.take(d2.len() as int) == d2);
                    assert(d.take(done.len() as int) == d2.take(done.len() as int));
                    assert forall|y: Seq<char>| #[trigger] d.contains(y) && !done.contains(y) implies !stack.contains(y) by {
                        if y != name {
                            let j = choose|j: int| 0 <= j < d.len() && d[j] == y;
                            assert(d2[j] == y);
                            assert(d2.contains(y));
                            if stack.contains(y) {
                                let q = choose|q: int| 0 <= q < stack.len() && stack[q] == y;
                                assert(s2[q] == y);
                            }
                        }
                    }
                    assert(d.no_duplicates()) by {
                        assert forall|a: int, b: int| 0 <= a < b < d.len() implies d[a] != d[b] by {
                            if b == d.len() - 1 {
                                assert(d2[a] == d[a]);
                                if d[a] == name {
                                    assert(d2.contains(name));
                                }
                            } else {
                                assert(d2[a] == d[a] && d2[b] == d[b]);
                            }
                        }
                    }
                    assert forall|k: int| 0 <= k < d.len() implies #[trigger] lookup_task(tasks, d[k]) is Some by {
                        if k < d.len() - 1 {
                            assert(d[k] == d2[k]);
                        }
                    }
                    assert forall|k: int, dd: int|
                        0 <= k < d.len() && 0 <= dd < deps_of(lookup_task(tasks, d[k]).unwrap()).len() implies d.take(
                            k,
                        ).contains(#[trigger] deps_of(lookup_task(tasks, #[trigger] d[k]).unwrap())[dd]) by {
                        if k < d.len() - 1 {
                            assert(d[k] == d2[k]);
                            assert(d.take(k) == d2.take(k));
                            assert(d2.take(k).contains(deps_of(lookup_task(tasks, d2[k]).unwrap())[dd]));
                        } else {
                            assert(d[k] == name);
                            assert(d.take(k) == d2);
                            assert(d2.contains(deps_of(e)[dd]));
                        }
                    }
                    assert(d[d.len() - 1] == name);
                }
            },
        }
    }
}

proof fn lemma_visit_deps(tasks: Seq<TaskEntry>, deps: Seq<Seq<char>>, i: nat, stack: Seq<Seq<char>>, done: Seq<Seq<char>>)
    requires
        sound_order(tasks, done),
    ensures
        walk_step(tasks, stack, done, visit_deps(tasks, deps, i, stack, done).0),
        visit_deps(tasks, deps, i, stack, done).1 == PlanEnd::Done ==> forall|j: int|
            i <= j < deps.len() ==> visit_deps(tasks, deps, i, stack, done).0.contains(#[trigger] deps[j]),
    decreases tasks.len() + 1 - stack.len(), deps.len() - i,
{
    assert(done.take(done.len() as int) == done);
    if i < deps.len() {
        lemma_visit(tasks, deps[i as int], stack, done);
        let (d1, end) = visit(tasks, deps[i as int], stack, done);
        if end == PlanEnd::Done {
            lemma_visit_deps(tasks, deps, i + 1, stack, d1);
            let (d, end2) = visit_deps(tasks, deps, i + 1, stack, d1);
            assert(d.take(done.len() as int) == d.take(d1.len() as int).take(done.len() as int));
            assert forall|y: Seq<char>| #[trigger] d.contains(y) && !done.contains(y) implies !stack.contains(y) by {
                if !d1.contains(y) {
                } else {
                }
            }
            if end2 == PlanEnd::Done {
                assert forall|j: int| i <= j < deps.len() implies d.contains(#[trigger] deps[j]) by {
                    if j == i {
                        let q = choose|q: int| 0 <= q < d1.len() && d1[q] == deps[j];
                        assert(d.take(d1.len() as int)[q] == deps[j]);
                        assert(d[q] == deps[j]);
                    }
                }
            }
        }
    }
}

/// A planned run order is sound (see `sound_order`), and a walk that ends well
/// runs the requested task last.
pub proof fn law_plan_runs_dependencies_first(tasks: Seq<TaskEntry>, name: Seq<char>)
    ensures
        sound_order(tasks, visit(tasks, name, Seq::empty(), Seq::empty()).0),
        visit(tasks, name, Seq::empty(), Seq::empty()).1 == PlanEnd::Done ==> visit(
            tasks,
            name,
            Seq::empty(),
            Seq::empty(),
        ).0.len() > 0 && visit(tasks, name, Seq::empty(), Seq::empty()).0.last() == name,
{
    let e: Seq<Seq<char>> = Seq::empty();
    assert(sound_order(tasks, e));
    lemma_visit(tasks, name, e, e);
}

/// Why the arguments of a registration were refused.
#[derive(Debug, PartialEq, Eq, Structural)]
pub enum TaskArgError {
    /// `task()` got no argument.
    MissingArguments,
    /// The task name is not a string.
    NameNotString,
    /// The options are neither a table nor `nil`.
    OptionsNotTable,
    /// `task()` got other than 2 or 3 arguments.
    WrongArgumentCount,
    /// The handler is not a function.
    HandlerNotFunction,
    /// `depends` is neither a string nor an array of strings.
    DependsNotStrings,
    /// A dependency cannot be read as a string.
    DependencyNotString,
    /// A string that is not valid UTF-8.
    InvalidUtf8,
    /// A command registration got fewer than 2 arguments.
    ExpectedNameAndHandler,
    /// The command name is not a string.
    CommandNameNotString,
    /// The command alias is not a string.
    AliasNotString,
}

/// A dependency read as a string: strings as they are, numbers by their text.
pub open spec fn dep_text(v: Value) -> Result<Seq<char>, TaskArgError> {
    match v {
        Value::Str(s) => Ok(s@),
        Value::Integer(i) => Ok(decimal_text(i as int)),
        Value::Number(t) => Ok(t@),
        Value::RawStr(_) => Err(TaskArgError::InvalidUtf8),
        _ => Err(TaskArgError::DependencyNotString),
    }
}

/// The dependencies read from a list of values; the first that is not a string is the error.
pub open spec fn dep_texts(vals: Seq<Value>) -> Result<Seq<Seq<char>>, TaskArgError>
    decreases vals.len(),
{
    if vals.len() == 0 {
        Ok(Seq::empty())
    } else {
        match dep_texts(vals.drop_last()) {
            Err(e) => Err(e),
            Ok(prev) => match dep_text(vals.last()) {
                Err(e) => Err(e),
                Ok(t) => Ok(prev.push(t)),
            },
        }
    }
}

proof fn lemma_dep_texts_err_stays(vals: Seq<Value>, i: nat)
    requires
        i <= vals.len(),
        dep_texts(vals.take(i as int)) is Err,
    ensures
        dep_texts(vals) == dep_texts(vals.take(i as int)),
    decreases vals.len() - i,
{
    if i < vals.len() {
        assert(vals.take(i + 1int).drop_last() == vals.take(i as int));
        lemma_dep_texts_err_stays(vals, i + 1);
    } else {
        assert(vals.take(i as int) == vals);
    }
}

fn dep_text_exec(v: &Value) -> (r: Result<String, TaskArgError>)
    ensures
        match r {
            Ok(s) => dep_text(*v) == Ok::<_, TaskArgError>(s@),
            Err(e) => dep_text(*v) == Err::<Seq<char>, _>(e),
        },
{
    match v {
        Value::Str(s) => Ok(s.clone()),
        Value::Integer(i) => Ok(decimal_string(*i)),
        Value::Number(t) => Ok(t.clone()),
        Value::RawStr(_) => Err(TaskArgError::InvalidUtf8),
        _ => Err(TaskArgError::DependencyNotString),
    }
}

/// The dependencies held in a table's array part.
fn sequence_deps(table: &Vec<(Value, Value)>) -> (r: Result<Vec<String>, TaskArgError>)
    ensures
        match r {
            Ok(v) => dep_texts(sequence_values(table@)) == Ok::<_, TaskArgError>(views(v@)),
            Err(e) => dep_texts(sequence_values(table@)) == Err::<Seq<Seq<char>>, _>(e),
        },
{
    let vals = sequence_refs(table);
    let ghost sv = sequence_values(table@);
    let n = vals.len();
    let mut out: Vec<String> = Vec::new();
    let mut i: usize = 0;
    assert(sv.take(0) == Seq::<Value>::empty());
    assert(views(out@) == Seq::<Seq<char>>::empty());
    while i < n
        invariant
            n == vals@.len(),
            n == sv.len(),
            sv == sequence_values(table@),
            forall|k: int| 0 <= k < n ==> *vals@[k] == sv[k],
            i <= n,
            dep_texts(sv.take(i as int)) == Ok::<_, TaskArgError>(views(out@)),
        decreases n - i,
    {
        assert(sv.take(i + 1int).drop_last() == sv.take(i as int));
        assert(sv.take(i + 1int).last() == *vals@[i as int]);
        match dep_text_exec(vals[i]) {
            Ok(t) => {
                let ghost prev = out@;
                out.push(t);
                assert(views(out@) == views(prev).push(out@.last()@));
            },
            Err(e) => {
                proof {
                    lemma_dep_texts_err_stays(sv, (i + 1) as nat);
                }
                return Err(e);
            },
        }
        i = i + 1;
    }
    assert(sv.take(n as int) == sv);
    Ok(out)
}

/// The dependencies a task's options name: an array of names, or a `depends` entry
/// that is one name or an array of names; none when there is neither.
pub open spec fn options_deps(opts: Seq<(Value, Value)>) -> Result<Seq<Seq<char>>, TaskArgError> {
    if sequence_values(opts).len() > 0 {
        dep_texts(sequence_values(opts))
    } else {
        match lookup_str(opts, "depends"@) {
            Some(Value::Str(s)) => Ok(seq![s@]),
            Some(Value::RawStr(_)) => Err(TaskArgError::InvalidUtf8),
            Some(Value::Table(t)) => dep_texts(sequence_values(t@)),
            Some(Value::Nil) => Ok(Seq::empty()),
            None => Ok(Seq::empty()),
            _ => Err(TaskArgError::DependsNotStrings),
        }
    }
}

/// The dependencies a task's options name (see `options_deps`).
pub fn parse_depends(opts: &Vec<(Value, Value)>) -> (r: Result<Vec<String>, TaskArgError>)
    ensures
        match r {
            Ok(v) => options_deps(opts@) == Ok::<_, TaskArgError>(views(v@)),
            Err(e) => options_deps(opts@) == Err::<Seq<Seq<char>>, _>(e),
        },
{
    let seq_part = sequence_refs(opts);
    if seq_part.len() > 0 {
        return sequence_deps(opts);
    }
    match lookup_str_exec(opts, "depends") {
        Some(Value::Str(s)) => {
            let mut v: Vec<String> = Vec::new();
            v.push(s.clone());
            assert(views(v@) == seq![s@]);
            Ok(v)
        },
        Some(Value::RawStr(_)) => Err(TaskArgError::InvalidUtf8),
        Some(Value::Table(t)) => sequence_deps(t),
        Some(Value::Nil) => {
            let v: Vec<String> = Vec::new();
            assert(views(v@) == Seq::<Seq<char>>::empty());
            Ok(v)
        },
        None => {
            let v: Vec<String> = Vec::new();
            assert(views(v@) == Seq::<Seq<char>>::empty());
            Ok(v)
        },
        _ => Err(TaskArgError::DependsNotStrings),
    }
}

/// The task that `task(name, handler)` or `task(name, opts, handler)` registers:
/// its name, dependencies and handler.
pub open spec fn task_from_args(args: Seq<Value>) -> Result<(Seq<char>, Seq<Seq<char>>, u64), TaskArgError> {
    if args.len() == 0 {
        Err(TaskArgError::MissingArguments)
    } else {
        match args[0] {
            Value::Str(name) => {
                let deps: Result<Seq<Seq<char>>, TaskArgError> = if args.len() == 2 {
                    Ok(Seq::empty())
                } else if args.len() == 3 {
                    match args[1] {
                        Value::Table(opts) => options_deps(opts@),
                        Value::Nil => Ok(Seq::empty()),
                        _ => Err(TaskArgError::OptionsNotTable),
                    }
                } else {
                    Err(TaskArgError::WrongArgumentCount)
                };
                match deps {
                    Err(e) => Err(e),
                    Ok(d) => match args[args.len() - 1] {
                        Value::Function(h) => Ok((name@, d, h)),
                        _ => Err(TaskArgError::HandlerNotFunction),
                    },
                }
            },
            Value::RawStr(_) => Err(TaskArgError::InvalidUtf8),
            _ => Err(TaskArgError::NameNotString),
        }
    }
}

/// `lush.task(...)`: the task the arguments describe (see `task_from_args`).
pub fn parse_task(args: &Vec<Value>) -> (r: Result<TaskEntry, TaskArgError>)
    ensures
        match r {
            Ok(e) => task_from_args(args@) == Ok::<_, TaskArgError>((e.name@, deps_of(e), e.handler)),
            Err(err) => task_from_args(args@) == Err::<(Seq<char>, Seq<Seq<char>>, u64), _>(err),
        },
{
    if args.len() == 0 {
        return Err(TaskArgError::MissingArguments);
    }
    let name = match &args[0] {
        Value::Str(s) => s.clone(),
        Value::RawStr(_) => return Err(TaskArgError::InvalidUtf8),
        _ => return Err(TaskArgError::NameNotString),
    };
    let n = args.len();
    let depends: Vec<String> = if n == 2 {
        let v: Vec<String> = Vec::new();
        assert(views(v@) == Seq::<Seq<char>>::empty());
        v
    } else if n == 3 {
        match &args[1] {
            Value::Table(opts) => match parse_depends(opts) {
                Ok(v) => v,
                Err(e) => return Err(e),
            },
            Value::Nil => {
                let v: Vec<String> = Vec::new();
                assert(views(v@) == Seq::<Seq<char>>::empty());
                v
            },
            _ => return Err(TaskArgError::OptionsNotTable),
        }
    } else {
        return Err(TaskArgError::WrongArgumentCount);
    };
    let handler = match &args[n - 1] {
        Value::Function(h) => *h,
        _ => return Err(TaskArgError::HandlerNotFunction),
    };
    Ok(TaskEntry { name, depends, handler })
}

/// The commands a script registered: each name with its handler.
#[derive(Debug)]
pub struct CommandTable {
    pub entries: Vec<(String, u64)>,
}

/// The handler of the last command registered as `name`, if any.
pub open spec fn command_handler(entries: Seq<(String, u64)>, name: Seq<char>) -> Option<u64>
    decreases entries.len(),
{
    if entries.len() == 0 {
        None
    } else if entries.last().0@ == name {
        Some(entries.last().1)
    } else {
        command_handler(entries.drop_last(), name)
    }
}

/// A command registration: the name, an optional alias, and the handler.
#[derive(Debug, Clone, PartialEq)]
pub struct CommandSpec {
    pub name: String,
    pub alias: Option<String>,
    pub handler: u64,
}

/// The command `register(name, handler)` or `register(name, alias, handler)` registers.
pub open spec fn command_from_args(args: Seq<Value>) -> Result<(Seq<char>, Option<Seq<char>>, u64), TaskArgError> {
    if args.len() < 2 {
        Err(TaskArgError::ExpectedNameAndHandler)
    } else {
        match args[0] {
            Value::Str(name) => {
                let alias: Result<Option<Seq<char>>, TaskArgError> = if args.len() == 2 {
                    Ok(None)
                } else {
                    match args[1] {
                        Value::Str(a) => Ok(Some(a@)),
                        Value::RawStr(_) => Err(TaskArgError::InvalidUtf8),
                        _ => Err(TaskArgError::AliasNotString),
                    }
                };
                let handler = if args.len() == 2 {
                    args[1]
                } else {
                    args[2]
                };
                match alias {
                    Err(e) => Err(e),
                    Ok(a) => match handler {
                        Value::Function(h) => Ok((name@, a, h)),
                        _ => Err(TaskArgError::HandlerNotFunction),
                    },
                }
            },
            Value::RawStr(_) => Err(TaskArgError::InvalidUtf8),
            _ => Err(TaskArgError::CommandNameNotString),
        }
    }
}

/// `lush.register(...)`: the command the arguments describe (see `command_from_args`).
pub fn parse_command(args: &Vec<Value>) -> (r: Result<CommandSpec, TaskArgError>)
    ensures
        match r {
            Ok(c) => command_from_args(args@) == Ok::<_, TaskArgError>(
                (
                    c.name@,
                    match c.alias {
                        Some(a) => Some(a@),
                        None => None,
                    },
                    c.handler,
                ),
            ),
            Err(e) => command_from_args(args@) == Err::<(Seq<char>, Option<Seq<char>>, u64), _>(e),
        },
{
    if args.len() < 2 {
        return Err(TaskArgError::ExpectedNameAndHandler);
    }
    let name = match &args[0] {
        Value::Str(s) => s.clone(),
        Value::RawStr(_) => return Err(TaskArgError::InvalidUtf8),
        _ => return Err(TaskArgError::CommandNameNotString),
    };
    let alias = if args.len() == 2 {
        None
    } else {
        match &args[1] {
            Value::Str(a) => Some(a.clone()),
            Value::RawStr(_) => return Err(TaskArgError::InvalidUtf8),
            _ => return Err(TaskArgError::AliasNotString),
        }
    };
    let hv = if args.len() == 2 {
        &args[1]
    } else {
        &args[2]
    };
    let handler = match hv {
        Value::Function(h) => *h,
        _ => return Err(TaskArgError::HandlerNotFunction),
    };
    Ok(CommandSpec { name, alias, handler })
}

impl CommandTable {
    /// An empty table.
    pub fn new() -> (r: CommandTable)
        ensures
            r.entries@.len() == 0,
    {
        CommandTable { entries: Vec::new() }
    }

    /// Sets the handler of `name`, replacing any earlier one.
    pub fn set(&mut self, name: String, handler: u64)
        ensures
            command_handler(final(self).entries@, name@) == Some(handler),
            forall|n: Seq<char>| n != name@ ==> #[trigger] command_handler(final(self).entries@, n)
                == command_handler(old(self).entries@, n),
    {
        let ghost nm = name@;
        self.entries.push((name, handler));
        assert(self.entries@.drop_last() == old(self).entries@);
    }

    /// Registers a command under its name, and under its alias if it has one.
    pub fn register(&mut self, spec: CommandSpec)
        ensures
            command_handler(final(self).entries@, spec.name@) == Some(spec.handler),
            spec.alias matches Some(a) ==> command_handler(final(self).entries@, a@) == Some(spec.handler),
            forall|n: Seq<char>|
                n != spec.name@ && !(spec.alias matches Some(a) && a@ == n) ==> #[trigger] command_handler(
                    final(self).entries@,
                    n,
                ) == command_handler(old(self).entries@, n),
    {
        let CommandSpec { name, alias, handler } = spec;
        self.set(name, handler);
        match alias {
            Some(a) => self.set(a, handler),
            None => {},
        }
    }

    /// The handler registered for `name`, if any.
    pub fn get(&self, name: &str) -> (r: Option<u64>)
        ensures
            r == command_handler(self.entries@, name@),
    {
        let n = self.entries.len();
        let mut i: usize = n;
        assert(self.entries@.take(n as int) == self.entries@);
        while i > 0
            invariant
                i <= n,
                n == self.entries@.len(),
                command_handler(self.entries@, name@) == command_handler(self.entries@.take(i as int), name@),
            decreases i,
        {
            let ghost t = self.entries@.take(i as int);
            assert(t.drop_last() == self.entries@.take(i - 1));
            assert(t.last() == self.entries@[i - 1]);
            if same_text(self.entries[i - 1].0.as_str(), name) {
                return Some(self.entries[i - 1].1);
            }
            i = i - 1;
        }
        None
    }
}

/// What to do next for a command given on the command line.
#[derive(Debug, PartialEq)]
pub enum CommandStep {
    /// Run the planned tasks, then report how they went (see `after_tasks`).
    RunTasks(TaskPlan),
    /// Call the registered command handler; its success is the answer.
    CallCommand(u64),
    /// The command is answered.
    Finish(bool),
}

/// The command-table fallback: call the registered command, or answer `false`.
pub fn command_fallback(commands: &CommandTable, name: &str) -> (r: CommandStep)
    ensures
        match command_handler(commands.entries@, name@) {
            Some(h) => r == CommandStep::CallCommand(h),
            None => r == CommandStep::Finish(false),
        },
{
    match commands.get(name) {
        Some(h) => CommandStep::CallCommand(h),
        None => CommandStep::Finish(false),
    }
}

/// The first step for a command: a registered task runs with its dependencies;
/// anything else goes to the command table.
pub fn start_command(tasks: &TaskRegistry, commands: &CommandTable, name: &str) -> (r: CommandStep)
    ensures
        lookup_task(tasks.tasks@, name@) is Some ==> (r matches CommandStep::RunTasks(p) && (views(p.runs@), end_of(
            match p.failure {
                None => Ok(()),
                Some(e) => Err(e),
            },
        )) == visit(tasks.tasks@, name@, Seq::empty(), Seq::empty())),
        lookup_task(tasks.tasks@, name@) is None ==> match command_handler(commands.entries@, name@) {
            Some(h) => r == CommandStep::CallCommand(h),
            None => r == CommandStep::Finish(false),
        },
{
    match tasks.plan(name) {
        Some(p) => CommandStep::RunTasks(p),
        None => command_fallback(commands, name),
    }
}

/// The step after the planned tasks ran: success answers `true`; a task that failed
/// or could not run sends the command to the command table.
pub fn after_tasks(commands: &CommandTable, name: &str, succeeded: bool) -> (r: CommandStep)
    ensures
        succeeded ==> r == CommandStep::Finish(true),
        !succeeded ==> match command_handler(commands.entries@, name@) {
            Some(h) => r == CommandStep::CallCommand(h),
            None => r == CommandStep::Finish(false),
        },
{
    if succeeded {
        CommandStep::Finish(true)
    } else {
        command_fallback(commands, name)
    }
}

} // verus!
