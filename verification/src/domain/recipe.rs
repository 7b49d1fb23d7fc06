//! Taskenfile recipes: the raw recipe file model, its validation, and the
//! resolution of `{{ var }}` placeholders in task commands.
//!
//! Reading a file and deserialising TOML or YAML into a [`RecipeFile`]
//! happen outside the library; everything after that is here.

use vstd::prelude::*;

use crate::domain::recipes::{
    entry_views, find_pair_from, lemma_find_pair_bounds, trim_seq, with_overrides, StringMap,
};
use crate::external::{duration_from_secs, secs_duration};
use crate::text::{clone_strings, contains_string, push_range, push_str, sort_distinct_strings, strictly_sorted, views};

verus! {

// ---------------------------------------------------------------------------
// Errors
// ---------------------------------------------------------------------------

/// Errors that can occur during recipe parsing or validation.
#[derive(Debug)]
pub enum ParseError {
    /// The file could not be read; the reader's message.
    Io(String),
    /// TOML deserialisation failed; the deserialiser's message.
    Toml(String),
    /// YAML deserialisation failed; the deserialiser's message.
    Yaml(String),
    /// A variable referenced in a command is not defined.
    UndefinedVariable { name: String, task: String },
    /// The recipe has no tasks.
    NoTasks,
    /// A task name is empty or blank.
    InvalidTaskName(String),
    /// A dependency refers to a task that does not exist.
    UnknownDependency { dep: String, task: String },
    /// Unsupported file extension.
    UnsupportedExtension(String),
    /// Generic validation error.
    Validation(String),
}

/// The message of a parse error (what `Display` renders).
pub open spec fn parse_error_message(e: ParseError) -> Seq<char> {
    match e {
        ParseError::Io(m) => "Failed to read Taskenfile: "@ + m@,
        ParseError::Toml(m) => "TOML parse error: "@ + m@,
        ParseError::Yaml(m) => "YAML parse error: "@ + m@,
        ParseError::UndefinedVariable { name, task } =>
            "Undefined variable `"@ + name@ + "` referenced in task `"@ + task@ + "`"@,
        ParseError::NoTasks => "Recipe must define at least one task"@,
        ParseError::InvalidTaskName(n) => "Invalid task name: `"@ + n@ + "`"@,
        ParseError::UnknownDependency { dep, task } =>
            "Unknown dependency `"@ + dep@ + "` in task `"@ + task@ + "`"@,
        ParseError::UnsupportedExtension(x) =>
            "Unsupported file extension: `"@ + x@ + "` (expected .toml, .yaml, or .yml)"@,
        ParseError::Validation(m) => "Validation error: "@ + m@,
    }
}

fn concat3(a: &str, b: &str, c: &str) -> (r: String)
    ensures
        r@ == a@ + b@ + c@,
{
    let mut r = String::from_str(a);
    push_str(&mut r, b);
    push_str(&mut r, c);
    r
}

fn concat2(a: &str, b: &str) -> (r: String)
    ensures
        r@ == a@ + b@,
{
    let mut r = String::from_str(a);
    push_str(&mut r, b);
    r
}

fn concat5(a: &str, b: &str, c: &str, d: &str, e: &str) -> (r: String)
    ensures
        r@ == a@ + b@ + c@ + d@ + e@,
{
    let mut r = concat3(a, b, c);
    push_str(&mut r, d);
    push_str(&mut r, e);
    r
}

impl ParseError {
    /// The human-readable message (what `Display` renders).
    pub fn to_string(&self) -> (r: String)
        ensures
            r@ == parse_error_message(*self),
    {
        match self {
            ParseError::Io(m) => concat2("Failed to read Taskenfile: ", m.as_str()),
            ParseError::Toml(m) => concat2("TOML parse error: ", m.as_str()),
            ParseError::Yaml(m) => concat2("YAML parse error: ", m.as_str()),
            ParseError::UndefinedVariable { name, task } =>
                concat5("Undefined variable `", name.as_str(), "` referenced in task `", task.as_str(), "`"),
            ParseError::NoTasks => String::from_str("Recipe must define at least one task"),
            ParseError::InvalidTaskName(n) => concat3("Invalid task name: `", n.as_str(), "`"),
            ParseError::UnknownDependency { dep, task } =>
                concat5("Unknown dependency `", dep.as_str(), "` in task `", task.as_str(), "`"),
            ParseError::UnsupportedExtension(x) =>
                concat3("Unsupported file extension: `", x.as_str(), "` (expected .toml, .yaml, or .yml)"),
            ParseError::Validation(m) => concat2("Validation error: ", m.as_str()),
        }
    }
}

// ---------------------------------------------------------------------------
// Model
// ---------------------------------------------------------------------------

/// A single step definition inside a Taskenfile.
#[derive(Debug)]
pub struct TaskStepDef {
    /// Step name (unique within a recipe).
    pub name: String,
    /// Optional description.
    pub description: Option<String>,
    /// Shell command to execute.
    pub command: String,
    /// Names of steps that must complete before this one.
    pub depends_on: Vec<String>,
    /// Per-step variables (merged over the recipe-level ones).
    pub vars: StringMap,
    /// Optional timeout in seconds.
    pub timeout: Option<u64>,
}

/// Raw representation of a Taskenfile.
#[derive(Debug)]
pub struct RecipeFile {
    /// Recipe name.
    pub name: String,
    /// Optional description.
    pub description: Option<String>,
    /// Optional author.
    pub author: Option<String>,
    /// Recipe-level variables.
    pub vars: StringMap,
    /// Task step definitions, in order.
    pub tasks: Vec<TaskStepDef>,
}

/// A resolved task step ready for execution.
#[derive(Debug)]
pub struct RecipeTask {
    /// Step name.
    pub name: String,
    /// Optional description.
    pub description: Option<String>,
    /// Shell command with its variables resolved.
    pub command: String,
    /// Names of steps that must complete first.
    pub depends_on: Vec<String>,
    /// The variables available to the step.
    pub vars: StringMap,
    /// Optional timeout.
    pub timeout: Option<std::time::Duration>,
    /// Optional condition under which the step runs.
    pub condition: Option<String>,
}

/// A fully resolved recipe.
#[derive(Debug)]
pub struct Recipe {
    /// Recipe name.
    pub name: String,
    /// Optional description.
    pub description: Option<String>,
    /// Optional author.
    pub author: Option<String>,
    /// Resolved task steps.
    pub tasks: Vec<RecipeTask>,
    /// Every dependency named by some task, once each, in increasing order.
    pub dependencies: Vec<String>,
    /// Recipe-level variables.
    pub vars: StringMap,
}

// ---------------------------------------------------------------------------
// Command templates
// ---------------------------------------------------------------------------

/// The first fault of a command template read from `pos`, if any:
/// `(0, _)` an unclosed `{{`, `(1, _)` an empty name, `(2, name)` a name
/// without a value.
pub open spec fn template_fault(t: Seq<char>, pos: int, m: Map<Seq<char>, Seq<char>>) -> Option<(nat, Seq<char>)>
    decreases t.len() - pos,
{
    let i = find_pair_from(t, '{', pos);
    if pos < 0 || pos > t.len() || i < 0 {
        None
    } else {
        let j = find_pair_from(t, '}', i + 2);
        if j < 0 {
            Some((0nat, seq![]))
        } else {
            proof {
                lemma_find_pair_bounds(t, '{', pos);
                lemma_find_pair_bounds(t, '}', i + 2);
            }
            let name = trim_seq(t.subrange(i + 2, j));
            if name.len() == 0 {
                Some((1nat, seq![]))
            } else if !m.contains_key(name) {
                Some((2nat, name))
            } else {
                template_fault(t, j + 2, m)
            }
        }
    }
}

/// A command template read from `pos` with each placeholder replaced by its
/// variable's value.
pub open spec fn template_text(t: Seq<char>, pos: int, m: Map<Seq<char>, Seq<char>>) -> Seq<char>
    decreases t.len() - pos,
{
    let i = find_pair_from(t, '{', pos);
    if pos < 0 || pos > t.len() {
        seq![]
    } else if i < 0 {
        t.subrange(pos, t.len() as int)
    } else {
        let j = find_pair_from(t, '}', i + 2);
        if j < 0 {
            seq![]
        } else {
            proof {
                lemma_find_pair_bounds(t, '{', pos);
                lemma_find_pair_bounds(t, '}', i + 2);
            }
            t.subrange(pos, i) + m[trim_seq(t.subrange(i + 2, j))] + template_text(t, j + 2, m)
        }
    }
}

/// The error reported for a template fault in task `task`.
pub open spec fn fault_error(e: ParseError, f: (nat, Seq<char>), task: Seq<char>) -> bool {
    match e {
        ParseError::Validation(msg) =>
            (f.0 == 0 && msg@ == "Unclosed `{{` in task `"@ + task + "`"@)
            || (f.0 == 1 && msg@ == "Empty variable reference in task `"@ + task + "`"@),
        ParseError::UndefinedVariable { name, task: t } => f.0 == 2 && name@ == f.1 && t@ == task,
        _ => false,
    }
}

/// The first position at or after `from` where `c` occurs twice in a row.
fn find_pair_in(cs: &Vec<char>, c: char, from: usize) -> (r: Option<usize>)
    ensures
        match r {
            Some(k) => k == find_pair_from(cs@, c, from as int),
            None => find_pair_from(cs@, c, from as int) == -1,
        },
{
    let mut k = from;
    while k < cs.len() && k + 1 < cs.len()
        invariant
            from <= k,
            find_pair_from(cs@, c, from as int) == find_pair_from(cs@, c, k as int),
        decreases cs.len() - k,
    {
        if cs[k] == c && cs[k + 1] == c {
            return Some(k);
        }
        k = k + 1;
    }
    None
}

impl TaskenfileParser {
    /// Replaces each `{{ name }}` of `template` by the value of the trimmed
    /// name in `vars`. Fails on an unclosed `{{`, an empty name, or a name
    /// without a value, reporting the first such fault.
    pub fn interpolate(template: &str, vars: &StringMap, task_name: &str) -> (r: Result<String, ParseError>)
        ensures
            match template_fault(template@, 0, vars@) {
                None => r matches Ok(s) && s@ == template_text(template@, 0, vars@),
                Some(f) => r matches Err(e) && fault_error(e, f, task_name@),
            },
    {
        let cs = crate::text::chars_of(template);
        let n = cs.len();
        let ghost t = cs@;
        let ghost m = vars@;
        let mut result = String::new();
        let mut pos: usize = 0;
        proof {
            assert(result@ + template_text(t, 0, m) =~= template_text(t, 0, m));
        }
        loop
            invariant
                t == cs@,
                t == template@,
                m == vars@,
                n == t.len(),
                pos <= n,
                template_fault(t, pos as int, m) == template_fault(t, 0, m),
                template_fault(t, 0, m) is None ==> result@ + template_text(t, pos as int, m) == template_text(t, 0, m),
            decreases n - pos,
        {
            let ghost before = result@;
            match find_pair_in(&cs, '{', pos) {
                None => {
                    push_range(&mut result, cs.as_slice(), pos, n);
                    proof {
                        assert(result@ =~= before + template_text(t, pos as int, m));
                    }
                    return Ok(result);
                },
                Some(i) => {
                    proof {
                        lemma_find_pair_bounds(t, '{', pos as int);
                    }
                    match find_pair_in(&cs, '}', i + 2) {
                        None => {
                            let msg = concat3("Unclosed `{{` in task `", task_name, "`");
                            return Err(ParseError::Validation(msg));
                        },
                        Some(j) => {
                            proof {
                                lemma_find_pair_bounds(t, '}', i + 2);
                            }
                            let (a, b) = crate::domain::recipes::trim_range(&cs, i + 2, j);
                            if a == b {
                                let msg = concat3("Empty variable reference in task `", task_name, "`");
                                return Err(ParseError::Validation(msg));
                            }
                            let name = crate::domain::recipes::string_from_range(&cs, a, b);
                            match vars.get(name.as_str()) {
                                Some(value) => {
                                    push_range(&mut result, cs.as_slice(), pos, i);
                                    push_str(&mut result, value.as_str());
                                    proof {
                                        let name_s = trim_seq(t.subrange(i + 2, j as int));
                                        assert(result@ =~= before + t.subrange(pos as int, i as int) + m[name_s]);
                                        assert(result@ + template_text(t, j + 2, m) =~= before + template_text(t, pos as int, m));
                                    }
                                    pos = j + 2;
                                },
                                None => {
                                    return Err(ParseError::UndefinedVariable {
                                        name,
                                        task: String::from_str(task_name),
                                    });
                                },
                            }
                        },
                    }
                },
            }
        }
    }
}

// ---------------------------------------------------------------------------
// Validation and resolution
// ---------------------------------------------------------------------------

/// The names of the task definitions.
pub open spec fn def_names(ts: Seq<TaskStepDef>) -> Seq<Seq<char>> {
    ts.map_values(|t: TaskStepDef| t.name@)
}

/// The first dependency of task `i` at or after `k` that names no task,
/// or `-1`.
pub open spec fn first_unknown_dep_from(ts: Seq<TaskStepDef>, i: int, k: int) -> int
    decreases ts[i].depends_on@.len() - k,
{
    if k < 0 || k >= ts[i].depends_on@.len() {
        -1
    } else if !def_names(ts).contains(ts[i].depends_on@[k]@) {
        k
    } else {
        first_unknown_dep_from(ts, i, k + 1)
    }
}

/// Task `i` has a blank name or an unknown dependency.
pub open spec fn task_invalid(ts: Seq<TaskStepDef>, i: int) -> bool {
    trim_seq(ts[i].name@).len() == 0 || first_unknown_dep_from(ts, i, 0) >= 0
}

/// The first invalid task at or after `i`, or `-1`.
pub open spec fn first_invalid_from(ts: Seq<TaskStepDef>, i: int) -> int
    decreases ts.len() - i,
{
    if i < 0 || i >= ts.len() {
        -1
    } else if task_invalid(ts, i) {
        i
    } else {
        first_invalid_from(ts, i + 1)
    }
}

/// The variables of a task: the recipe's, then the task's own over them.
pub open spec fn merged_vars(recipe_vars: Map<Seq<char>, Seq<char>>, t: TaskStepDef) -> Map<Seq<char>, Seq<char>> {
    with_overrides(recipe_vars, t.vars.entry_list())
}

/// The first task at or after `i` whose command has a template fault, or `-1`.
pub open spec fn first_fault_from(rv: Map<Seq<char>, Seq<char>>, ts: Seq<TaskStepDef>, i: int) -> int
    decreases ts.len() - i,
{
    if i < 0 || i >= ts.len() {
        -1
    } else if template_fault(ts[i].command@, 0, merged_vars(rv, ts[i])) is Some {
        i
    } else {
        first_fault_from(rv, ts, i + 1)
    }
}

/// Every dependency named by some task.
pub open spec fn all_deps(ts: Seq<TaskStepDef>) -> Set<Seq<char>> {
    Set::new(|d: Seq<char>| exists|i: int, k: int| 0 <= i < ts.len() && 0 <= k < ts[i].depends_on@.len()
        && d == #[trigger] ts[i].depends_on@[k]@)
}

/// A resolved task built from its definition.
pub open spec fn resolved(rt: RecipeTask, def: TaskStepDef, rv: Map<Seq<char>, Seq<char>>) -> bool {
    &&& rt.name@ == def.name@
    &&& rt.description == def.description
    &&& rt.command@ == template_text(def.command@, 0, merged_vars(rv, def))
    &&& views(rt.depends_on@) == views(def.depends_on@)
    &&& rt.vars@ == merged_vars(rv, def)
    &&& rt.timeout == match def.timeout { Some(s) => Some(secs_duration(s)), None => None }
    &&& rt.condition is None
}

/// Parses Taskenfile content into [`Recipe`] objects.
pub struct TaskenfileParser;

/// A copy of an optional string.
fn clone_opt(o: &Option<String>) -> (r: Option<String>)
    ensures
        r == *o,
{
    match o {
        Some(s) => Some(s.clone()),
        None => None,
    }
}

/// Whether the trimmed text is empty.
fn is_blank(s: &String) -> (r: bool)
    ensures
        r == (trim_seq(s@).len() == 0),
{
    let cs = crate::text::chars_of(s.as_str());
    let (a, b) = crate::domain::recipes::trim_range(&cs, 0, cs.len());
    proof {
        assert(cs@.subrange(0, cs@.len() as int) =~= cs@);
    }
    a == b
}

impl TaskenfileParser {
    /// Validates a raw recipe and resolves it.
    ///
    /// Fails with `NoTasks` when there are no tasks; then, for the first
    /// task (in order) with a blank name or a dependency naming no task,
    /// with `InvalidTaskName` or `UnknownDependency` (its first unknown
    /// dependency); then, for the first task whose command cannot be
    /// resolved against the recipe variables merged with its own, with that
    /// template's error. Otherwise each task keeps its fields, gets its
    /// merged variables and its resolved command, and the recipe lists every
    /// dependency once, in increasing order.
    pub fn from_recipe_file(raw: RecipeFile) -> (r: Result<Recipe, ParseError>)
        ensures
            ({
                let ts = raw.tasks@;
                let rv = raw.vars@;
                let bi = first_invalid_from(ts, 0);
                let fi = first_fault_from(rv, ts, 0);
                match r {
                    Err(ParseError::NoTasks) => ts.len() == 0,
                    Err(ParseError::InvalidTaskName(n)) => ts.len() > 0 && bi >= 0
                        && trim_seq(ts[bi].name@).len() == 0 && n@ == ts[bi].name@,
                    Err(ParseError::UnknownDependency { dep, task }) => ts.len() > 0 && bi >= 0
                        && trim_seq(ts[bi].name@).len() > 0
                        && dep@ == ts[bi].depends_on@[first_unknown_dep_from(ts, bi, 0)]@
                        && task@ == ts[bi].name@,
                    Err(e) => {
                        &&& ts.len() > 0 && bi == -1 && fi >= 0
                        &&& template_fault(ts[fi].command@, 0, merged_vars(rv, ts[fi])) matches Some(f)
                        &&& fault_error(e, f, ts[fi].name@)
                    },
                    Ok(rec) => {
                        &&& ts.len() > 0 && bi == -1 && fi == -1
                        &&& rec.name == raw.name
                        &&& rec.description == raw.description
                        &&& rec.author == raw.author
                        &&& rec.vars@ == rv
                        &&& rec.tasks@.len() == ts.len()
                        &&& forall|k: int| 0 <= k < ts.len() ==> resolved(#[trigger] rec.tasks@[k], ts[k], rv)
                        &&& strictly_sorted(views(rec.dependencies@))
                        &&& views(rec.dependencies@).to_set() == all_deps(ts)
                    },
                }
            }),
    {
        let ghost ts = raw.tasks@;
        let ghost rv = raw.vars@;
        if raw.tasks.len() == 0 {
            return Err(ParseError::NoTasks);
        }
        let n = raw.tasks.len();
        // The task names, for dependency validation.
        let mut names: Vec<String> = Vec::new();
        let mut q: usize = 0;
        while q < n
            invariant
                n == raw.tasks@.len(),
                ts == raw.tasks@,
                q <= n,
                views(names@) == def_names(ts).take(q as int),
            decreases n - q,
        {
            let ghost before = names@;
            names.push(raw.tasks[q].name.clone());
            proof {
                assert(views(names@) =~= views(before).push(ts[q as int].name@));
                assert(def_names(ts).take(q + 1) =~= def_names(ts).take(q as int).push(def_names(ts)[q as int]));
            }
            q = q + 1;
        }
        proof {
            assert(def_names(ts).take(n as int) =~= def_names(ts));
        }
        // Validate each task.
        let mut i: usize = 0;
        while i < n
            invariant
                n == raw.tasks@.len(),
                ts == raw.tasks@,
                i <= n,
                views(names@) == def_names(ts),
                first_invalid_from(ts, 0) == first_invalid_from(ts, i as int),
            decreases n - i,
        {
            let task = &raw.tasks[i];
            if is_blank(&task.name) {
                return Err(ParseError::InvalidTaskName(task.name.clone()));
            }
            let mut k: usize = 0;
            while k < task.depends_on.len()
                invariant
                    views(names@) == def_names(ts),
                    ts == raw.tasks@,
                    0 <= i < ts.len(),
                    *task == ts[i as int],
                    trim_seq(ts[i as int].name@).len() > 0,
                    first_invalid_from(ts, 0) == first_invalid_from(ts, i as int),
                    k <= task.depends_on@.len(),
                    first_unknown_dep_from(ts, i as int, 0) == first_unknown_dep_from(ts, i as int, k as int),
                decreases task.depends_on.len() - k,
            {
                if !contains_string(names.as_slice(), &task.depends_on[k]) {
                    return Err(ParseError::UnknownDependency {
                        dep: task.depends_on[k].clone(),
                        task: task.name.clone(),
                    });
                }
                k = k + 1;
            }
            i = i + 1;
        }
        // Resolve each task.
        let mut tasks: Vec<RecipeTask> = Vec::new();
        let mut i: usize = 0;
        while i < n
            invariant
                n == raw.tasks@.len(),
                ts == raw.tasks@,
                rv == raw.vars@,
                i <= n,
                first_invalid_from(ts, 0) == -1,
                first_fault_from(rv, ts, 0) == first_fault_from(rv, ts, i as int),
                tasks@.len() == i,
                forall|k: int| 0 <= k < i ==> resolved(#[trigger] tasks@[k], ts[k], rv),
            decreases n - i,
        {
            let def = &raw.tasks[i];
            let mut merged = raw.vars.duplicate();
            let ov = def.vars.entries();
            let mut e: usize = 0;
            proof {
                assert(def.vars.entry_list().take(0) =~= Seq::<(Seq<char>, Seq<char>)>::empty());
            }
            while e < ov.len()
                invariant
                    entry_views(ov@) == def.vars.entry_list(),
                    e <= ov@.len(),
                    merged@ == with_overrides(rv, def.vars.entry_list().take(e as int)),
                decreases ov.len() - e,
            {
                merged.insert(ov[e].0.as_str(), ov[e].1.as_str());
                proof {
                    let l = def.vars.entry_list();
                    assert(l.take(e + 1).drop_last() =~= l.take(e as int));
                    assert(l.take(e + 1).last() == l[e as int]);
                    assert(l[e as int] == (ov@[e as int].0@, ov@[e as int].1@));
                }
                e = e + 1;
            }
            proof {
                assert(def.vars.entry_list().take(def.vars.entry_list().len() as int) =~= def.vars.entry_list());
            }
            let command = match TaskenfileParser::interpolate(def.command.as_str(), &merged, def.name.as_str()) {
                Ok(c) => c,
                Err(err) => {
                    return Err(err);
                },
            };
            let timeout = match def.timeout {
                Some(s) => Some(duration_from_secs(s)),
                None => None,
            };
            let rt = RecipeTask {
                name: def.name.clone(),
                description: clone_opt(&def.description),
                command,
                depends_on: clone_strings(&def.depends_on),
                vars: merged,
                timeout,
                condition: None,
            };
            tasks.push(rt);
            i = i + 1;
        }
        // Collect every dependency once, then sort.
        let mut deps: Vec<String> = Vec::new();
        let mut i: usize = 0;
        while i < n
            invariant
                n == raw.tasks@.len(),
                ts == raw.tasks@,
                i <= n,
                views(deps@).no_duplicates(),
                forall|d: Seq<char>| views(deps@).contains(d) <==> exists|i2: int, k: int| 0 <= i2 < i
                    && 0 <= k < ts[i2].depends_on@.len() && d == #[trigger] ts[i2].depends_on@[k]@,
            decreases n - i,
        {
            let task = &raw.tasks[i];
            let mut k: usize = 0;
            while k < task.depends_on.len()
                invariant
                    0 <= i < ts.len(),
                    *task == ts[i as int],
                    k <= task.depends_on@.len(),
                    views(deps@).no_duplicates(),
                    forall|d: Seq<char>| views(deps@).contains(d) <==> (exists|i2: int, k2: int| 0 <= i2 < i
                        && 0 <= k2 < ts[i2].depends_on@.len() && d == #[trigger] ts[i2].depends_on@[k2]@)
                        || (exists|k2: int| 0 <= k2 < k && d == #[trigger] ts[i as int].depends_on@[k2]@),
                decreases task.depends_on.len() - k,
            {
                let ghost before = views(deps@);
                if !contains_string(deps.as_slice(), &task.depends_on[k]) {
                    deps.push(task.depends_on[k].clone());
                    proof {
                        assert(views(deps@) =~= before.push(ts[i as int].depends_on@[k as int]@));
                    }
                }
                proof {
                    let dk = ts[i as int].depends_on@[k as int]@;
                    assert forall|d: Seq<char>| views(deps@).contains(d) <==> (exists|i2: int, k2: int| 0 <= i2 < i
                        && 0 <= k2 < ts[i2].depends_on@.len() && d == #[trigger] ts[i2].depends_on@[k2]@)
                        || (exists|k2: int| 0 <= k2 < k + 1 && d == #[trigger] ts[i as int].depends_on@[k2]@) by {
                        if views(deps@).contains(d) && !before.contains(d) {
                            assert(d == dk);
                        }
                        if before.contains(d) {
                            let p = choose|p: int| 0 <= p < before.len() && before[p] == d;
                            assert(views(deps@)[p] == d);
                        }
                        if d == dk {
                            if before.contains(d) {
                            } else {
                                assert(views(deps@)[views(deps@).len() - 1] == d);
                            }
                        }
                    }
                }
                k = k + 1;
            }
            proof {
                assert forall|d: Seq<char>| views(deps@).contains(d) <==> exists|i2: int, k2: int| 0 <= i2 < i + 1
                    && 0 <= k2 < ts[i2].depends_on@.len() && d == #[trigger] ts[i2].depends_on@[k2]@ by {
                    if exists|i2: int, k2: int| 0 <= i2 < i + 1 && 0 <= k2 < ts[i2].depends_on@.len() && d == #[trigger] ts[i2].depends_on@[k2]@ {
                        let (i2, k2) = choose|i2: int, k2: int| 0 <= i2 < i + 1 && 0 <= k2 < ts[i2].depends_on@.len() && d == #[trigger] ts[i2].depends_on@[k2]@;
                        if i2 == i {
                            assert(exists|k3: int| 0 <= k3 < task.depends_on@.len() && d == #[trigger] ts[i as int].depends_on@[k3]@);
                        }
                    }
                }
            }
            i = i + 1;
        }
        let dependencies = sort_distinct_strings(deps);
        proof {
            assert(views(dependencies@).to_set() =~= all_deps(ts));
        }
        Ok(Recipe {
            name: raw.name,
            description: raw.description,
            author: raw.author,
            tasks,
            dependencies,
            vars: raw.vars,
        })
    }
}

/// The two recipe file formats.
#[derive(Debug, Clone, Copy, PartialEq, Eq)]
pub enum RecipeFormat {
    Toml,
    Yaml,
}

impl TaskenfileParser {
    /// The format of a recipe file with extension `ext`: `toml` is TOML,
    /// `yaml` and `yml` are YAML. A path without an extension is rejected
    /// with its displayed form, any other extension with the extension.
    pub fn format_for_extension(ext: Option<&str>, path_display: &str) -> (r: Result<RecipeFormat, ParseError>)
        ensures
            match ext {
                None => r matches Err(ParseError::UnsupportedExtension(x)) && x@ == path_display@,
                Some(e) => if e@ == "toml"@ {
                    r == Ok::<RecipeFormat, ParseError>(RecipeFormat::Toml)
                } else if e@ == "yaml"@ || e@ == "yml"@ {
                    r == Ok::<RecipeFormat, ParseError>(RecipeFormat::Yaml)
                } else {
                    r matches Err(ParseError::UnsupportedExtension(x)) && x@ == e@
                },
            },
    {
        match ext {
            None => Err(ParseError::UnsupportedExtension(String::from_str(path_display))),
            Some(e) => {
                let es = String::from_str(e);
                if es == String::from_str("toml") {
                    Ok(RecipeFormat::Toml)
                } else if es == String::from_str("yaml") || es == String::from_str("yml") {
                    Ok(RecipeFormat::Yaml)
                } else {
                    Err(ParseError::UnsupportedExtension(es))
                }
            },
        }
    }
}

} // verus!
