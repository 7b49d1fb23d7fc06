//! Plugins for running commands: the context they receive, the result they
//! report, and the registry that picks the first plugin willing to run a
//! command.

use vstd::prelude::*;

use crate::cron_parser::words_from;
use crate::external::{
    duration_from_secs, duration_nanos, json_fields, json_i64, json_i64_value, json_map_insert, json_map_new,
    json_object, json_object_value, json_text, json_text_value, json_u64, json_u64_value, nanos_of,
    secs_duration,
};
use crate::text::{chars_of, push_str, views};

verus! {

/// The context passed to a plugin when it runs a command.
#[derive(Debug, Clone)]
pub struct PluginContext<'a> {
    /// Working directory for the command.
    pub working_dir: &'a str,
    /// The raw command string.
    pub command: &'a str,
    /// The command split at white space.
    pub args: Vec<String>,
    /// Environment variable overrides, in the order they were added.
    pub env_vars: Vec<(String, String)>,
    /// When set the plugin must not perform side effects.
    pub dry_run: bool,
}

/// Splits `input` at white space, dropping empty pieces (as
/// `str::split_whitespace` does); quotes and escapes are not interpreted.
pub fn shell_words_split(input: &str) -> (r: Vec<String>)
    ensures
        views(r@) == words_from(input@, 0),
{
    let cs = chars_of(input);
    let ranges = crate::cron_parser::word_ranges(&cs);
    let mut out: Vec<String> = Vec::new();
    let mut i: usize = 0;
    while i < ranges.len()
        invariant
            cs@ == input@,
            ranges@.len() == words_from(cs@, 0).len(),
            forall|p: int| #![trigger ranges@[p]] 0 <= p < ranges@.len() ==> ranges@[p].0 <= ranges@[p].1 <= cs@.len()
                && cs@.subrange(ranges@[p].0 as int, ranges@[p].1 as int) == words_from(cs@, 0)[p],
            i <= ranges@.len(),
            views(out@) == words_from(cs@, 0).take(i as int),
        decreases ranges.len() - i,
    {
        let (a, b) = ranges[i];
        let w = crate::domain::recipes::string_from_range(&cs, a, b);
        let ghost before = out@;
        out.push(w);
        proof {
            assert(views(out@) =~= views(before).push(w@));
            assert(words_from(cs@, 0).take(i + 1) =~= words_from(cs@, 0).take(i as int).push(words_from(cs@, 0)[i as int]));
        }
        i = i + 1;
    }
    proof {
        assert(words_from(cs@, 0).take(ranges@.len() as int) =~= words_from(cs@, 0));
    }
    out
}

impl<'a> PluginContext<'a> {
    /// A context for `command` in the current directory (`.`), with the
    /// command's words as arguments, no environment overrides and dry-run
    /// off.
    pub fn new(command: &'a str) -> (r: Self)
        ensures
            r.working_dir@ == "."@,
            r.command@ == command@,
            views(r.args@) == words_from(command@, 0),
            r.env_vars@.len() == 0,
            !r.dry_run,
    {
        PluginContext {
            working_dir: ".",
            command,
            args: shell_words_split(command),
            env_vars: Vec::new(),
            dry_run: false,
        }
    }

    /// Sets the working directory.
    pub fn with_working_dir(self, dir: &'a str) -> (r: Self)
        ensures
            r.working_dir@ == dir@,
            r.command == self.command,
            r.args == self.args,
            r.env_vars == self.env_vars,
            r.dry_run == self.dry_run,
    {
        let mut s = self;
        s.working_dir = dir;
        s
    }

    /// Turns dry-run mode on.
    pub fn with_dry_run(self) -> (r: Self)
        ensures
            r.dry_run,
            r.working_dir == self.working_dir,
            r.command == self.command,
            r.args == self.args,
            r.env_vars == self.env_vars,
    {
        let mut s = self;
        s.dry_run = true;
        s
    }

    /// Adds an environment variable override after the existing ones.
    pub fn with_env(self, key: &str, val: &str) -> (r: Self)
        ensures
            r.env_vars@.len() == self.env_vars@.len() + 1,
            forall|i: int| 0 <= i < self.env_vars@.len() ==> #[trigger] r.env_vars@[i] == self.env_vars@[i],
            r.env_vars@.last().0@ == key@,
            r.env_vars@.last().1@ == val@,
            r.working_dir == self.working_dir,
            r.command == self.command,
            r.args == self.args,
            r.dry_run == self.dry_run,
    {
        let mut s = self;
        s.env_vars.push((String::from_str(key), String::from_str(val)));
        s
    }
}

/// The JSON object `{"status": status, "code": code, "stdout": stdout,
/// "stderr": stderr, "duration_ms": duration_ms}`.
pub open spec fn result_object(
    status: Seq<char>,
    code: i32,
    stdout: Seq<char>,
    stderr: Seq<char>,
    duration_ms: u64,
) -> serde_json::Value {
    json_object(
        map![
            "status"@ => json_text(status),
            "code"@ => json_i64(code as i64),
            "stdout"@ => json_text(stdout),
            "stderr"@ => json_text(stderr),
            "duration_ms"@ => json_u64(duration_ms),
        ],
    )
}

/// Builds the result object with the five keys above.
fn result_json(status: &str, code: i32, stdout: &str, stderr: &str, duration_ms: u64) -> (r: serde_json::Value)
    ensures
        r == result_object(status@, code, stdout@, stderr@, duration_ms),
{
    let mut m = json_map_new();
    let v = json_text_value(status);
    json_map_insert(&mut m, "status", v);
    let v = json_i64_value(code as i64);
    json_map_insert(&mut m, "code", v);
    let v = json_text_value(stdout);
    json_map_insert(&mut m, "stdout", v);
    let v = json_text_value(stderr);
    json_map_insert(&mut m, "stderr", v);
    let v = json_u64_value(duration_ms);
    json_map_insert(&mut m, "duration_ms", v);
    proof {
        assert(json_fields(m) =~= map![
            "status"@ => json_text(status@),
            "code"@ => json_i64(code as i64),
            "stdout"@ => json_text(stdout@),
            "stderr"@ => json_text(stderr@),
            "duration_ms"@ => json_u64(duration_ms),
        ]);
    }
    json_object_value(m)
}

/// The outcome of running a command through a plugin.
#[derive(Debug, Clone)]
pub struct PluginResult {
    /// Whether the run succeeded (exit code 0).
    pub success: bool,
    /// Captured standard output.
    pub stdout: String,
    /// Captured standard error.
    pub stderr: String,
    /// Process exit code.
    pub exit_code: i32,
    /// Wall-clock duration.
    pub duration: std::time::Duration,
}

impl PluginResult {
    /// A successful empty result taking no time.
    pub fn ok() -> (r: Self)
        ensures
            r.success,
            r.stdout@.len() == 0,
            r.stderr@.len() == 0,
            r.exit_code == 0,
            r.duration == secs_duration(0),
            nanos_of(r.duration) == 0,
    {
        PluginResult {
            success: true,
            stdout: String::new(),
            stderr: String::new(),
            exit_code: 0,
            duration: duration_from_secs(0),
        }
    }

    /// A failed result with `msg` as its standard error and exit code 1.
    pub fn error(msg: &str) -> (r: Self)
        ensures
            !r.success,
            r.stdout@.len() == 0,
            r.stderr@ == msg@,
            r.exit_code == 1,
            r.duration == secs_duration(0),
            nanos_of(r.duration) == 0,
    {
        PluginResult {
            success: false,
            stdout: String::new(),
            stderr: String::from_str(msg),
            exit_code: 1,
            duration: duration_from_secs(0),
        }
    }

    /// The result as JSON: `status` (`"ok"` or `"error"`), `code` (the exit
    /// code), `stdout`, `stderr` and `duration_ms` (whole milliseconds).
    pub fn to_json(&self) -> (r: serde_json::Value)
        requires
            nanos_of(self.duration) / 1_000_000 <= u64::MAX,
        ensures
            r == result_object(
                if self.success { "ok"@ } else { "error"@ },
                self.exit_code,
                self.stdout@,
                self.stderr@,
                (nanos_of(self.duration) / 1_000_000) as u64,
            ),
    {
        let millis = duration_nanos(&self.duration) / 1_000_000;
        let status = if self.success { "ok" } else { "error" };
        result_json(status, self.exit_code, self.stdout.as_str(), self.stderr.as_str(), millis as u64)
    }
}

/// A plugin that can run commands.
pub trait RunnerPlugin {
    /// The plugin's name (e.g. `shell`, `noop`).
    fn name(&self) -> &str;

    /// Whether this plugin runs `command`.
    fn can_handle(&self, command: &str) -> bool;

    /// Runs the command of `ctx`.
    fn execute(&self, ctx: PluginContext<'_>) -> PluginResult;
}

/// The first position whose answer is yes, if any.
pub open spec fn first_true(answers: Seq<bool>) -> Option<int>
    decreases answers.len(),
{
    if answers.len() == 0 {
        None
    } else {
        match first_true(answers.drop_last()) {
            Some(k) => Some(k),
            None => if answers.last() {
                Some(answers.len() - 1)
            } else {
                None
            },
        }
    }
}

proof fn lemma_first_true_push(s: Seq<bool>, b: bool)
    ensures
        first_true(s.push(b)) == (match first_true(s) {
            Some(k) => Some(k),
            None => if b {
                Some(s.len() as int)
            } else {
                None
            },
        }),
        first_true(s) matches Some(k) ==> 0 <= k < s.len(),
    decreases s.len(),
{
    assert(s.push(b).drop_last() =~= s);
    if s.len() > 0 {
        lemma_first_true_push(s.drop_last(), s.last());
        assert(s.drop_last().push(s.last()) =~= s);
    }
}

/// The position of the first answer that is yes, when the plugins were
/// asked in registration order; `None` when every answer is no.
pub fn first_accepting(answers: &Vec<bool>) -> (r: Option<usize>)
    ensures
        r matches Some(i) ==> first_true(answers@) == Some(i as int) && i < answers@.len(),
        r is None ==> first_true(answers@) is None,
{
    let mut i: usize = 0;
    while i < answers.len()
        invariant
            i <= answers@.len(),
            first_true(answers@.take(i as int)) is None,
        decreases answers.len() - i,
    {
        proof {
            assert(answers@.take(i as int).push(answers@[i as int]) =~= answers@.take(i + 1));
            lemma_first_true_push(answers@.take(i as int), answers@[i as int]);
        }
        if answers[i] {
            proof {
                lemma_first_true_prefix(answers@, i + 1);
            }
            return Some(i);
        }
        i = i + 1;
    }
    proof {
        assert(answers@.take(answers@.len() as int) =~= answers@);
    }
    None
}

/// Once a prefix has a yes, the whole sequence has it at the same place.
proof fn lemma_first_true_prefix(s: Seq<bool>, n: int)
    requires
        0 <= n <= s.len(),
        first_true(s.take(n)) is Some,
    ensures
        first_true(s) == first_true(s.take(n)),
    decreases s.len() - n,
{
    if n < s.len() {
        assert(s.take(n + 1) =~= s.take(n).push(s[n]));
        lemma_first_true_push(s.take(n), s[n]);
        lemma_first_true_prefix(s, n + 1);
    } else {
        assert(s.take(n) =~= s);
    }
}

/// The registered plugins, in registration order.
pub struct PluginRegistry {
    plugins: Vec<Box<dyn RunnerPlugin>>,
}

impl PluginRegistry {
    /// The number of registered plugins.
    pub closed spec fn count(self) -> nat {
        self.plugins@.len()
    }

    /// An empty registry.
    pub fn new() -> (r: Self)
        ensures
            r.count() == 0,
    {
        PluginRegistry { plugins: Vec::new() }
    }

    /// The registered plugins, in registration order.
    pub closed spec fn plugin_list(self) -> Seq<Box<dyn RunnerPlugin>> {
        self.plugins@
    }

    /// Registers a plugin after the existing ones.
    pub fn register(&mut self, plugin: Box<dyn RunnerPlugin>)
        ensures
            final(self).plugin_list() == old(self).plugin_list().push(plugin),
            final(self).count() == old(self).count() + 1,
    {
        self.plugins.push(plugin);
        proof {
            vstd::seq::axiom_seq_push_len(old(self).plugins@, plugin);
        }
    }

    /// The first registered plugin that can handle `command`, asking each
    /// in registration order and stopping at the first that accepts; `None`
    /// when none will. The answers collected, one per plugin asked in
    /// order, decide the result as `first_accepting` does: the plugin at the
    /// first position that answered yes.
    pub fn find(&self, command: &str) -> (r: Option<&dyn RunnerPlugin>)
        ensures
            self.count() == 0 ==> r is None,
            exists|answers: Seq<bool>|
                #![trigger first_true(answers)]
                answers.len() <= self.count()
                && match first_true(answers) {
                    Some(k) => k == answers.len() - 1 && (r matches Some(q) && q == &*self.plugin_list()[k]),
                    None => answers.len() == self.count() && r is None,
                },
    {
        let mut answers: Vec<bool> = Vec::new();
        let mut i: usize = 0;
        while i < self.plugins.len()
            invariant_except_break
                answers@.len() == i,
                first_true(answers@) is None,
            invariant
                i <= self.plugins@.len(),
            ensures
                i <= self.plugins@.len(),
                answers@.len() <= self.plugins@.len(),
                match first_true(answers@) {
                    Some(k) => k == answers@.len() - 1,
                    None => answers@.len() == self.plugins@.len(),
                },
            decreases self.plugins.len() - i,
        {
            let accepts = self.plugins[i].can_handle(command);
            let ghost before = answers@;
            answers.push(accepts);
            proof {
                lemma_first_true_push(before, accepts);
            }
            if accepts {
                break;
            }
            i = i + 1;
        }
        let r = match first_accepting(&answers) {
            Some(k) => {
                let b: &Box<dyn RunnerPlugin> = &self.plugins[k];
                let p = &**b;
                Some(p)
            },
            None => None,
        };
        assert(answers@.len() <= self.count() && match first_true(answers@) {
            Some(k) => k == answers@.len() - 1 && (r matches Some(q) && q == &*self.plugin_list()[k]),
            None => answers@.len() == self.count() && r is None,
        });
        r
    }

    /// The names of the registered plugins, in registration order.
    pub fn names(&self) -> (r: Vec<&str>)
        ensures
            r@.len() == self.count(),
    {
        let mut out: Vec<&str> = Vec::new();
        let mut i: usize = 0;
        while i < self.plugins.len()
            invariant
                i <= self.plugins@.len(),
                out@.len() == i,
            decreases self.plugins.len() - i,
        {
            out.push(self.plugins[i].name());
            i = i + 1;
        }
        out
    }

    /// Number of registered plugins.
    pub fn len(&self) -> (r: usize)
        ensures
            r == self.count(),
    {
        self.plugins.len()
    }

    /// Whether no plugin is registered.
    pub fn is_empty(&self) -> (r: bool)
        ensures
            r == (self.count() == 0),
    {
        self.plugins.len() == 0
    }
}

/// A plugin that runs nothing: it succeeds at once with the report
/// `[dry-run] would execute: <command>` as its standard error, for the
/// caller to show (for dry runs). It claims every command, so registered
/// first it intercepts everything.
pub struct NoopPlugin;

impl RunnerPlugin for NoopPlugin {
    fn name(&self) -> (r: &str)
        ensures
            r@ == "noop"@,
    {
        "noop"
    }

    fn can_handle(&self, command: &str) -> (r: bool)
        ensures
            r,
    {
        true
    }

    fn execute(&self, ctx: PluginContext<'_>) -> (r: PluginResult)
        ensures
            r.success,
            r.stdout@.len() == 0,
            r.stderr@ == "[dry-run] would execute: "@ + ctx.command@,
            r.exit_code == 0,
            r.duration == secs_duration(0),
            nanos_of(r.duration) == 0,
    {
        let mut stderr = String::from_str("[dry-run] would execute: ");
        push_str(&mut stderr, ctx.command);
        PluginResult {
            success: true,
            stdout: String::new(),
            stderr,
            exit_code: 0,
            duration: duration_from_secs(0),
        }
    }
}

} // verus!
