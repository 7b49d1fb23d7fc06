//! Dependency graphs of recipe tasks rendered as DOT (Graphviz) or
//! Mermaid flowcharts.

use vstd::prelude::*;

use crate::domain::recipe::RecipeTask;
use crate::external::{lowercase, to_lowercase};
use crate::text::{chars_of, push_char, push_str, views};

verus! {

/// The output formats.
#[derive(Debug, Clone, Copy, PartialEq, Eq)]
pub enum GraphFormat {
    /// DOT (Graphviz).
    Dot,
    /// Mermaid flowchart.
    Mermaid,
}

impl GraphFormat {
    /// Reads a format name, ignoring case: `dot` or `mermaid`.
    pub fn parse_str(s: &str) -> (r: Result<GraphFormat, String>)
        ensures
            ({
                let l = lowercase(s@);
                if l == "dot"@ {
                    r == Ok::<GraphFormat, String>(GraphFormat::Dot)
                } else if l == "mermaid"@ {
                    r == Ok::<GraphFormat, String>(GraphFormat::Mermaid)
                } else {
                    r matches Err(m) && m@ == "Unknown format `"@ + l + "`. Supported formats: dot, mermaid"@
                }
            }),
    {
        let l = to_lowercase(s);
        if l == String::from_str("dot") {
            Ok(GraphFormat::Dot)
        } else if l == String::from_str("mermaid") {
            Ok(GraphFormat::Mermaid)
        } else {
            let mut m = String::from_str("Unknown format `");
            push_str(&mut m, l.as_str());
            push_str(&mut m, "`. Supported formats: dot, mermaid");
            Err(m)
        }
    }
}

impl std::str::FromStr for GraphFormat {
    type Err = String;

    fn from_str(s: &str) -> (r: Result<GraphFormat, String>)
        ensures
            ({
                let l = lowercase(s@);
                if l == "dot"@ {
                    r == Ok::<GraphFormat, String>(GraphFormat::Dot)
                } else if l == "mermaid"@ {
                    r == Ok::<GraphFormat, String>(GraphFormat::Mermaid)
                } else {
                    r matches Err(m) && m@ == "Unknown format `"@ + l + "`. Supported formats: dot, mermaid"@
                }
            }),
    {
        GraphFormat::parse_str(s)
    }
}

// ---------------------------------------------------------------------------
// DOT
// ---------------------------------------------------------------------------

/// The task graph: per task, its name and its dependencies.
pub open spec fn task_graph(tasks: Seq<RecipeTask>) -> Seq<(Seq<char>, Seq<Seq<char>>)> {
    tasks.map_values(|t: RecipeTask| (t.name@, views(t.depends_on@)))
}

/// `s` with `\` written `\\` and `"` written `\"`.
pub open spec fn dot_escape(s: Seq<char>) -> Seq<char>
    decreases s.len(),
{
    if s.len() == 0 {
        seq![]
    } else if s.last() == '\\' {
        dot_escape(s.drop_last()) + seq!['\\', '\\']
    } else if s.last() == '"' {
        dot_escape(s.drop_last()) + seq!['\\', '"']
    } else {
        dot_escape(s.drop_last()).push(s.last())
    }
}

/// A DOT identifier: the escaped text in double quotes.
pub open spec fn dot_label(s: Seq<char>) -> Seq<char> {
    seq!['"'] + dot_escape(s) + seq!['"']
}

/// The node lines of the DOT graph, one per task.
pub open spec fn dot_nodes(g: Seq<(Seq<char>, Seq<Seq<char>>)>) -> Seq<char>
    decreases g.len(),
{
    if g.len() == 0 {
        seq![]
    } else {
        dot_nodes(g.drop_last()) + "    "@ + dot_label(g.last().0) + ";\n"@
    }
}

/// The edge lines from the dependencies `deps` to `name`.
pub open spec fn dot_edges_to(name: Seq<char>, deps: Seq<Seq<char>>) -> Seq<char>
    decreases deps.len(),
{
    if deps.len() == 0 {
        seq![]
    } else {
        dot_edges_to(name, deps.drop_last()) + "    "@ + dot_label(deps.last()) + " -> "@ + dot_label(name) + ";\n"@
    }
}

/// The edge lines of the DOT graph, task by task.
pub open spec fn dot_edges(g: Seq<(Seq<char>, Seq<Seq<char>>)>) -> Seq<char>
    decreases g.len(),
{
    if g.len() == 0 {
        seq![]
    } else {
        dot_edges(g.drop_last()) + dot_edges_to(g.last().0, g.last().1)
    }
}

/// The DOT rendering of a task graph.
pub open spec fn dot_text(g: Seq<(Seq<char>, Seq<Seq<char>>)>) -> Seq<char> {
    "digraph G {\n    rankdir=LR;\n    node [shape=box, style=rounded];\n\n"@ + dot_nodes(g)
        + (if g.len() > 0 { "\n"@ + dot_edges(g) } else { seq![] }) + "}\n"@
}

/// Appends the DOT identifier for `s`.
fn push_dot_label(out: &mut String, s: &str)
    ensures
        final(out)@ == old(out)@ + dot_label(s@),
{
    let cs = chars_of(s);
    let ghost start = old(out)@;
    push_char(out, '"');
    let mut i: usize = 0;
    while i < cs.len()
        invariant
            i <= cs@.len(),
            out@ == start + seq!['"'] + dot_escape(cs@.take(i as int)),
        decreases cs.len() - i,
    {
        let c = cs[i];
        if c == '\\' {
            push_char(out, '\\');
            push_char(out, '\\');
        } else if c == '"' {
            push_char(out, '\\');
            push_char(out, '"');
        } else {
            push_char(out, c);
        }
        proof {
            let t = cs@.take(i + 1);
            assert(t.drop_last() =~= cs@.take(i as int));
            assert(t.last() == c);
            assert(out@ =~= start + seq!['"'] + dot_escape(t));
        }
        i = i + 1;
    }
    push_char(out, '"');
    proof {
        assert(cs@.take(cs@.len() as int) =~= cs@);
        assert(out@ =~= start + dot_label(s@));
    }
}

/// The DOT (Graphviz) graph of the tasks: a node per task, then an edge
/// from each dependency to the task that depends on it.
pub fn generate_dot(tasks: &[RecipeTask]) -> (r: String)
    ensures
        r@ == dot_text(task_graph(tasks@)),
{
    let ghost g = task_graph(tasks@);
    let mut out = String::from_str("digraph G {\n");
    push_str(&mut out, "    rankdir=LR;\n");
    push_str(&mut out, "    node [shape=box, style=rounded];\n\n");
    let ghost header = out@;
    let mut i: usize = 0;
    proof {
        reveal_strlit("digraph G {\n");
        reveal_strlit("    rankdir=LR;\n");
        reveal_strlit("    node [shape=box, style=rounded];\n\n");
        reveal_strlit("digraph G {\n    rankdir=LR;\n    node [shape=box, style=rounded];\n\n");
        assert(header =~= "digraph G {\n    rankdir=LR;\n    node [shape=box, style=rounded];\n\n"@);
        assert(g.take(0) =~= Seq::<(Seq<char>, Seq<Seq<char>>)>::empty());
    }
    while i < tasks.len()
        invariant
            g == task_graph(tasks@),
            i <= tasks@.len(),
            out@ == header + dot_nodes(g.take(i as int)),
        decreases tasks.len() - i,
    {
        push_str(&mut out, "    ");
        push_dot_label(&mut out, tasks[i].name.as_str());
        push_str(&mut out, ";\n");
        proof {
            let t = g.take(i + 1);
            assert(t.drop_last() =~= g.take(i as int));
            assert(t.last().0 == tasks@[i as int].name@);
            assert(out@ =~= header + dot_nodes(t));
        }
        i = i + 1;
    }
    proof {
        assert(g.take(tasks@.len() as int) =~= g);
    }
    let ghost nodes = out@;
    if tasks.len() > 0 {
        push_str(&mut out, "\n");
        let ghost mid = out@;
        let mut i: usize = 0;
        proof {
            assert(g.take(0) =~= Seq::<(Seq<char>, Seq<Seq<char>>)>::empty());
        }
        while i < tasks.len()
            invariant
                g == task_graph(tasks@),
                i <= tasks@.len(),
                out@ == mid + dot_edges(g.take(i as int)),
            decreases tasks.len() - i,
        {
            let task = &tasks[i];
            let ghost before = out@;
            let mut k: usize = 0;
            proof {
                assert(views(task.depends_on@).take(0) =~= Seq::<Seq<char>>::empty());
            }
            while k < task.depends_on.len()
                invariant
                    k <= task.depends_on@.len(),
                    out@ == before + dot_edges_to(task.name@, views(task.depends_on@).take(k as int)),
                decreases task.depends_on.len() - k,
            {
                push_str(&mut out, "    ");
                push_dot_label(&mut out, task.depends_on[k].as_str());
                push_str(&mut out, " -> ");
                push_dot_label(&mut out, task.name.as_str());
                push_str(&mut out, ";\n");
                proof {
                    let d = views(task.depends_on@);
                    let t = d.take(k + 1);
                    assert(t.drop_last() =~= d.take(k as int));
                    assert(t.last() == task.depends_on@[k as int]@);
                    assert(out@ =~= before + dot_edges_to(task.name@, t));
                }
                k = k + 1;
            }
            proof {
                assert(views(task.depends_on@).take(task.depends_on@.len() as int) =~= views(task.depends_on@));
                let t = g.take(i + 1);
                assert(t.drop_last() =~= g.take(i as int));
                assert(t.last() == (task.name@, views(task.depends_on@)));
                assert(out@ =~= mid + dot_edges(t));
            }
            i = i + 1;
        }
        proof {
            assert(g.take(tasks@.len() as int) =~= g);
        }
    }
    push_str(&mut out, "}\n");
    proof {
        assert(out@ =~= dot_text(g));
    }
    out
}

// ---------------------------------------------------------------------------
// Mermaid
// ---------------------------------------------------------------------------

/// Whether a character is alphanumeric, as `char::is_alphanumeric` says.
pub uninterp spec fn alphanumeric(c: char) -> bool;

/// Whether `c` is alphanumeric.
///
/// Calls `char::is_alphanumeric` (Unicode `Alphabetic` or `Numeric`),
/// named `alphanumeric`. Among ASCII characters exactly the letters and
/// digits are alphanumeric.
#[verifier::external_body]
fn is_alphanumeric(c: char) -> (r: bool)
    ensures
        r == alphanumeric(c),
        (c as u32) < 128 ==> (r <==> (('a' <= c && c <= 'z') || ('A' <= c && c <= 'Z') || ('0' <= c && c <= '9'))),
{
    c.is_alphanumeric()
}

/// `s` with every character other than alphanumerics, `_` and `-`
/// replaced by `_`.
pub open spec fn sanitize(s: Seq<char>) -> Seq<char> {
    s.map_values(|c: char| if alphanumeric(c) || c == '_' || c == '-' { c } else { '_' })
}

/// A Mermaid node id: the sanitized text, or `node` when empty.
pub open spec fn mermaid_id(s: Seq<char>) -> Seq<char> {
    if s.len() == 0 { "node"@ } else { sanitize(s) }
}

/// A Mermaid node label: in single quotes when the text holds `"` or a
/// newline, in double quotes otherwise.
pub open spec fn mermaid_label(s: Seq<char>) -> Seq<char> {
    if s.contains('"') || s.contains('\n') {
        seq!['\''] + s + seq!['\'']
    } else {
        seq!['"'] + s + seq!['"']
    }
}

/// The lines for one task: a node declaration when it has no
/// dependencies, otherwise an edge from each dependency.
pub open spec fn mermaid_task(name: Seq<char>, deps: Seq<Seq<char>>) -> Seq<char> {
    if deps.len() == 0 {
        "    "@ + mermaid_id(name) + "["@ + mermaid_label(name) + "]\n"@
    } else {
        mermaid_edges_to(name, deps)
    }
}

/// The edge lines from the dependencies `deps` to `name`.
pub open spec fn mermaid_edges_to(name: Seq<char>, deps: Seq<Seq<char>>) -> Seq<char>
    decreases deps.len(),
{
    if deps.len() == 0 {
        seq![]
    } else {
        mermaid_edges_to(name, deps.drop_last()) + "    "@ + mermaid_id(deps.last()) + " --> "@ + mermaid_id(name) + "\n"@
    }
}

/// The lines of all tasks.
pub open spec fn mermaid_lines(g: Seq<(Seq<char>, Seq<Seq<char>>)>) -> Seq<char>
    decreases g.len(),
{
    if g.len() == 0 {
        seq![]
    } else {
        mermaid_lines(g.drop_last()) + mermaid_task(g.last().0, g.last().1)
    }
}

/// The Mermaid rendering of a task graph.
pub open spec fn mermaid_text(g: Seq<(Seq<char>, Seq<Seq<char>>)>) -> Seq<char> {
    "flowchart LR\n"@ + mermaid_lines(g)
}

/// Appends the Mermaid node id for `s`.
fn push_mermaid_id(out: &mut String, s: &str)
    ensures
        final(out)@ == old(out)@ + mermaid_id(s@),
{
    let cs = chars_of(s);
    if cs.len() == 0 {
        push_str(out, "node");
        return;
    }
    let ghost start = old(out)@;
    let mut i: usize = 0;
    while i < cs.len()
        invariant
            i <= cs@.len(),
            out@ == start + sanitize(cs@.take(i as int)),
        decreases cs.len() - i,
    {
        let c = cs[i];
        if is_alphanumeric(c) || c == '_' || c == '-' {
            push_char(out, c);
        } else {
            push_char(out, '_');
        }
        proof {
            assert(sanitize(cs@.take(i + 1)) =~= sanitize(cs@.take(i as int)).push(
                if alphanumeric(c) || c == '_' || c == '-' { c } else { '_' }));
        }
        i = i + 1;
    }
    proof {
        assert(cs@.take(cs@.len() as int) =~= cs@);
    }
}

/// Appends the Mermaid label for `s`.
fn push_mermaid_label(out: &mut String, s: &str)
    ensures
        final(out)@ == old(out)@ + mermaid_label(s@),
{
    let cs = chars_of(s);
    let mut special = false;
    let mut i: usize = 0;
    while i < cs.len()
        invariant
            i <= cs@.len(),
            special == exists|j: int| 0 <= j < i && (cs@[j] == '"' || cs@[j] == '\n'),
        decreases cs.len() - i,
    {
        if cs[i] == '"' || cs[i] == '\n' {
            special = true;
        }
        i = i + 1;
    }
    let ghost start = out@;
    let q = if special { '\'' } else { '"' };
    push_char(out, q);
    push_str(out, s);
    push_char(out, q);
    proof {
        assert(special == (s@.contains('"') || s@.contains('\n'))) by {
            if s@.contains('"') {
                let j = choose|j: int| 0 <= j < s@.len() && s@[j] == '"';
                assert(cs@[j] == '"');
            }
            if s@.contains('\n') {
                let j = choose|j: int| 0 <= j < s@.len() && s@[j] == '\n';
                assert(cs@[j] == '\n');
            }
        }
        assert(out@ =~= start + mermaid_label(s@));
    }
}

/// The Mermaid flowchart of the tasks: a node for each task without
/// dependencies, and an edge from each dependency otherwise.
pub fn generate_mermaid(tasks: &[RecipeTask]) -> (r: String)
    ensures
        r@ == mermaid_text(task_graph(tasks@)),
{
    let ghost g = task_graph(tasks@);
    let mut out = String::from_str("flowchart LR\n");
    let ghost header = out@;
    let mut i: usize = 0;
    proof {
        assert(g.take(0) =~= Seq::<(Seq<char>, Seq<Seq<char>>)>::empty());
    }
    while i < tasks.len()
        invariant
            g == task_graph(tasks@),
            i <= tasks@.len(),
            header == "flowchart LR\n"@,
            out@ == header + mermaid_lines(g.take(i as int)),
        decreases tasks.len() - i,
    {
        let task = &tasks[i];
        let ghost before = out@;
        if task.depends_on.len() == 0 {
            push_str(&mut out, "    ");
            push_mermaid_id(&mut out, task.name.as_str());
            push_str(&mut out, "[");
            push_mermaid_label(&mut out, task.name.as_str());
            push_str(&mut out, "]\n");
            proof {
                assert(out@ =~= before + mermaid_task(task.name@, views(task.depends_on@)));
            }
        } else {
            let mut k: usize = 0;
            proof {
                assert(views(task.depends_on@).take(0) =~= Seq::<Seq<char>>::empty());
            }
            while k < task.depends_on.len()
                invariant
                    k <= task.depends_on@.len(),
                    out@ == before + mermaid_edges_to(task.name@, views(task.depends_on@).take(k as int)),
                decreases task.depends_on.len() - k,
            {
                push_str(&mut out, "    ");
                push_mermaid_id(&mut out, task.depends_on[k].as_str());
                push_str(&mut out, " --> ");
                push_mermaid_id(&mut out, task.name.as_str());
                push_str(&mut out, "\n");
                proof {
                    let d = views(task.depends_on@);
                    let t = d.take(k + 1);
                    assert(t.drop_last() =~= d.take(k as int));
                    assert(t.last() == task.depends_on@[k as int]@);
                    assert(out@ =~= before + mermaid_edges_to(task.name@, t));
                }
                k = k + 1;
            }
            proof {
                assert(views(task.depends_on@).take(task.depends_on@.len() as int) =~= views(task.depends_on@));
            }
        }
        proof {
            let t = g.take(i + 1);
            assert(t.drop_last() =~= g.take(i as int));
            assert(t.last() == (task.name@, views(task.depends_on@)));
            assert(out@ =~= header + mermaid_lines(t));
        }
        i = i + 1;
    }
    proof {
        assert(g.take(tasks@.len() as int) =~= g);
    }
    out
}

} // verus!
