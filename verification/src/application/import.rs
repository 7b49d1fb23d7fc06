//! `@import` directives of recipe files: reading them and stripping them
//! from the JSON body. Reading the files themselves happens outside the
//! library.

use vstd::prelude::*;

use crate::cron_parser::{find_char_from, lemma_find_char_bounds};
use crate::domain::recipes::{string_from_range, trim_range, trim_seq};
use crate::domain::tasks::Task;
use crate::domain::workflows::Workflow;
use crate::external::{join_path, joined_path};
use crate::text::{chars_of, push_char, push_range, push_str, views};

verus! {

/// A single `@import` directive.
#[derive(Debug, Clone, PartialEq, Eq)]
pub struct ImportDirective {
    /// The path as written between the quotes.
    pub raw_path: String,
    /// The path joined onto the importing file's directory.
    pub resolved_path: String,
}

/// Errors that can occur during import resolution.
#[derive(Debug)]
pub enum ImportError {
    /// A file was imported again while it was being resolved.
    CircularImport { path: String },
    /// The referenced file does not exist.
    FileNotFound { path: String },
    /// Reading a file failed; the reader's message.
    IoError { path: String, message: String },
    /// The JSON body could not be parsed; the parser's message.
    ParseError { path: String, message: String },
    /// An `@import` directive could not be interpreted.
    InvalidImport { path: String, line: usize, message: String },
    /// The recipe held neither tasks nor workflows after imports.
    EmptyRecipe { path: String },
}

/// Resolves `@import` directives in recipe files.
#[derive(Debug, Clone, Copy, Default)]
pub struct ImportResolver;

// ---------------------------------------------------------------------------
// Lines
// ---------------------------------------------------------------------------

/// A line without its `\r` before the line feed.
pub open spec fn strip_cr(l: Seq<char>) -> Seq<char> {
    if l.len() > 0 && l.last() == '\r' { l.drop_last() } else { l }
}

/// The lines of `s[start..]` as `str::lines` gives them: split at `\n`,
/// a `\r` before the `\n` dropped, and no empty line after a final `\n`.
pub open spec fn lines_from(s: Seq<char>, start: int) -> Seq<Seq<char>>
    decreases s.len() - start,
{
    let i = find_char_from(s, '\n', start);
    if start < 0 || start >= s.len() {
        seq![]
    } else if i < 0 {
        seq![s.subrange(start, s.len() as int)]
    } else {
        proof {
            lemma_find_char_bounds(s, '\n', start);
        }
        seq![strip_cr(s.subrange(start, i))] + lines_from(s, i + 1)
    }
}

/// The character ranges of the lines of `cs`.
fn line_ranges(cs: &Vec<char>) -> (r: Vec<(usize, usize)>)
    ensures
        r@.len() == lines_from(cs@, 0).len(),
        forall|p: int| #![trigger r@[p]] 0 <= p < r@.len() ==> r@[p].0 <= r@[p].1 <= cs@.len()
            && cs@.subrange(r@[p].0 as int, r@[p].1 as int) == lines_from(cs@, 0)[p],
{
    let ghost s = cs@;
    let n = cs.len();
    let mut r: Vec<(usize, usize)> = Vec::new();
    let mut start: usize = 0;
    let mut k: usize = 0;
    let ghost mut done: Seq<Seq<char>> = seq![];
    proof {
        assert(done + lines_from(s, 0) =~= lines_from(s, 0));
    }
    while k < n
        invariant
            s == cs@,
            n == s.len(),
            start <= k <= n,
            forall|j: int| start <= j < k ==> s[j] != '\n',
            done.len() == r@.len(),
            forall|p: int| #![trigger r@[p]] 0 <= p < r@.len() ==> r@[p].0 <= r@[p].1 <= n
                && s.subrange(r@[p].0 as int, r@[p].1 as int) == done[p],
            done + lines_from(s, start as int) == lines_from(s, 0),
        decreases n - k,
    {
        if cs[k] == '\n' {
            let mut e = k;
            if e > start && cs[e - 1] == '\r' {
                e = e - 1;
            }
            proof {
                lemma_find_char_at_line(s, start as int, k as int);
                let l = s.subrange(start as int, k as int);
                assert(strip_cr(l) =~= s.subrange(start as int, e as int));
                assert(lines_from(s, start as int) == seq![strip_cr(l)] + lines_from(s, k + 1));
                assert(done.push(strip_cr(l)) + lines_from(s, k + 1) =~= done + lines_from(s, start as int));
            }
            r.push((start, e));
            proof {
                done = done.push(s.subrange(start as int, e as int));
            }
            start = k + 1;
        }
        k = k + 1;
    }
    if start < n {
        proof {
            lemma_no_newline(s, start as int);
            assert(lines_from(s, start as int) == seq![s.subrange(start as int, n as int)]);
        }
        r.push((start, n));
        proof {
            done = done.push(s.subrange(start as int, n as int));
            assert(done =~= lines_from(s, 0));
        }
    } else {
        proof {
            assert(done =~= lines_from(s, 0));
        }
    }
    r
}

proof fn lemma_find_char_at_line(s: Seq<char>, start: int, k: int)
    requires
        0 <= start <= k < s.len(),
        s[k] == '\n',
        forall|j: int| start <= j < k ==> s[j] != '\n',
    ensures
        find_char_from(s, '\n', start) == k,
    decreases k - start,
{
    if start < k {
        lemma_find_char_at_line(s, start + 1, k);
    }
}

proof fn lemma_no_newline(s: Seq<char>, start: int)
    requires
        0 <= start <= s.len(),
        forall|j: int| start <= j < s.len() ==> s[j] != '\n',
    ensures
        find_char_from(s, '\n', start) == -1,
    decreases s.len() - start,
{
    if start < s.len() {
        lemma_no_newline(s, start + 1);
    }
}

// ---------------------------------------------------------------------------
// Directives
// ---------------------------------------------------------------------------

/// `t` begins with `@import`.
pub open spec fn is_import_line(t: Seq<char>) -> bool {
    t.len() >= 7 && t.subrange(0, 7) == "@import"@
}

/// What follows `@import` on a trimmed import line, trimmed.
pub open spec fn import_rest(t: Seq<char>) -> Seq<char> {
    trim_seq(t.subrange(7, t.len() as int))
}

/// The fault of an import line: `Some(0)` when no quoted path follows,
/// `Some(1)` when the quote is not closed.
pub open spec fn import_fault(t: Seq<char>) -> Option<nat> {
    let a = import_rest(t);
    if a.len() == 0 || a[0] != '"' {
        Some(0)
    } else if find_char_from(a, '"', 1) < 0 {
        Some(1)
    } else {
        None
    }
}

/// The quoted path of a well-formed import line.
pub open spec fn import_path(t: Seq<char>) -> Seq<char> {
    let a = import_rest(t);
    a.subrange(1, find_char_from(a, '"', 1))
}

/// The position of the first faulty import line at or after `k`, or `-1`.
pub open spec fn first_bad_import(ls: Seq<Seq<char>>, k: int) -> int
    decreases ls.len() - k,
{
    if k < 0 || k >= ls.len() {
        -1
    } else if is_import_line(trim_seq(ls[k])) && import_fault(trim_seq(ls[k])) is Some {
        k
    } else {
        first_bad_import(ls, k + 1)
    }
}

/// The paths of the import lines among `ls`, in order.
pub open spec fn import_paths(ls: Seq<Seq<char>>) -> Seq<Seq<char>>
    decreases ls.len(),
{
    if ls.len() == 0 {
        seq![]
    } else if is_import_line(trim_seq(ls.last())) {
        import_paths(ls.drop_last()).push(import_path(trim_seq(ls.last())))
    } else {
        import_paths(ls.drop_last())
    }
}

/// Whether `cs[a..b]` begins with `@import`.
fn starts_with_import(cs: &Vec<char>, a: usize, b: usize) -> (r: bool)
    requires
        a <= b <= cs@.len(),
    ensures
        r == is_import_line(cs@.subrange(a as int, b as int)),
{
    proof {
        reveal_strlit("@import");
    }
    if b - a < 7 {
        return false;
    }
    let r = cs[a] == '@' && cs[a + 1] == 'i' && cs[a + 2] == 'm' && cs[a + 3] == 'p'
        && cs[a + 4] == 'o' && cs[a + 5] == 'r' && cs[a + 6] == 't';
    proof {
        let t = cs@.subrange(a as int, b as int);
        if r {
            assert(t.subrange(0, 7) =~= "@import"@);
        } else if t.subrange(0, 7) == "@import"@ {
            assert(t.subrange(0, 7)[0] == cs@[a as int]);
            assert(t.subrange(0, 7)[1] == cs@[a + 1]);
            assert(t.subrange(0, 7)[2] == cs@[a + 2]);
            assert(t.subrange(0, 7)[3] == cs@[a + 3]);
            assert(t.subrange(0, 7)[4] == cs@[a + 4]);
            assert(t.subrange(0, 7)[5] == cs@[a + 5]);
            assert(t.subrange(0, 7)[6] == cs@[a + 6]);
        }
    }
    r
}

impl ImportResolver {
    /// A resolver.
    pub fn new() -> (r: Self) {
        ImportResolver
    }

    /// Reads the `@import "<path>"` directives of `content`, one per line
    /// (after trimming) that begins with `@import`, resolving each path
    /// against `parent_dir`. A directive without a quoted path, or with an
    /// unclosed quote, fails with its 1-based line number.
    pub fn parse_import_directives(content: &str, file_path: &str, parent_dir: &str) -> (r: Result<Vec<ImportDirective>, ImportError>)
        ensures
            ({
                let ls = lines_from(content@, 0);
                let b = first_bad_import(ls, 0);
                match r {
                    Ok(ds) => b == -1 && ds@.len() == import_paths(ls).len()
                        && forall|i: int| #![trigger ds@[i]] 0 <= i < ds@.len() ==> ds@[i].raw_path@ == import_paths(ls)[i]
                            && ds@[i].resolved_path@ == joined_path(parent_dir@, import_paths(ls)[i]),
                    Err(ImportError::InvalidImport { path, line, message }) => b >= 0 && path@ == file_path@
                        && line == b + 1
                        && message@ == if import_fault(trim_seq(ls[b])) == Some(0nat) {
                            "expected quoted path after @import"@
                        } else {
                            "unclosed quote in @import path"@
                        },
                    Err(_) => false,
                }
            }),
    {
        let cs = chars_of(content);
        let ranges = line_ranges(&cs);
        let ghost ls = lines_from(cs@, 0);
        let mut out: Vec<ImportDirective> = Vec::new();
        let mut i: usize = 0;
        proof {
            assert(ls.take(0) =~= Seq::<Seq<char>>::empty());
        }
        while i < ranges.len()
            invariant
                cs@ == content@,
                ls == lines_from(cs@, 0),
                ranges@.len() == ls.len(),
                forall|p: int| #![trigger ranges@[p]] 0 <= p < ranges@.len() ==> ranges@[p].0 <= ranges@[p].1 <= cs@.len()
                    && cs@.subrange(ranges@[p].0 as int, ranges@[p].1 as int) == ls[p],
                i <= ranges@.len(),
                first_bad_import(ls, 0) == first_bad_import(ls, i as int),
                out@.len() == import_paths(ls.take(i as int)).len(),
                forall|q: int| #![trigger out@[q]] 0 <= q < out@.len() ==> out@[q].raw_path@ == import_paths(ls.take(i as int))[q]
                    && out@[q].resolved_path@ == joined_path(parent_dir@, import_paths(ls.take(i as int))[q]),
            decreases ranges.len() - i,
        {
            let (la, lb) = ranges[i];
            let ghost line = ls[i as int];
            let (ta, tb) = trim_range(&cs, la, lb);
            let ghost t = cs@.subrange(ta as int, tb as int);
            proof {
                assert(line == cs@.subrange(la as int, lb as int));
                assert(t == trim_seq(line));
                assert(ls.take(i + 1).drop_last() =~= ls.take(i as int));
                assert(ls.take(i + 1).last() == line);
            }
            if starts_with_import(&cs, ta, tb) {
                let (aa, ab) = trim_range(&cs, ta + 7, tb);
                let ghost a = cs@.subrange(aa as int, ab as int);
                proof {
                    assert(cs@.subrange(ta + 7, tb as int) =~= t.subrange(7, t.len() as int));
                    assert(a == import_rest(t));
                }
                if aa == ab || cs[aa] != '"' {
                    proof {
                        if aa < ab {
                            assert(a[0] == cs@[aa as int]);
                        }
                        assert(import_fault(t) == Some(0nat));
                        assert(first_bad_import(ls, i as int) == i as int);
                    }
                    return Err(ImportError::InvalidImport {
                        path: String::from_str(file_path),
                        line: i + 1,
                        message: String::from_str("expected quoted path after @import"),
                    });
                }
                let mut e = aa + 1;
                while e < ab && cs[e] != '"'
                    invariant
                        aa + 1 <= e <= ab <= cs@.len(),
                        a == cs@.subrange(aa as int, ab as int),
                        find_char_from(a, '"', 1) == find_char_from(a, '"', (e - aa) as int),
                    decreases ab - e,
                {
                    proof {
                        assert(a[(e - aa) as int] == cs@[e as int]);
                    }
                    e = e + 1;
                }
                proof {
                    assert(a[0] == cs@[aa as int]);
                    if e < ab {
                        assert(a[(e - aa) as int] == cs@[e as int]);
                        assert(find_char_from(a, '"', (e - aa) as int) == (e - aa) as int);
                    } else {
                        assert(find_char_from(a, '"', (e - aa) as int) == -1);
                    }
                }
                if e == ab {
                    proof {
                        assert(import_fault(t) == Some(1nat));
                        assert(first_bad_import(ls, i as int) == i as int);
                    }
                    return Err(ImportError::InvalidImport {
                        path: String::from_str(file_path),
                        line: i + 1,
                        message: String::from_str("unclosed quote in @import path"),
                    });
                }
                let raw = string_from_range(&cs, aa + 1, e);
                let resolved = join_path(parent_dir, raw.as_str());
                proof {
                    assert(import_fault(t) is None);
                    assert(raw@ =~= import_path(t));
                }
                let ghost before = out@;
                out.push(ImportDirective { raw_path: raw, resolved_path: resolved });
                proof {
                    let ps = import_paths(ls.take(i + 1));
                    assert(ps == import_paths(ls.take(i as int)).push(import_path(t)));
                    assert forall|q: int| #![trigger out@[q]] 0 <= q < out@.len() implies out@[q].raw_path@ == ps[q]
                        && out@[q].resolved_path@ == joined_path(parent_dir@, ps[q]) by {
                        if q < before.len() {
                            assert(out@[q] == before[q]);
                        }
                    }
                }
            } else {
                proof {
                    assert(import_paths(ls.take(i + 1)) == import_paths(ls.take(i as int)));
                }
            }
            i = i + 1;
        }
        proof {
            assert(ls.take(ls.len() as int) =~= ls);
        }
        Ok(out)
    }

    /// The content without the lines that begin (after trimming) with
    /// `@import`, the other lines joined with `\n`.
    pub fn strip_import_lines(content: &str) -> (r: String)
        ensures
            r@ == join_lines(kept_lines(lines_from(content@, 0))),
    {
        let cs = chars_of(content);
        let ranges = line_ranges(&cs);
        let ghost ls = lines_from(cs@, 0);
        let mut out = String::new();
        let mut any = false;
        let mut i: usize = 0;
        proof {
            assert(ls.take(0) =~= Seq::<Seq<char>>::empty());
        }
        while i < ranges.len()
            invariant
                cs@ == content@,
                ls == lines_from(cs@, 0),
                ranges@.len() == ls.len(),
                forall|p: int| #![trigger ranges@[p]] 0 <= p < ranges@.len() ==> ranges@[p].0 <= ranges@[p].1 <= cs@.len()
                    && cs@.subrange(ranges@[p].0 as int, ranges@[p].1 as int) == ls[p],
                i <= ranges@.len(),
                any == (kept_lines(ls.take(i as int)).len() > 0),
                out@ == join_lines(kept_lines(ls.take(i as int))),
            decreases ranges.len() - i,
        {
            let (la, lb) = ranges[i];
            let ghost line = ls[i as int];
            let (ta, tb) = trim_range(&cs, la, lb);
            proof {
                assert(line == cs@.subrange(la as int, lb as int));
                assert(ls.take(i + 1).drop_last() =~= ls.take(i as int));
                assert(ls.take(i + 1).last() == line);
            }
            let ghost before = out@;
            if !starts_with_import(&cs, ta, tb) {
                if any {
                    push_char(&mut out, '\n');
                }
                push_range(&mut out, cs.as_slice(), la, lb);
                proof {
                    let k0 = kept_lines(ls.take(i as int));
                    assert(kept_lines(ls.take(i + 1)) == k0.push(line));
                    if k0.len() == 0 {
                        assert(join_lines(k0) =~= Seq::<char>::empty());
                        assert(join_lines(k0.push(line)) == line);
                        assert(out@ =~= join_lines(k0.push(line)));
                    } else {
                        assert(k0.push(line).drop_last() =~= k0);
                        assert(out@ =~= join_lines(k0.push(line)));
                    }
                }
                any = true;
            } else {
                proof {
                    assert(kept_lines(ls.take(i + 1)) == kept_lines(ls.take(i as int)));
                }
            }
            i = i + 1;
        }
        proof {
            assert(ls.take(ls.len() as int) =~= ls);
        }
        out
    }
}

/// The lines that do not begin (after trimming) with `@import`.
pub open spec fn kept_lines(ls: Seq<Seq<char>>) -> Seq<Seq<char>>
    decreases ls.len(),
{
    if ls.len() == 0 {
        seq![]
    } else if is_import_line(trim_seq(ls.last())) {
        kept_lines(ls.drop_last())
    } else {
        kept_lines(ls.drop_last()).push(ls.last())
    }
}

/// Lines joined with `\n`.
pub open spec fn join_lines(ls: Seq<Seq<char>>) -> Seq<char>
    decreases ls.len(),
{
    if ls.len() == 0 {
        seq![]
    } else if ls.len() == 1 {
        ls[0]
    } else {
        join_lines(ls.drop_last()) + seq!['\n'] + ls.last()
    }
}


// ---------------------------------------------------------------------------
// Resolution state
// ---------------------------------------------------------------------------

/// The files being resolved, from the outermost to the one being read; a
/// file met again while it is on this stack is a circular import.
#[derive(Debug)]
pub struct ImportStack {
    /// The canonical paths, outermost first.
    pub paths: Vec<String>,
}

impl ImportStack {
    /// No file being resolved.
    pub fn new() -> (r: Self)
        ensures
            r.paths@.len() == 0,
    {
        ImportStack { paths: Vec::new() }
    }

    /// Starts resolving `path`: refused with `CircularImport` when `path`
    /// is already being resolved (the stack stays as it was), otherwise
    /// `path` goes on top.
    pub fn enter(&mut self, path: &str) -> (r: Result<(), ImportError>)
        ensures
            views(old(self).paths@).contains(path@) ==> (r matches Err(ImportError::CircularImport { path: p })
                && p@ == path@ && final(self).paths@ == old(self).paths@),
            !views(old(self).paths@).contains(path@) ==> r is Ok && views(final(self).paths@) == views(old(self).paths@).push(path@),
    {
        let key = String::from_str(path);
        let mut i: usize = 0;
        while i < self.paths.len()
            invariant
                i <= self.paths@.len(),
                key@ == path@,
                forall|j: int| 0 <= j < i ==> self.paths@[j]@ != path@,
            decreases self.paths.len() - i,
        {
            if self.paths[i] == key {
                proof {
                    assert(views(self.paths@)[i as int] == path@);
                }
                return Err(ImportError::CircularImport { path: key });
            }
            i = i + 1;
        }
        proof {
            assert(!views(self.paths@).contains(path@)) by {
                if views(self.paths@).contains(path@) {
                    let j = choose|j: int| 0 <= j < views(self.paths@).len() && views(self.paths@)[j] == path@;
                    assert(self.paths@[j]@ == path@);
                }
            }
        }
        let ghost before = self.paths@;
        self.paths.push(key);
        proof {
            assert(views(self.paths@) =~= views(before).push(path@));
        }
        Ok(())
    }

    /// Finishes resolving the file on top of the stack.
    pub fn leave(&mut self)
        requires
            old(self).paths@.len() > 0,
        ensures
            final(self).paths@ == old(self).paths@.drop_last(),
    {
        self.paths.pop();
    }
}

/// The tasks and workflows of a recipe and everything it imports.
#[derive(Debug)]
pub struct ImportResult {
    /// The tasks, the file's own first, then each import's in turn.
    pub tasks: Vec<Task>,
    /// The workflows, in the same order.
    pub workflows: Vec<Workflow>,
}

impl ImportResult {
    /// The file's own tasks and workflows.
    pub fn new(tasks: Vec<Task>, workflows: Vec<Workflow>) -> (r: Self)
        ensures
            r.tasks@ == tasks@,
            r.workflows@ == workflows@,
    {
        ImportResult { tasks, workflows }
    }

    /// Adds what an imported file gave after what is already there.
    pub fn append(&mut self, other: ImportResult)
        ensures
            final(self).tasks@ == old(self).tasks@ + other.tasks@,
            final(self).workflows@ == old(self).workflows@ + other.workflows@,
    {
        let ImportResult { mut tasks, mut workflows } = other;
        self.tasks.append(&mut tasks);
        self.workflows.append(&mut workflows);
    }
}

} // verus!
