//! Argument forwarding: everything after a literal `--` is passed on to
//! the underlying command, quoted for a POSIX shell.

use vstd::prelude::*;

use crate::external::{json_array, json_array_value, json_text, json_text_value};
use crate::text::{chars_of, push_char, push_str, views};

verus! {

/// The bytes that a POSIX shell treats specially.
pub open spec fn is_metachar_byte(b: u8) -> bool {
    b == 0x20u8 || b == 0x09u8 || b == 0x0Au8 || b == 0x27u8 || b == 0x22u8 || b == 0x5Cu8
        || b == 0x24u8 || b == 0x60u8 || b == 0x26u8 || b == 0x7Cu8 || b == 0x3Bu8 || b == 0x3Cu8
        || b == 0x3Eu8 || b == 0x28u8 || b == 0x29u8 || b == 0x7Bu8 || b == 0x7Du8 || b == 0x2Au8
        || b == 0x3Fu8 || b == 0x5Bu8 || b == 0x5Du8 || b == 0x23u8 || b == 0x7Eu8 || b == 0x21u8
        || b == 0x2Cu8
}

/// Whether byte `b` has special meaning in a POSIX shell: space, tab,
/// newline and `' " \ $ ` & | ; < > ( ) { } * ? [ ] # ~ ! ,`.
pub fn is_shell_metachar(b: u8) -> (r: bool)
    ensures
        r == is_metachar_byte(b),
{
    b == 0x20u8 || b == 0x09u8 || b == 0x0Au8 || b == 0x27u8 || b == 0x22u8 || b == 0x5Cu8
        || b == 0x24u8 || b == 0x60u8 || b == 0x26u8 || b == 0x7Cu8 || b == 0x3Bu8 || b == 0x3Cu8
        || b == 0x3Eu8 || b == 0x28u8 || b == 0x29u8 || b == 0x7Bu8 || b == 0x7Du8 || b == 0x2Au8
        || b == 0x3Fu8 || b == 0x5Bu8 || b == 0x5Du8 || b == 0x23u8 || b == 0x7Eu8 || b == 0x21u8
        || b == 0x2Cu8
}

/// A character whose UTF-8 encoding holds a shell metacharacter byte: an
/// ASCII character that is one (every byte of a longer encoding is 0x80 or
/// above, and none of those is one).
pub open spec fn is_meta_char(c: char) -> bool {
    (c as u32) < 128 && is_metachar_byte((c as u32) as u8)
}

/// The text holds a character that needs quoting.
pub open spec fn needs_quoting(s: Seq<char>) -> bool {
    exists|i: int| 0 <= i < s.len() && is_meta_char(#[trigger] s[i])
}

/// `s` with each `'` replaced by `'\''`.
pub open spec fn escape_quotes(s: Seq<char>) -> Seq<char>
    decreases s.len(),
{
    if s.len() == 0 {
        seq![]
    } else if s.last() == '\'' {
        escape_quotes(s.drop_last()) + seq!['\'', '\\', '\'', '\'']
    } else {
        escape_quotes(s.drop_last()).push(s.last())
    }
}

/// One argument quoted for a POSIX shell: `''` when empty, unchanged when
/// nothing needs quoting, and otherwise in single quotes with each `'`
/// written as `'\''`.
pub open spec fn quote_single(s: Seq<char>) -> Seq<char> {
    if s.len() == 0 {
        seq!['\'', '\'']
    } else if !needs_quoting(s) {
        s
    } else {
        seq!['\''] + escape_quotes(s) + seq!['\'']
    }
}

/// Texts joined with single spaces.
pub open spec fn join_space(ss: Seq<Seq<char>>) -> Seq<char>
    decreases ss.len(),
{
    if ss.len() == 0 {
        seq![]
    } else if ss.len() == 1 {
        ss[0]
    } else {
        join_space(ss.drop_last()) + seq![' '] + ss.last()
    }
}

/// Each argument quoted.
pub open spec fn quote_all(args: Seq<Seq<char>>) -> Seq<Seq<char>> {
    args.map_values(|a: Seq<char>| quote_single(a))
}

/// Whether `c` needs quoting.
fn char_needs_quoting(c: char) -> (r: bool)
    ensures
        r == is_meta_char(c),
{
    let u = c as u32;
    if u < 128 {
        is_shell_metachar(u as u8)
    } else {
        false
    }
}

/// Quotes one argument per POSIX shell rules: `''` for an empty argument,
/// the argument itself when it holds no shell metacharacter, and otherwise
/// the argument in single quotes with each embedded `'` written as `'\''`.
pub fn shell_quote_single(arg: &str) -> (r: String)
    ensures
        r@ == quote_single(arg@),
        r@.len() > 0,
{
    let cs = chars_of(arg);
    let n = cs.len();
    if n == 0 {
        let mut r = String::new();
        push_char(&mut r, '\'');
        push_char(&mut r, '\'');
        proof {
            assert(r@ =~= seq!['\'', '\'']);
        }
        return r;
    }
    let mut i: usize = 0;
    let mut special = false;
    while i < n
        invariant
            n == cs@.len(),
            i <= n,
            special == exists|j: int| 0 <= j < i && is_meta_char(#[trigger] cs@[j]),
        decreases n - i,
    {
        if char_needs_quoting(cs[i]) {
            special = true;
        }
        i = i + 1;
    }
    if !special {
        return String::from_str(arg);
    }
    let mut out = String::new();
    push_char(&mut out, '\'');
    let mut k: usize = 0;
    while k < n
        invariant
            n == cs@.len(),
            k <= n,
            out@ == seq!['\''] + escape_quotes(cs@.take(k as int)),
        decreases n - k,
    {
        let ch = cs[k];
        let ghost before = out@;
        if ch == '\'' {
            push_char(&mut out, '\'');
            push_char(&mut out, '\\');
            push_char(&mut out, '\'');
            push_char(&mut out, '\'');
        } else {
            push_char(&mut out, ch);
        }
        proof {
            let t = cs@.take(k + 1);
            assert(t.drop_last() =~= cs@.take(k as int));
            assert(t.last() == ch);
            assert(out@ =~= seq!['\''] + escape_quotes(t));
        }
        k = k + 1;
    }
    push_char(&mut out, '\'');
    proof {
        assert(cs@.take(n as int) =~= cs@);
        assert(out@ =~= seq!['\''] + escape_quotes(cs@) + seq!['\'']);
    }
    out
}

/// The arguments collected after a `--` separator.
#[derive(Debug, Clone, Default, PartialEq, Eq)]
pub struct ForwardedArgs {
    /// The forwarded arguments, without the separator.
    pub args: Vec<String>,
}

impl ForwardedArgs {
    /// An empty list.
    pub fn new() -> (r: Self)
        ensures
            r.args@.len() == 0,
    {
        ForwardedArgs { args: Vec::new() }
    }

    /// The list with `arg` appended.
    pub fn push(self, arg: &str) -> (r: Self)
        ensures
            views(r.args@) == views(self.args@).push(arg@),
    {
        let mut s = self;
        let ghost before = s.args@;
        s.args.push(String::from_str(arg));
        proof {
            assert(views(s.args@) =~= views(before).push(arg@));
        }
        s
    }

    /// A list holding the given arguments.
    pub fn from_slice(slice: &[&str]) -> (r: Self)
        ensures
            r.args@.len() == slice@.len(),
            forall|i: int| 0 <= i < slice@.len() ==> #[trigger] r.args@[i]@ == slice@[i]@,
    {
        let mut args: Vec<String> = Vec::new();
        let mut i: usize = 0;
        while i < slice.len()
            invariant
                i <= slice@.len(),
                args@.len() == i,
                forall|j: int| 0 <= j < i ==> #[trigger] args@[j]@ == slice@[j]@,
            decreases slice.len() - i,
        {
            args.push(String::from_str(slice[i]));
            i = i + 1;
        }
        ForwardedArgs { args }
    }

    /// Whether no argument was forwarded.
    pub fn is_empty(&self) -> (r: bool)
        ensures
            r == (self.args@.len() == 0),
    {
        self.args.len() == 0
    }

    /// Number of forwarded arguments.
    pub fn len(&self) -> (r: usize)
        ensures
            r == self.args@.len(),
    {
        self.args.len()
    }

    /// Each argument quoted for a POSIX shell, joined with spaces.
    pub fn shell_quote(&self) -> (r: String)
        ensures
            r@ == join_space(quote_all(views(self.args@))),
    {
        let mut out = String::new();
        let mut i: usize = 0;
        let ghost q = quote_all(views(self.args@));
        proof {
            assert(q.take(0) =~= Seq::<Seq<char>>::empty());
        }
        while i < self.args.len()
            invariant
                q == quote_all(views(self.args@)),
                i <= self.args@.len(),
                out@ == join_space(q.take(i as int)),
            decreases self.args.len() - i,
        {
            let ghost out0 = out@;
            if i > 0 {
                push_char(&mut out, ' ');
            }
            let part = shell_quote_single(self.args[i].as_str());
            push_str(&mut out, part.as_str());
            proof {
                let t = q.take(i + 1);
                assert(t.drop_last() =~= q.take(i as int));
                assert(t.last() == quote_single(self.args@[i as int]@));
                if i == 0 {
                    assert(q.take(0) =~= Seq::<Seq<char>>::empty());
                    assert(out0 =~= Seq::<char>::empty());
                    assert(t.len() == 1);
                    assert(t[0] == part@);
                    assert(out@ == out0 + part@);
                    assert(join_space(t) == t[0]);
                    assert(out0 + part@ =~= part@);
                    assert(out@ == join_space(t));
                } else {
                    assert(out@ =~= join_space(t));
                }
            }
            i = i + 1;
        }
        proof {
            assert(q.take(self.args@.len() as int) =~= q);
        }
        out
    }

    /// The quoted arguments joined with spaces (what `Display` renders).
    pub fn to_string(&self) -> (r: String)
        ensures
            r@ == join_space(quote_all(views(self.args@))),
    {
        self.shell_quote()
    }

    /// The arguments as a JSON array of strings.
    pub fn to_json(&self) -> (r: serde_json::Value)
        ensures
            r == json_strings(views(self.args@)),
    {
        let mut items: Vec<serde_json::Value> = Vec::new();
        let mut i: usize = 0;
        while i < self.args.len()
            invariant
                i <= self.args@.len(),
                items@ == views(self.args@).take(i as int).map_values(|a: Seq<char>| json_text(a)),
            decreases self.args.len() - i,
        {
            let v = json_text_value(self.args[i].as_str());
            let ghost before = items@;
            items.push(v);
            proof {
                assert(views(self.args@).take(i + 1) =~= views(self.args@).take(i as int).push(self.args@[i as int]@));
                assert(items@ =~= views(self.args@).take(i + 1).map_values(|a: Seq<char>| json_text(a)));
            }
            i = i + 1;
        }
        proof {
            assert(views(self.args@).take(self.args@.len() as int) =~= views(self.args@));
        }
        json_array_value(items)
    }
}

/// The JSON array of the given texts, each as a JSON string.
pub open spec fn json_strings(items: Seq<Seq<char>>) -> serde_json::Value {
    json_array(items.map_values(|a: Seq<char>| json_text(a)))
}

impl std::iter::FromIterator<String> for ForwardedArgs {
    /// Collects the arguments in order.
    ///
    /// Calls `Vec::from_iter` on the iterator, which keeps the items in
    /// order; as the trait's signature has no contract, nothing is stated.
    #[verifier::external_body]
    fn from_iter<I: IntoIterator<Item = String>>(iter: I) -> Self {
        ForwardedArgs { args: Vec::from_iter(iter) }
    }
}

impl<'a> std::iter::FromIterator<&'a str> for ForwardedArgs {
    /// Collects the arguments in order, each copied into a `String`.
    ///
    /// Calls `Vec::from_iter` on the items converted by `String::from`; as
    /// the trait's signature has no contract, nothing is stated.
    #[verifier::external_body]
    fn from_iter<I: IntoIterator<Item = &'a str>>(iter: I) -> Self {
        ForwardedArgs { args: Vec::from_iter(iter.into_iter().map(String::from)) }
    }
}

/// Splits arguments at the first `--`: the arguments before it and those
/// after it. Without a separator every argument is forwarded.
pub fn split_at_separator(args: Vec<&str>) -> (r: (Vec<String>, Vec<String>))
    ensures
        ({
            let s = args@.map_values(|a: &str| a@);
            if s.contains("--"@) {
                let idx = s.index_of_first("--"@)->0;
                views(r.0@) == s.take(idx) && views(r.1@) == s.skip(idx + 1)
            } else {
                r.0@.len() == 0 && views(r.1@) == s
            }
        }),
{
    let ghost s = args@.map_values(|a: &str| a@);
    let sep = String::from_str("--");
    let mut idx: usize = 0;
    let mut found = false;
    while idx < args.len() && !found
        invariant
            s == args@.map_values(|a: &str| a@),
            sep@ == "--"@,
            idx <= args@.len(),
            forall|j: int| 0 <= j < idx ==> s[j] != "--"@,
            found ==> idx < args@.len() && s[idx as int] == "--"@,
        decreases args.len() - idx, if found { 0int } else { 1int },
    {
        if String::from_str(args[idx]) == sep {
            found = true;
        } else {
            idx = idx + 1;
        }
    }
    let mut before: Vec<String> = Vec::new();
    let mut after: Vec<String> = Vec::new();
    let mut i: usize = 0;
    while i < args.len()
        invariant
            s == args@.map_values(|a: &str| a@),
            idx <= args@.len(),
            i <= args@.len(),
            found == (idx < args@.len()),
            views(before@) == if found { s.take(if i < idx { i as int } else { idx as int }) } else { Seq::<Seq<char>>::empty() },
            views(after@) == if found {
                if i <= idx { Seq::<Seq<char>>::empty() } else { s.subrange(idx + 1, i as int) }
            } else {
                s.take(i as int)
            },
        decreases args.len() - i,
    {
        let a = String::from_str(args[i]);
        let ghost b0 = before@;
        let ghost a0 = after@;
        if found && i < idx {
            before.push(a);
            proof {
                assert(views(before@) =~= views(b0).push(s[i as int]));
                assert(s.take(i + 1) =~= s.take(i as int).push(s[i as int]));
            }
        } else if !found || i > idx {
            after.push(a);
            proof {
                assert(views(after@) =~= views(a0).push(s[i as int]));
                if found {
                    if i == idx + 1 {
                        assert(s.subrange(idx + 1, i + 1) =~= seq![s[i as int]]);
                        assert(views(a0) =~= Seq::<Seq<char>>::empty());
                    } else {
                        assert(s.subrange(idx + 1, i + 1) =~= s.subrange(idx + 1, i as int).push(s[i as int]));
                    }
                } else {
                    assert(s.take(i + 1) =~= s.take(i as int).push(s[i as int]));
                }
            }
        }
        i = i + 1;
    }
    proof {
        if found {
            assert(s[idx as int] == "--"@);
            s.index_of_first_ensures("--"@);
            assert(s.index_of_first("--"@)->0 == idx as int);
            assert(s.skip(idx + 1) =~= s.subrange(idx + 1, s.len() as int));
        } else {
            assert(!s.contains("--"@));
            assert(s.take(s.len() as int) =~= s);
        }
    }
    (before, after)
}

/// Appends the forwarded arguments, quoted, to `base` with a space between;
/// `base` alone when nothing is forwarded, the quoted arguments alone when
/// `base` is empty.
pub fn compose_command(base: &str, forwarded: &ForwardedArgs) -> (r: String)
    ensures
        ({
            let q = join_space(quote_all(views(forwarded.args@)));
            r@ == if forwarded.args@.len() == 0 || q.len() == 0 {
                base@
            } else if base@.len() == 0 {
                q
            } else {
                base@ + seq![' '] + q
            }
        }),
{
    if forwarded.is_empty() {
        return String::from_str(base);
    }
    let quoted = forwarded.shell_quote();
    if quoted.unicode_len() == 0 {
        String::from_str(base)
    } else if base.unicode_len() == 0 {
        quoted
    } else {
        let mut r = String::from_str(base);
        push_char(&mut r, ' ');
        push_str(&mut r, quoted.as_str());
        proof {
            assert(r@ =~= base@ + seq![' '] + quoted@);
        }
        r
    }
}

} // verus!
