//! A parser for the five-field cron format: `*`, `*/n`, `n`, `n-m` and
//! `n,m,...` in each field, and matching of a time against it.

use vstd::prelude::*;

use crate::domain::recipes::{is_white_space, is_white_space_char, string_from_range};
use crate::external::{utc_calendar, utc_calendar_fields};
use crate::text::{chars_of, decimal, parse_usize, push_decimal, push_str, usize_literal, usize_parse_error};

verus! {

// ---------------------------------------------------------------------------
// Fields
// ---------------------------------------------------------------------------

/// One field of a cron expression.
#[derive(Debug, Clone, PartialEq)]
pub enum Field {
    /// `*`: every value.
    Any,
    /// `*/n`: every multiple of `n`.
    Every(usize),
    /// `a,b,...` or a single value.
    Values(Vec<usize>),
    /// `a-b`, with an optional step counted from `a`.
    Range(usize, usize, Option<usize>),
}

/// A field whose steps are non-zero, so that matching is defined.
pub open spec fn field_ok(f: Field) -> bool {
    match f {
        Field::Every(n) => n > 0,
        Field::Range(_, _, Some(s)) => s > 0,
        _ => true,
    }
}

/// Whether `v` satisfies field `f`.
pub open spec fn field_matches(f: Field, v: usize) -> bool {
    match f {
        Field::Any => true,
        Field::Every(n) => v % n == 0,
        Field::Values(vs) => vs@.contains(v),
        Field::Range(a, b, step) => a <= v && v <= b && match step {
            None => true,
            Some(s) => (v - a) % (s as int) == 0,
        },
    }
}

impl Field {
    /// Whether `value` satisfies this field.
    pub fn matches(&self, value: usize) -> (r: bool)
        requires
            field_ok(*self),
        ensures
            r == field_matches(*self, value),
    {
        match self {
            Field::Any => true,
            Field::Every(n) => value % *n == 0,
            Field::Values(vs) => {
                let mut i: usize = 0;
                while i < vs.len()
                    invariant
                        i <= vs@.len(),
                        forall|j: int| 0 <= j < i ==> vs@[j] != value,
                        field_matches(*self, value) == vs@.contains(value),
                    decreases vs.len() - i,
                {
                    if vs[i] == value {
                        proof {
                            assert(vs@[i as int] == value);
                        }
                        return true;
                    }
                    i = i + 1;
                }
                false
            },
            Field::Range(start, end, step) => {
                if value < *start || value > *end {
                    return false;
                }
                match step {
                    None => true,
                    Some(s) => (value - *start) % *s == 0,
                }
            },
        }
    }
}

// ---------------------------------------------------------------------------
// Splitting
// ---------------------------------------------------------------------------

/// The first position at or after `k` holding `c`, or `-1`.
pub open spec fn find_char_from(s: Seq<char>, c: char, k: int) -> int
    decreases s.len() - k,
{
    if k < 0 || k >= s.len() {
        -1
    } else if s[k] == c {
        k
    } else {
        find_char_from(s, c, k + 1)
    }
}

pub proof fn lemma_find_char_bounds(s: Seq<char>, c: char, k: int)
    ensures
        find_char_from(s, c, k) == -1 || (0 <= k <= find_char_from(s, c, k) < s.len() && s[find_char_from(s, c, k)] == c),
        find_char_from(s, c, k) == -1 ==> forall|j: int| 0 <= k <= j < s.len() ==> s[j] != c,
    decreases s.len() - k,
{
    if !(k < 0 || k >= s.len()) && s[k] != c {
        lemma_find_char_bounds(s, c, k + 1);
    }
}

/// The pieces of `s[start..]` between occurrences of `c` (as `str::split`
/// gives them, empty pieces included).
pub open spec fn split_from(s: Seq<char>, c: char, start: int) -> Seq<Seq<char>>
    decreases s.len() - start,
{
    let i = find_char_from(s, c, start);
    if start < 0 || start > s.len() || i < 0 {
        seq![s.subrange(start, s.len() as int)]
    } else {
        proof {
            lemma_find_char_bounds(s, c, start);
        }
        seq![s.subrange(start, i)] + split_from(s, c, i + 1)
    }
}

/// The maximal runs of non-white-space characters of `s[k..]` (as
/// `str::split_whitespace` gives them).
pub open spec fn words_from(s: Seq<char>, k: int) -> Seq<Seq<char>>
    decreases s.len() - k, 1int,
{
    if k < 0 || k >= s.len() {
        seq![]
    } else if is_white_space(s[k]) {
        words_from(s, k + 1)
    } else {
        let e = word_end(s, k);
        proof {
            lemma_word_end(s, k);
        }
        seq![s.subrange(k, e)] + words_from(s, e)
    }
}

/// The end of the run of non-white-space characters starting at `k`.
pub open spec fn word_end(s: Seq<char>, k: int) -> int
    decreases s.len() - k,
{
    if k < 0 || k >= s.len() || is_white_space(s[k]) {
        k
    } else {
        word_end(s, k + 1)
    }
}

pub proof fn lemma_word_end(s: Seq<char>, k: int)
    requires
        0 <= k < s.len(),
        !is_white_space(s[k]),
    ensures
        k < word_end(s, k) <= s.len(),
    decreases s.len() - k,
{
    assert(word_end(s, k) == word_end(s, k + 1));
    if k + 1 < s.len() && !is_white_space(s[k + 1]) {
        lemma_word_end(s, k + 1);
    } else {
        assert(word_end(s, k + 1) == k + 1);
    }
}

proof fn lemma_word_end_ge(s: Seq<char>, k: int)
    requires
        0 <= k <= s.len(),
    ensures
        k <= word_end(s, k) <= s.len(),
    decreases s.len() - k,
{
    if k < s.len() && !is_white_space(s[k]) {
        lemma_word_end_ge(s, k + 1);
    }
}

/// The texts of character ranges of `s`.
pub open spec fn range_pieces(s: Seq<char>, r: Seq<(usize, usize)>) -> Seq<Seq<char>> {
    r.map_values(|q: (usize, usize)| s.subrange(q.0 as int, q.1 as int))
}

/// The character ranges of the pieces of `cs` between occurrences of `c`.
fn split_ranges(cs: &Vec<char>, c: char) -> (r: Vec<(usize, usize)>)
    ensures
        r@.len() == split_from(cs@, c, 0).len(),
        forall|p: int| #![trigger r@[p]] 0 <= p < r@.len() ==> r@[p].0 <= r@[p].1 <= cs@.len()
            && cs@.subrange(r@[p].0 as int, r@[p].1 as int) == split_from(cs@, c, 0)[p],
{
    let ghost s = cs@;
    let n = cs.len();
    let mut r: Vec<(usize, usize)> = Vec::new();
    let mut start: usize = 0;
    let mut k: usize = 0;
    while k < n
        invariant
            s == cs@,
            n == s.len(),
            start <= k <= n,
            forall|j: int| start <= j < k ==> s[j] != c,
            forall|p: int| 0 <= p < r@.len() ==> (#[trigger] r@[p]).0 <= r@[p].1 <= n,
            range_pieces(s, r@) + split_from(s, c, start as int) == split_from(s, c, 0),
        decreases n - k,
    {
        if cs[k] == c {
            proof {
                assert(find_char_from(s, c, start as int) == k as int) by {
                    lemma_find_char_at(s, c, start as int, k as int);
                }
                let pieces = range_pieces(s, r@);
                assert(split_from(s, c, start as int) == seq![s.subrange(start as int, k as int)] + split_from(s, c, k + 1));
                assert(pieces.push(s.subrange(start as int, k as int)) + split_from(s, c, k + 1)
                    =~= pieces + split_from(s, c, start as int));
            }
            let ghost old_r = r@;
            r.push((start, k));
            proof {
                assert(range_pieces(s, r@)
                    =~= range_pieces(s, old_r).push(s.subrange(start as int, k as int)));
            }
            start = k + 1;
        }
        k = k + 1;
    }
    proof {
        lemma_find_char_none(s, c, start as int);
        assert(split_from(s, c, start as int) == seq![s.subrange(start as int, n as int)]);
    }
    let ghost old_r = r@;
    r.push((start, n));
    proof {
        let pieces = range_pieces(s, r@);
        assert(pieces =~= range_pieces(s, old_r).push(s.subrange(start as int, n as int)));
        assert(pieces =~= split_from(s, c, 0));
        assert forall|p: int| #![trigger r@[p]] 0 <= p < r@.len() implies r@[p].0 <= r@[p].1 <= cs@.len()
            && cs@.subrange(r@[p].0 as int, r@[p].1 as int) == split_from(cs@, c, 0)[p] by {
            assert(pieces[p] == s.subrange(r@[p].0 as int, r@[p].1 as int));
            if p < old_r.len() {
                assert(r@[p] == old_r[p]);
            }
        }
    }
    r
}

proof fn lemma_find_char_at(s: Seq<char>, c: char, start: int, k: int)
    requires
        0 <= start <= k < s.len(),
        s[k] == c,
        forall|j: int| start <= j < k ==> s[j] != c,
    ensures
        find_char_from(s, c, start) == k,
    decreases k - start,
{
    if start < k {
        lemma_find_char_at(s, c, start + 1, k);
    }
}

proof fn lemma_find_char_none(s: Seq<char>, c: char, start: int)
    requires
        0 <= start <= s.len(),
        forall|j: int| start <= j < s.len() ==> s[j] != c,
    ensures
        find_char_from(s, c, start) == -1,
    decreases s.len() - start,
{
    if start < s.len() {
        lemma_find_char_none(s, c, start + 1);
    }
}

/// Whether `cs` holds `c`.
fn has_char(cs: &Vec<char>, c: char) -> (r: bool)
    ensures
        r == cs@.contains(c),
{
    let mut i: usize = 0;
    while i < cs.len()
        invariant
            i <= cs@.len(),
            forall|j: int| 0 <= j < i ==> cs@[j] != c,
        decreases cs.len() - i,
    {
        if cs[i] == c {
            return true;
        }
        i = i + 1;
    }
    false
}

/// The character ranges of the white-space separated words of `cs`.
pub(crate) fn word_ranges(cs: &Vec<char>) -> (r: Vec<(usize, usize)>)
    ensures
        r@.len() == words_from(cs@, 0).len(),
        forall|p: int| #![trigger r@[p]] 0 <= p < r@.len() ==> r@[p].0 <= r@[p].1 <= cs@.len()
            && cs@.subrange(r@[p].0 as int, r@[p].1 as int) == words_from(cs@, 0)[p],
{
    let ghost s = cs@;
    let n = cs.len();
    let mut r: Vec<(usize, usize)> = Vec::new();
    let mut k: usize = 0;
    proof {
        assert(range_pieces(s, r@) + words_from(s, 0) =~= words_from(s, 0));
    }
    while k < n
        invariant
            s == cs@,
            n == s.len(),
            k <= n,
            forall|p: int| 0 <= p < r@.len() ==> (#[trigger] r@[p]).0 <= r@[p].1 <= n,
            range_pieces(s, r@) + words_from(s, k as int) == words_from(s, 0),
        decreases n - k,
    {
        if is_white_space_char(cs[k]) {
            k = k + 1;
        } else {
            let a = k;
            while k < n && !is_white_space_char(cs[k])
                invariant
                    s == cs@,
                    n == s.len(),
                    a <= k <= n,
                    word_end(s, a as int) == word_end(s, k as int),
                decreases n - k,
            {
                k = k + 1;
            }
            proof {
                lemma_word_end(s, a as int);
                let pieces = range_pieces(s, r@);
                assert(words_from(s, a as int) == seq![s.subrange(a as int, k as int)] + words_from(s, k as int));
                assert(pieces.push(s.subrange(a as int, k as int)) + words_from(s, k as int) =~= pieces + words_from(s, a as int));
            }
            let ghost old_r = r@;
            r.push((a, k));
            proof {
                assert(range_pieces(s, r@)
                    =~= range_pieces(s, old_r).push(s.subrange(a as int, k as int)));
            }
        }
    }
    proof {
        let pieces = range_pieces(s, r@);
        assert(pieces =~= words_from(s, 0));
        assert forall|p: int| #![trigger r@[p]] 0 <= p < r@.len() implies r@[p].0 <= r@[p].1 <= cs@.len()
            && cs@.subrange(r@[p].0 as int, r@[p].1 as int) == words_from(cs@, 0)[p] by {
            assert(pieces[p] == s.subrange(r@[p].0 as int, r@[p].1 as int));
        }
    }
    r
}

// ---------------------------------------------------------------------------
// Parsing a field
// ---------------------------------------------------------------------------

/// The first piece at or after `k` that is not a `usize` literal, or `-1`.
pub open spec fn first_bad_literal(parts: Seq<Seq<char>>, k: int) -> int
    decreases parts.len() - k,
{
    if k < 0 || k >= parts.len() {
        -1
    } else if usize_literal(parts[k]) is None {
        k
    } else {
        first_bad_literal(parts, k + 1)
    }
}

/// The error of parsing field text `t`, if it is rejected.
pub open spec fn field_error(t: Seq<char>) -> Option<Seq<char>> {
    if t == "*"@ {
        None
    } else if t.len() >= 2 && t[0] == '*' && t[1] == '/' {
        let rest = t.subrange(2, t.len() as int);
        match usize_literal(rest) {
            None => Some("bad */n: "@ + usize_parse_error(rest)),
            Some(n) => if n == 0 { Some("step cannot be 0"@) } else { None },
        }
    } else if t.contains(',') {
        let parts = split_from(t, ',', 0);
        let b = first_bad_literal(parts, 0);
        if b >= 0 { Some("bad list: "@ + usize_parse_error(parts[b])) } else { None }
    } else if t.contains('-') {
        let parts = split_from(t, '-', 0);
        if parts.len() != 2 {
            Some("bad range: "@ + t)
        } else {
            match (usize_literal(parts[0]), usize_literal(parts[1])) {
                (None, _) => Some("bad range start: "@ + usize_parse_error(parts[0])),
                (Some(_), None) => Some("bad range end: "@ + usize_parse_error(parts[1])),
                (Some(a), Some(b)) => if a > b { Some("range start > end: "@ + t) } else { None },
            }
        }
    } else {
        match usize_literal(t) {
            None => Some("bad field: "@ + usize_parse_error(t)),
            Some(_) => None,
        }
    }
}

/// The field that an accepted field text `t` parses to.
pub open spec fn field_parsed(t: Seq<char>, f: Field) -> bool {
    if t == "*"@ {
        f == Field::Any
    } else if t.len() >= 2 && t[0] == '*' && t[1] == '/' {
        f == Field::Every(usize_literal(t.subrange(2, t.len() as int))->0)
    } else if t.contains(',') {
        let parts = split_from(t, ',', 0);
        f matches Field::Values(vs) && vs@ == parts.map_values(|p: Seq<char>| usize_literal(p)->0)
    } else if t.contains('-') {
        let parts = split_from(t, '-', 0);
        f == Field::Range(usize_literal(parts[0])->0, usize_literal(parts[1])->0, None)
    } else {
        f matches Field::Values(vs) && vs@ == seq![usize_literal(t)->0]
    }
}

/// Parses the `usize` literal `cs[a..b]`.
fn parse_range_value(cs: &Vec<char>, a: usize, b: usize) -> (r: Result<usize, String>)
    requires
        a <= b <= cs@.len(),
    ensures
        match r {
            Ok(n) => usize_literal(cs@.subrange(a as int, b as int)) == Some(n),
            Err(m) => usize_literal(cs@.subrange(a as int, b as int)) is None
                && m@ == usize_parse_error(cs@.subrange(a as int, b as int)),
        },
{
    let text = string_from_range(cs, a, b);
    parse_usize(text.as_str())
}

fn prefixed(prefix: &str, m: &String) -> (r: String)
    ensures
        r@ == prefix@ + m@,
{
    let mut r = String::from_str(prefix);
    push_str(&mut r, m.as_str());
    r
}

impl Field {
    /// Parses one field: `*`, `*/n` with `n > 0`, a list `a,b,...`, a range
    /// `a-b` with `a <= b`, or a single value. Bounds are not checked.
    pub fn parse_str(s: &str) -> (r: Result<Field, String>)
        ensures
            match r {
                Ok(f) => field_error(s@) is None && field_parsed(s@, f) && field_ok(f),
                Err(m) => field_error(s@) == Some(m@),
            },
    {
        let cs = chars_of(s);
        let ghost t = cs@;
        let n = cs.len();
        proof {
            reveal_strlit("*");
        }
        if n == 1 && cs[0] == '*' {
            proof {
                assert(t =~= "*"@);
            }
            return Ok(Field::Any);
        }
        proof {
            assert(t != "*"@);
        }
        if n >= 2 && cs[0] == '*' && cs[1] == '/' {
            return match parse_range_value(&cs, 2, n) {
                Ok(v) => {
                    if v == 0 {
                        Err(String::from_str("step cannot be 0"))
                    } else {
                        Ok(Field::Every(v))
                    }
                },
                Err(m) => Err(prefixed("bad */n: ", &m)),
            };
        }
        if has_char(&cs, ',') {
            let parts = split_ranges(&cs, ',');
            let ghost ps = split_from(t, ',', 0);
            let mut vs: Vec<usize> = Vec::new();
            let mut i: usize = 0;
            while i < parts.len()
                invariant
                    t == cs@,
                    t == s@,
                    t != "*"@,
                    !(t.len() >= 2 && t[0] == '*' && t[1] == '/'),
                    t.contains(','),
                    ps == split_from(t, ',', 0),
                    parts@.len() == ps.len(),
                    forall|p: int| #![trigger parts@[p]] 0 <= p < parts@.len() ==> parts@[p].0 <= parts@[p].1 <= t.len()
                        && t.subrange(parts@[p].0 as int, parts@[p].1 as int) == ps[p],
                    i <= parts@.len(),
                    first_bad_literal(ps, 0) == first_bad_literal(ps, i as int),
                    vs@ == ps.take(i as int).map_values(|p: Seq<char>| usize_literal(p)->0),
                decreases parts.len() - i,
            {
                let (a, b) = parts[i];
                proof {
                    assert(t.subrange(a as int, b as int) == ps[i as int]);
                }
                match parse_range_value(&cs, a, b) {
                    Ok(v) => {
                        vs.push(v);
                        proof {
                            assert(ps.take(i + 1) =~= ps.take(i as int).push(ps[i as int]));
                            assert(vs@ =~= ps.take(i + 1).map_values(|p: Seq<char>| usize_literal(p)->0));
                        }
                    },
                    Err(m) => {
                        return Err(prefixed("bad list: ", &m));
                    },
                }
                i = i + 1;
            }
            proof {
                assert(ps.take(ps.len() as int) =~= ps);
            }
            return Ok(Field::Values(vs));
        }
        if has_char(&cs, '-') {
            let parts = split_ranges(&cs, '-');
            if parts.len() != 2 {
                return Err(prefixed("bad range: ", &String::from_str(s)));
            }
            let (a0, b0) = parts[0];
            let (a1, b1) = parts[1];
            let start = match parse_range_value(&cs, a0, b0) {
                Ok(v) => v,
                Err(m) => {
                    return Err(prefixed("bad range start: ", &m));
                },
            };
            let end = match parse_range_value(&cs, a1, b1) {
                Ok(v) => v,
                Err(m) => {
                    return Err(prefixed("bad range end: ", &m));
                },
            };
            if start > end {
                return Err(prefixed("range start > end: ", &String::from_str(s)));
            }
            return Ok(Field::Range(start, end, None));
        }
        match parse_range_value(&cs, 0, n) {
            Ok(v) => {
                proof {
                    assert(cs@.subrange(0, n as int) =~= t);
                }
                let mut vs: Vec<usize> = Vec::new();
                vs.push(v);
                proof {
                    assert(vs@ =~= seq![usize_literal(t)->0]);
                }
                Ok(Field::Values(vs))
            },
            Err(m) => {
                proof {
                    assert(cs@.subrange(0, n as int) =~= t);
                }
                Err(prefixed("bad field: ", &m))
            },
        }
    }
}

impl std::str::FromStr for Field {
    type Err = String;

    fn from_str(s: &str) -> (r: Result<Field, String>)
        ensures
            match r {
                Ok(f) => field_error(s@) is None && field_parsed(s@, f) && field_ok(f),
                Err(m) => field_error(s@) == Some(m@),
            },
    {
        Field::parse_str(s)
    }
}

// ---------------------------------------------------------------------------
// Expressions
// ---------------------------------------------------------------------------

/// A parsed five-field cron expression.
#[derive(Debug, Clone, PartialEq)]
pub struct CronExpr {
    pub minute: Field,
    pub hour: Field,
    pub day: Field,
    pub month: Field,
    pub weekday: Field,
}

/// All five fields have non-zero steps.
pub open spec fn cron_ok(c: CronExpr) -> bool {
    field_ok(c.minute) && field_ok(c.hour) && field_ok(c.day) && field_ok(c.month) && field_ok(c.weekday)
}

/// The first of the words at or after `k` that is rejected as a field.
pub open spec fn first_field_error(ws: Seq<Seq<char>>, k: int) -> Option<Seq<char>>
    decreases ws.len() - k,
{
    if k < 0 || k >= ws.len() {
        None
    } else if field_error(ws[k]) is Some {
        field_error(ws[k])
    } else {
        first_field_error(ws, k + 1)
    }
}

impl CronExpr {
    /// Whether the given time satisfies every field.
    pub fn matches(&self, minute: usize, hour: usize, day: usize, month: usize, weekday: usize) -> (r: bool)
        requires
            cron_ok(*self),
        ensures
            r == (field_matches(self.minute, minute) && field_matches(self.hour, hour)
                && field_matches(self.day, day) && field_matches(self.month, month)
                && field_matches(self.weekday, weekday)),
    {
        self.minute.matches(minute) && self.hour.matches(hour) && self.day.matches(day)
            && self.month.matches(month) && self.weekday.matches(weekday)
    }

    /// Parses an expression of exactly five white-space separated fields
    /// (minute, hour, day, month, weekday), reporting the first field
    /// that is rejected.
    pub fn parse_str(s: &str) -> (r: Result<CronExpr, String>)
        ensures
            ({
                let ws = words_from(s@, 0);
                match r {
                    Ok(c) => ws.len() == 5 && first_field_error(ws, 0) is None && cron_ok(c)
                        && field_parsed(ws[0], c.minute) && field_parsed(ws[1], c.hour)
                        && field_parsed(ws[2], c.day) && field_parsed(ws[3], c.month)
                        && field_parsed(ws[4], c.weekday),
                    Err(m) => if ws.len() != 5 {
                        m@ == "cron must have 5 fields, got "@ + decimal(ws.len())
                    } else {
                        first_field_error(ws, 0) == Some(m@)
                    },
                }
            }),
    {
        let cs = chars_of(s);
        let words = word_ranges(&cs);
        let ghost ws = words_from(cs@, 0);
        if words.len() != 5 {
            let mut m = String::from_str("cron must have 5 fields, got ");
            push_decimal(&mut m, words.len() as u64);
            return Err(m);
        }
        let mut fields: Vec<Field> = Vec::new();
        let mut i: usize = 0;
        while i < 5
            invariant
                words@.len() == 5,
                cs@ == s@,
                ws == words_from(cs@, 0),
                ws.len() == 5,
                forall|p: int| #![trigger words@[p]] 0 <= p < words@.len() ==> words@[p].0 <= words@[p].1 <= cs@.len()
                    && cs@.subrange(words@[p].0 as int, words@[p].1 as int) == ws[p],
                i <= 5,
                fields@.len() == i,
                first_field_error(ws, 0) == first_field_error(ws, i as int),
                forall|p: int| 0 <= p < i ==> field_parsed(ws[p], #[trigger] fields@[p]) && field_ok(fields@[p]),
            decreases 5 - i,
        {
            let (a, b) = words[i];
            let text = string_from_range(&cs, a, b);
            proof {
                assert(text@ == ws[i as int]);
            }
            match Field::parse_str(text.as_str()) {
                Ok(f) => {
                    fields.push(f);
                },
                Err(m) => {
                    return Err(m);
                },
            }
            i = i + 1;
        }
        let weekday = fields.pop().unwrap();
        let month = fields.pop().unwrap();
        let day = fields.pop().unwrap();
        let hour = fields.pop().unwrap();
        let minute = fields.pop().unwrap();
        Ok(CronExpr { minute, hour, day, month, weekday })
    }
}

impl std::str::FromStr for CronExpr {
    type Err = String;

    fn from_str(s: &str) -> (r: Result<CronExpr, String>)
        ensures
            ({
                let ws = words_from(s@, 0);
                match r {
                    Ok(c) => ws.len() == 5 && first_field_error(ws, 0) is None && cron_ok(c)
                        && field_parsed(ws[0], c.minute) && field_parsed(ws[1], c.hour)
                        && field_parsed(ws[2], c.day) && field_parsed(ws[3], c.month)
                        && field_parsed(ws[4], c.weekday),
                    Err(m) => if ws.len() != 5 {
                        m@ == "cron must have 5 fields, got "@ + decimal(ws.len())
                    } else {
                        first_field_error(ws, 0) == Some(m@)
                    },
                }
            }),
    {
        CronExpr::parse_str(s)
    }
}


// ---------------------------------------------------------------------------
// The next firing time
// ---------------------------------------------------------------------------

/// The error of parsing expression text `s`, if it is rejected.
pub open spec fn cron_error(s: Seq<char>) -> Option<Seq<char>> {
    let ws = words_from(s, 0);
    if ws.len() != 5 {
        Some("cron must have 5 fields, got "@ + decimal(ws.len()))
    } else {
        first_field_error(ws, 0)
    }
}

/// Whether `v` satisfies the accepted field text `t`.
pub open spec fn text_matches(t: Seq<char>, v: usize) -> bool {
    if t == "*"@ {
        true
    } else if t.len() >= 2 && t[0] == '*' && t[1] == '/' {
        v % usize_literal(t.subrange(2, t.len() as int))->0 == 0
    } else if t.contains(',') {
        split_from(t, ',', 0).map_values(|p: Seq<char>| usize_literal(p)->0).contains(v)
    } else if t.contains('-') {
        let parts = split_from(t, '-', 0);
        usize_literal(parts[0])->0 <= v && v <= usize_literal(parts[1])->0
    } else {
        v == usize_literal(t)->0
    }
}

/// A parsed field matches exactly what its text says.
proof fn lemma_parsed_field_matches(t: Seq<char>, f: Field, v: usize)
    requires
        field_parsed(t, f),
    ensures
        field_matches(f, v) == text_matches(t, v),
{
    if t != "*"@ && !(t.len() >= 2 && t[0] == '*' && t[1] == '/') && !t.contains(',') && !t.contains('-') {
        if let Field::Values(vs) = f {
            let x = usize_literal(t)->0;
            assert(vs@ == seq![x]);
            if vs@.contains(v) {
                let j = choose|j: int| 0 <= j < vs@.len() && vs@[j] == v;
                assert(vs@[j] == x);
            }
            if v == x {
                assert(vs@[0] == v);
            }
        }
    }
}

/// The five field texts `ws` match the calendar reading `c` (minute, hour,
/// day of month, month, day of week).
pub open spec fn cron_text_matches(ws: Seq<Seq<char>>, c: (u32, u32, u32, u32, u32)) -> bool {
    &&& text_matches(ws[0], c.0 as usize)
    &&& text_matches(ws[1], c.1 as usize)
    &&& text_matches(ws[2], c.2 as usize)
    &&& text_matches(ws[3], c.3 as usize)
    &&& text_matches(ws[4], c.4 as usize)
}

/// How many minutes ahead the next firing is looked for: one leap year.
pub const CRON_HORIZON_MINUTES: i128 = 527040i128;

/// The start of the minute holding the instant `secs`.
pub open spec fn minute_start(secs: int) -> int {
    secs - secs % 60
}

/// The field texts `ws` fire at the instant `t` (whole seconds): it is a
/// representable instant whose calendar reading they match.
pub open spec fn fires_at(ws: Seq<Seq<char>>, t: int) -> bool {
    &&& i64::MIN <= t <= i64::MAX
    &&& match utc_calendar(t as i64) {
        Some(c) => cron_text_matches(ws, c),
        None => false,
    }
}

/// The first of the minutes `start + 60 * k`, for `m <= k <=` the horizon,
/// at which `ws` fires.
pub open spec fn first_firing(ws: Seq<Seq<char>>, start: int, m: int) -> Option<int>
    decreases 527041 - m,
{
    if m > 527040 {
        None
    } else if fires_at(ws, start + 60 * m) {
        Some(start + 60 * m)
    } else {
        first_firing(ws, start, m + 1)
    }
}

/// The next time an accepted expression `s` fires after the instant
/// `from`: the first whole minute strictly after the minute holding `from`
/// that it matches, looking one year ahead.
pub open spec fn cron_next(s: Seq<char>, from: int) -> Option<int> {
    first_firing(words_from(s, 0), minute_start(from), 1)
}

/// What the search from minute offset `m` finds: a firing minute at an
/// offset `k` in `m..=` the horizon, with no firing minute at the offsets
/// before it.
proof fn lemma_first_firing_is_first(ws: Seq<Seq<char>>, start: int, m: int)
    requires
        first_firing(ws, start, m) is Some,
    ensures
        ({
            let t = first_firing(ws, start, m)->0;
            let k = (t - start) / 60;
            &&& t == start + 60 * k
            &&& m <= k <= 527040
            &&& fires_at(ws, t)
            &&& forall|j: int| m <= j < k ==> !#[trigger] fires_at(ws, start + 60 * j)
        }),
    decreases 527041 - m,
{
    if m <= 527040 && !fires_at(ws, start + 60 * m) {
        lemma_first_firing_is_first(ws, start, m + 1);
    } else {
        assert((60 * m) / 60 == m) by (nonlinear_arith);
    }
}

/// The next firing of an expression is a whole minute strictly after
/// `from` at which it fires, and it fires at no whole minute in between.
pub proof fn lemma_cron_next_is_next(s: Seq<char>, from: int)
    requires
        cron_next(s, from) is Some,
    ensures
        ({
            let t = cron_next(s, from)->0;
            let ws = words_from(s, 0);
            &&& from < t
            &&& t % 60 == 0
            &&& fires_at(ws, t)
            &&& forall|u: int| from < u < t && u % 60 == 0 ==> !#[trigger] fires_at(ws, u)
        }),
{
    let ws = words_from(s, 0);
    let start = minute_start(from);
    lemma_first_firing_is_first(ws, start, 1);
    let t = cron_next(s, from)->0;
    let k = (t - start) / 60;
    assert(start % 60 == 0) by {
        vstd::arithmetic::div_mod::lemma_fundamental_div_mod(from, 60);
        vstd::arithmetic::div_mod::lemma_mod_multiples_basic(from / 60, 60);
    }
    assert(t % 60 == 0) by {
        vstd::arithmetic::div_mod::lemma_fundamental_div_mod(from, 60);
        vstd::arithmetic::div_mod::lemma_mod_multiples_basic(from / 60 + k, 60);
        assert(t == 60 * (from / 60 + k));
    }
    assert forall|u: int| from < u < t && u % 60 == 0 implies !#[trigger] fires_at(ws, u) by {
        vstd::arithmetic::div_mod::lemma_fundamental_div_mod(u, 60);
        vstd::arithmetic::div_mod::lemma_fundamental_div_mod(from, 60);
        let j = u / 60 - from / 60;
        assert(u == start + 60 * j);
        assert(1 <= j) by (nonlinear_arith)
            requires
                u == start + 60 * j,
                start <= from < u,
                start > from - 60,
        ;
        assert(j < k) by (nonlinear_arith)
            requires
                u == start + 60 * j,
                t == start + 60 * k,
                u < t,
        ;
    }
}

/// The start of the minute holding `secs`, in a wider type.
fn minute_floor(secs: i64) -> (r: i128)
    ensures
        r == minute_start(secs as int),
{
    if secs >= 0 {
        let u: u64 = secs as u64;
        let rem: u64 = u % 60;
        proof {
            vstd::arithmetic::div_mod::lemma_fundamental_div_mod(u as int, 60);
            vstd::arithmetic::div_mod::lemma_fundamental_div_mod_converse(secs as int, 60, (u / 60) as int, rem as int);
        }
        secs as i128 - rem as i128
    } else {
        let a: u128 = (-(secs as i128 + 1)) as u128;
        let rem: u128 = a % 60;
        proof {
            vstd::arithmetic::div_mod::lemma_fundamental_div_mod(a as int, 60);
            vstd::arithmetic::div_mod::lemma_fundamental_div_mod_converse(
                secs as int,
                60,
                -((a / 60) as int) - 1,
                59 - rem as int,
            );
        }
        secs as i128 - (59 - rem as i128)
    }
}

/// The next time the cron expression `expression` fires after the instant
/// `from` (whole seconds since the Unix epoch): the first whole minute
/// strictly after the minute holding `from` whose UTC calendar reading it
/// matches, looking one year ahead. A rejected expression gives its parse
/// error; when no minute of that year matches, the error says so.
pub fn next_run(expression: &str, from: i64) -> (r: Result<i64, String>)
    ensures
        match cron_error(expression@) {
            Some(m) => r matches Err(e) && e@ == m,
            None => match cron_next(expression@, from as int) {
                Some(t) => r == Ok::<i64, String>(t as i64) && i64::MIN <= t <= i64::MAX,
                None => r matches Err(e) && e@ == "no time within a year matches the expression"@,
            },
        },
{
    let expr = match CronExpr::parse_str(expression) {
        Ok(c) => c,
        Err(m) => {
            return Err(m);
        },
    };
    let ghost ws = words_from(expression@, 0);
    let start = minute_floor(from);
    let mut m: i128 = 1;
    while m <= CRON_HORIZON_MINUTES
        invariant
            1 <= m <= CRON_HORIZON_MINUTES + 1,
            start == minute_start(from as int),
            from as int - 59 <= start <= from as int,
            ws == words_from(expression@, 0),
            ws.len() == 5,
            cron_error(expression@) is None,
            cron_ok(expr),
            field_parsed(ws[0], expr.minute),
            field_parsed(ws[1], expr.hour),
            field_parsed(ws[2], expr.day),
            field_parsed(ws[3], expr.month),
            field_parsed(ws[4], expr.weekday),
            first_firing(ws, start as int, 1) == first_firing(ws, start as int, m as int),
        decreases CRON_HORIZON_MINUTES + 1 - m,
    {
        let t: i128 = start + 60 * m;
        if i64::MIN as i128 <= t && t <= i64::MAX as i128 {
            let t64: i64 = t as i64;
            match utc_calendar_fields(t64) {
                Some(c) => {
                    let (mi, h, d, mo, wd) = c;
                    proof {
                        lemma_parsed_field_matches(ws[0], expr.minute, mi as usize);
                        lemma_parsed_field_matches(ws[1], expr.hour, h as usize);
                        lemma_parsed_field_matches(ws[2], expr.day, d as usize);
                        lemma_parsed_field_matches(ws[3], expr.month, mo as usize);
                        lemma_parsed_field_matches(ws[4], expr.weekday, wd as usize);
                    }
                    if expr.matches(mi as usize, h as usize, d as usize, mo as usize, wd as usize) {
                        return Ok(t64);
                    }
                },
                None => {},
            }
        }
        m = m + 1;
    }
    Err(String::from_str("no time within a year matches the expression"))
}

} // verus!
