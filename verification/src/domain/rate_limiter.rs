//! Rate limits as written on the command line: `10/s`, `60/m`, `3600/h`,
//! or a bare number meaning per second. Reading the number and turning it
//! into tokens per second is floating-point work, done outside the library.

use vstd::prelude::*;

use crate::cron_parser::{find_char_from, lemma_find_char_bounds};
use crate::domain::recipes::{string_from_range, trim_range, trim_seq};
use crate::text::chars_of;

verus! {

/// How many seconds a rate unit spans: `s`, `sec` and `second` one; `m`,
/// `min` and `minute` sixty; `h`, `hr` and `hour` 3600; other units none.
pub open spec fn unit_seconds(u: Seq<char>) -> Option<u32> {
    if u == "s"@ || u == "sec"@ || u == "second"@ {
        Some(1u32)
    } else if u == "m"@ || u == "min"@ || u == "minute"@ {
        Some(60u32)
    } else if u == "h"@ || u == "hr"@ || u == "hour"@ {
        Some(3600u32)
    } else {
        None
    }
}

/// A rate limit as written: the text of its amount, and how many seconds
/// its unit spans.
#[derive(Debug, Clone, PartialEq, Eq)]
pub struct RateSpec {
    pub amount: String,
    pub per_seconds: u32,
}

/// The parts of a written rate limit once white space is trimmed from both
/// ends: none for empty text; for `amount/unit` (split at the first `/`)
/// the amount and the unit's seconds, none for an unknown unit; otherwise
/// the whole text as an amount per second.
pub open spec fn rate_spec_of(s: Seq<char>) -> Option<(Seq<char>, u32)> {
    let t = trim_seq(s);
    if t.len() == 0 {
        None
    } else {
        let p = find_char_from(t, '/', 0);
        if p < 0 {
            Some((t, 1u32))
        } else {
            match unit_seconds(t.subrange(p + 1, t.len() as int)) {
                Some(n) => Some((t.subrange(0, p), n)),
                None => None,
            }
        }
    }
}

proof fn lemma_find_char_first(t: Seq<char>, c: char, k: int, m: int)
    requires
        0 <= k <= m < t.len(),
        t[m] == c,
        forall|j: int| k <= j < m ==> t[j] != c,
    ensures
        find_char_from(t, c, k) == m,
    decreases m - k,
{
    if k < m {
        lemma_find_char_first(t, c, k + 1, m);
    }
}

fn unit_span(u: &String) -> (r: Option<u32>)
    ensures
        r == unit_seconds(u@),
{
    if *u == String::from_str("s") || *u == String::from_str("sec") || *u == String::from_str("second") {
        Some(1)
    } else if *u == String::from_str("m") || *u == String::from_str("min") || *u == String::from_str("minute") {
        Some(60)
    } else if *u == String::from_str("h") || *u == String::from_str("hr") || *u == String::from_str("hour") {
        Some(3600)
    } else {
        None
    }
}

/// Splits a written rate limit into its amount and unit: see
/// `rate_spec_of`.
pub fn parse_rate_spec(s: &str) -> (r: Option<RateSpec>)
    ensures
        match rate_spec_of(s@) {
            Some(p) => r matches Some(x) && x.amount@ == p.0 && x.per_seconds == p.1,
            None => r is None,
        },
{
    let cs = chars_of(s);
    let (a, b) = trim_range(&cs, 0, cs.len());
    let ghost t = cs@.subrange(a as int, b as int);
    proof {
        assert(cs@.subrange(0, cs@.len() as int) =~= cs@);
        assert(t == trim_seq(s@));
    }
    if a == b {
        return None;
    }
    let mut k: usize = a;
    while k < b
        invariant
            a <= k <= b <= cs@.len(),
            a < b,
            t == cs@.subrange(a as int, b as int),
            t == trim_seq(s@),
            forall|j: int| a <= j < k ==> cs@[j] != '/',
        decreases b - k,
    {
        if cs[k] == '/' {
            proof {
                assert forall|j: int| 0 <= j < k - a implies t[j] != '/' by {
                    assert(t[j] == cs@[a + j]);
                }
                assert(t[k - a] == '/');
                lemma_find_char_first(t, '/', 0, k - a);
            }
            let unit = string_from_range(&cs, k + 1, b);
            proof {
                assert(unit@ =~= t.subrange(k - a + 1, t.len() as int));
            }
            return match unit_span(&unit) {
                Some(n) => {
                    let amount = string_from_range(&cs, a, k);
                    proof {
                        assert(amount@ =~= t.subrange(0, k - a));
                    }
                    Some(RateSpec { amount, per_seconds: n })
                },
                None => None,
            };
        }
        k = k + 1;
    }
    proof {
        lemma_find_char_bounds(t, '/', 0);
        if find_char_from(t, '/', 0) >= 0 {
            let p = find_char_from(t, '/', 0);
            assert(t[p] == cs@[a + p]);
        }
    }
    let amount = string_from_range(&cs, a, b);
    Some(RateSpec { amount, per_seconds: 1 })
}

} // verus!
