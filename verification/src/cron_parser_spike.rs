//! A minimal cron parser front end: it accepts only the every-minute
//! expression `* * * * *` and reports every other one as not implemented.

use vstd::prelude::*;

use crate::domain::scheduler::{shifted, UtcTime};
use crate::text::push_str;

verus! {

/// Errors produced by [`CronParser`].
#[derive(Debug, PartialEq, Eq)]
pub enum CronError {
    /// The expression is not supported yet.
    NotImplemented(String),
    /// The expression is malformed.
    Invalid(String),
}

/// The message of a cron error (what `Display` renders).
pub open spec fn cron_error_message(e: CronError) -> Seq<char> {
    match e {
        CronError::NotImplemented(x) => "cron expression not yet implemented in this spike: "@ + x@,
        CronError::Invalid(x) => "invalid cron expression: "@ + x@,
    }
}

impl CronError {
    /// The human-readable message (what `Display` renders).
    pub fn to_string(&self) -> (r: String)
        ensures
            r@ == cron_error_message(*self),
    {
        match self {
            CronError::NotImplemented(x) => {
                let mut r = String::from_str("cron expression not yet implemented in this spike: ");
                push_str(&mut r, x.as_str());
                r
            },
            CronError::Invalid(x) => {
                let mut r = String::from_str("invalid cron expression: ");
                push_str(&mut r, x.as_str());
                r
            },
        }
    }
}

/// A parsed cron expression: its text as given.
#[derive(Debug, Clone, PartialEq, Eq)]
pub struct CronExpr {
    /// The expression as given.
    pub expression: String,
}

impl CronExpr {
    /// Whether this is the every-minute schedule `* * * * *`.
    pub fn is_every_minute(&self) -> (r: bool)
        ensures
            r == (self.expression@ == "* * * * *"@),
    {
        self.expression == String::from_str("* * * * *")
    }
}

/// A cron parser holding the last expression it accepted.
#[derive(Debug, Default)]
pub struct CronParser {
    inner: Option<CronExpr>,
}

impl CronParser {
    /// The last accepted expression.
    pub closed spec fn stored(self) -> Option<Seq<char>> {
        match self.inner {
            Some(c) => Some(c.expression@),
            None => None,
        }
    }

    /// A parser with no expression.
    pub fn new() -> (r: Self)
        ensures
            r.stored() is None,
    {
        CronParser { inner: None }
    }

    /// Accepts `* * * * *`, storing and returning it; every other
    /// expression fails with `NotImplemented` and leaves the parser as it
    /// was.
    pub fn parse(&mut self, expr: &str) -> (r: Result<CronExpr, CronError>)
        ensures
            expr@ == "* * * * *"@ ==> (r matches Ok(c) && c.expression@ == expr@
                && final(self).stored() == Some(expr@)),
            expr@ != "* * * * *"@ ==> (r matches Err(CronError::NotImplemented(x)) && x@ == expr@
                && final(self).stored() == old(self).stored()),
    {
        let e = String::from_str(expr);
        if e == String::from_str("* * * * *") {
            let stored = CronExpr { expression: e.clone() };
            self.inner = Some(stored);
            Ok(CronExpr { expression: e })
        } else {
            Err(CronError::NotImplemented(e))
        }
    }

    /// Whether an expression has been accepted.
    pub fn has_expression(&self) -> (r: bool)
        ensures
            r == self.stored() is Some,
    {
        self.inner.is_some()
    }

    /// The next fire time strictly after `base`: one minute later once an
    /// expression has been accepted (every accepted expression fires every
    /// minute), `None` before.
    pub fn next_after(&self, base: UtcTime) -> (r: Option<UtcTime>)
        requires
            base.secs + 60 <= i64::MAX,
        ensures
            r == (if self.stored() is Some {
                Some(shifted(base, 60))
            } else {
                None
            }),
    {
        if self.inner.is_some() {
            Some(UtcTime { secs: base.secs + 60, nanos: base.nanos })
        } else {
            None
        }
    }

    /// Whether `instant` matches the accepted expression: every instant
    /// does once one has been accepted, none before.
    pub fn matches(&self, instant: UtcTime) -> (r: bool)
        ensures
            r == self.stored() is Some,
    {
        self.inner.is_some()
    }
}

} // verus!
