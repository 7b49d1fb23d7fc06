//! Colour output modes for terminal styling, following the `NO_COLOR`,
//! `CLICOLOR_FORCE` and `CLICOLOR` conventions.

use vstd::prelude::*;

use crate::external::stdout_is_terminal;

verus! {

/// Colour output mode.
#[derive(Debug, Clone, Copy, PartialEq, Eq, Structural, Default)]
pub enum ColorChoice {
    /// Colour only when standard output is a terminal.
    #[default]
    Auto,
    /// Always emit ANSI colour sequences.
    Always,
    /// Never emit ANSI colour sequences.
    Never,
}

/// The mode the environment asks for: `NO_COLOR` set to anything
/// non-empty disables colour; otherwise `CLICOLOR_FORCE=1` forces it;
/// otherwise `CLICOLOR=0` disables it; otherwise automatic.
pub open spec fn env_choice(no_color: Option<Seq<char>>, clicolor_force: Option<Seq<char>>, clicolor: Option<Seq<char>>) -> ColorChoice {
    if no_color matches Some(v) && v.len() > 0 {
        ColorChoice::Never
    } else if clicolor_force == Some("1"@) {
        ColorChoice::Always
    } else if clicolor == Some("0"@) {
        ColorChoice::Never
    } else {
        ColorChoice::Auto
    }
}

/// The mode a name stands for: `auto`; `always`, `yes` or `true`;
/// `never`, `no` or `false`.
pub open spec fn color_named(t: Seq<char>) -> Option<ColorChoice> {
    if t == "auto"@ {
        Some(ColorChoice::Auto)
    } else if t == "always"@ || t == "yes"@ || t == "true"@ {
        Some(ColorChoice::Always)
    } else if t == "never"@ || t == "no"@ || t == "false"@ {
        Some(ColorChoice::Never)
    } else {
        None
    }
}

/// Whether colour is emitted in mode `c` when standard output is (`tty`)
/// or is not a terminal.
pub open spec fn colors(c: ColorChoice, tty: bool) -> bool {
    c == ColorChoice::Always || (c == ColorChoice::Auto && tty)
}

/// The view of an optional string.
pub open spec fn opt_view(o: Option<String>) -> Option<Seq<char>> {
    match o {
        Some(s) => Some(s@),
        None => None,
    }
}

/// The text of a colour mode (what `Display` renders).
pub open spec fn color_name(c: ColorChoice) -> Seq<char> {
    match c {
        ColorChoice::Auto => "auto"@,
        ColorChoice::Always => "always"@,
        ColorChoice::Never => "never"@,
    }
}

fn opt_equals(o: &Option<String>, lit: &str) -> (r: bool)
    ensures
        r == (opt_view(*o) == Some(lit@)),
{
    match o {
        Some(s) => *s == String::from_str(lit),
        None => false,
    }
}

impl ColorChoice {
    /// The mode asked for by the values of the `NO_COLOR`,
    /// `CLICOLOR_FORCE` and `CLICOLOR` environment variables (`None` when
    /// unset), in that order of priority.
    pub fn from_env_values(no_color: Option<String>, clicolor_force: Option<String>, clicolor: Option<String>) -> (r: Self)
        ensures
            r == env_choice(opt_view(no_color), opt_view(clicolor_force), opt_view(clicolor)),
    {
        let disabled = match &no_color {
            Some(v) => v.unicode_len() > 0,
            None => false,
        };
        if disabled {
            return ColorChoice::Never;
        }
        if opt_equals(&clicolor_force, "1") {
            return ColorChoice::Always;
        }
        if opt_equals(&clicolor, "0") {
            return ColorChoice::Never;
        }
        ColorChoice::Auto
    }

    /// Whether colour output should be emitted, given whether standard
    /// output is a terminal: always for `Always`, never for `Never`, and for
    /// `Auto` exactly when it is a terminal.
    pub fn want_color_given(self, stdout_is_tty: bool) -> (r: bool)
        ensures
            r == colors(self, stdout_is_tty),
    {
        match self {
            ColorChoice::Always => true,
            ColorChoice::Never => false,
            ColorChoice::Auto => stdout_is_tty,
        }
    }

    /// Whether colour output should be emitted: always for `Always`, never
    /// for `Never`, and for `Auto` when standard output is a terminal (read
    /// from the process, for `Auto` only).
    pub fn want_color(self) -> (r: bool)
        ensures
            exists|tty: bool| r == #[trigger] colors(self, tty),
            self != ColorChoice::Auto ==> r == colors(self, false),
    {
        let tty = match self {
            ColorChoice::Auto => stdout_is_terminal(),
            _ => false,
        };
        let r = self.want_color_given(tty);
        assert(r == colors(self, tty));
        r
    }

    /// `code` when colour is wanted given whether standard output is a
    /// terminal, the empty string otherwise.
    pub fn ansi_given<'a>(&self, stdout_is_tty: bool, code: &'a str) -> (r: &'a str)
        ensures
            r@ == (if colors(*self, stdout_is_tty) { code@ } else { ""@ }),
    {
        if self.want_color_given(stdout_is_tty) {
            code
        } else {
            ""
        }
    }

    /// `code` when colour is wanted, the empty string otherwise.
    pub fn ansi<'a>(&self, code: &'a str) -> (r: &'a str)
        ensures
            exists|tty: bool| r@ == (if #[trigger] colors(*self, tty) { code@ } else { ""@ }),
            *self != ColorChoice::Auto ==> r@ == (if colors(*self, false) { code@ } else { ""@ }),
    {
        let tty = match *self {
            ColorChoice::Auto => stdout_is_terminal(),
            _ => false,
        };
        let r = self.ansi_given(tty, code);
        assert(r@ == (if colors(*self, tty) { code@ } else { ""@ }));
        r
    }

    /// The ANSI reset sequence when colour is wanted given whether standard
    /// output is a terminal, the empty string otherwise.
    pub fn reset_given(&self, stdout_is_tty: bool) -> (r: &'static str)
        ensures
            r@ == (if colors(*self, stdout_is_tty) { "\x1b[0m"@ } else { ""@ }),
    {
        if self.want_color_given(stdout_is_tty) {
            "\x1b[0m"
        } else {
            ""
        }
    }

    /// The ANSI reset sequence when colour is wanted, the empty string
    /// otherwise.
    pub fn reset(&self) -> (r: &'static str)
        ensures
            exists|tty: bool| r@ == (if #[trigger] colors(*self, tty) { "\x1b[0m"@ } else { ""@ }),
            *self != ColorChoice::Auto ==> r@ == (if colors(*self, false) { "\x1b[0m"@ } else { ""@ }),
    {
        let tty = match *self {
            ColorChoice::Auto => stdout_is_terminal(),
            _ => false,
        };
        let r = self.reset_given(tty);
        assert(r@ == (if colors(*self, tty) { "\x1b[0m"@ } else { ""@ }));
        r
    }

    /// The mode's name (what `Display` renders).
    pub fn to_string(&self) -> (r: String)
        ensures
            r@ == color_name(*self),
    {
        match self {
            ColorChoice::Auto => String::from_str("auto"),
            ColorChoice::Always => String::from_str("always"),
            ColorChoice::Never => String::from_str("never"),
        }
    }

    /// Reads a mode: `auto`; `always`, `yes` or `true`; `never`, `no` or
    /// `false`.
    pub fn parse_str(s: &str) -> (r: Result<ColorChoice, &'static str>)
        ensures
            match color_named(s@) {
                Some(c) => r == Ok::<ColorChoice, &'static str>(c),
                None => r matches Err(m) && m@ == "expected one of: auto, always, never"@,
            },
    {
        let t = String::from_str(s);
        if t == String::from_str("auto") {
            Ok(ColorChoice::Auto)
        } else if t == String::from_str("always") || t == String::from_str("yes") || t == String::from_str("true") {
            Ok(ColorChoice::Always)
        } else if t == String::from_str("never") || t == String::from_str("no") || t == String::from_str("false") {
            Ok(ColorChoice::Never)
        } else {
            Err("expected one of: auto, always, never")
        }
    }
}

impl std::str::FromStr for ColorChoice {
    type Err = &'static str;

    fn from_str(s: &str) -> (r: Result<ColorChoice, &'static str>)
        ensures
            match color_named(s@) {
                Some(c) => r == Ok::<ColorChoice, &'static str>(c),
                None => r matches Err(m) && m@ == "expected one of: auto, always, never"@,
            },
    {
        ColorChoice::parse_str(s)
    }
}

} // verus!
