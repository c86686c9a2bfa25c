//! Log severity levels and their names. Parsing is case-insensitive over
//! ASCII letters.

use vstd::prelude::*;
use vstd::string::StrSliceExecFns;

verus! {

/// Severity of a log entry, from least to most severe.
#[derive(Debug, Clone, Copy, PartialEq, Eq, Structural)]
pub enum LogLevel {
    Trace,
    Debug,
    Info,
    Warning,
    Error,
    Critical,
}

/// A character with any ASCII lowercase letter raised to uppercase.
pub open spec fn ascii_upper_char(c: char) -> char {
    if 'a' <= c && c <= 'z' {
        ((c as u8) - 32) as char
    } else {
        c
    }
}

/// A character sequence with ASCII letters raised to uppercase.
pub open spec fn ascii_upper(s: Seq<char>) -> Seq<char> {
    s.map_values(|c: char| ascii_upper_char(c))
}

/// The level a name denotes, after raising ASCII letters to uppercase.
pub open spec fn spec_level_of(s: Seq<char>) -> Option<LogLevel> {
    let u = ascii_upper(s);
    if u == "TRACE"@ {
        Some(LogLevel::Trace)
    } else if u == "DEBUG"@ {
        Some(LogLevel::Debug)
    } else if u == "INFO"@ {
        Some(LogLevel::Info)
    } else if u == "WARNING"@ {
        Some(LogLevel::Warning)
    } else if u == "ERROR"@ {
        Some(LogLevel::Error)
    } else if u == "CRITICAL"@ {
        Some(LogLevel::Critical)
    } else {
        None
    }
}

/// The canonical name of a level.
pub open spec fn spec_level_name(level: LogLevel) -> Seq<char> {
    match level {
        LogLevel::Trace => "TRACE"@,
        LogLevel::Debug => "DEBUG"@,
        LogLevel::Info => "INFO"@,
        LogLevel::Warning => "WARNING"@,
        LogLevel::Error => "ERROR"@,
        LogLevel::Critical => "CRITICAL"@,
    }
}

impl LogLevel {
    /// The canonical uppercase name of this level.
    pub fn as_str(&self) -> (r: &'static str)
        ensures
            r@ == spec_level_name(*self),
    {
        match self {
            LogLevel::Trace => "TRACE",
            LogLevel::Debug => "DEBUG",
            LogLevel::Info => "INFO",
            LogLevel::Warning => "WARNING",
            LogLevel::Error => "ERROR",
            LogLevel::Critical => "CRITICAL",
        }
    }

    /// Parse a level name, ignoring ASCII case.
    pub fn from_str(s: &str) -> (r: Option<LogLevel>)
        ensures
            r == spec_level_of(s@),
    {
        if eq_upper(s, "TRACE") {
            Some(LogLevel::Trace)
        } else if eq_upper(s, "DEBUG") {
            Some(LogLevel::Debug)
        } else if eq_upper(s, "INFO") {
            Some(LogLevel::Info)
        } else if eq_upper(s, "WARNING") {
            Some(LogLevel::Warning)
        } else if eq_upper(s, "ERROR") {
            Some(LogLevel::Error)
        } else if eq_upper(s, "CRITICAL") {
            Some(LogLevel::Critical)
        } else {
            proof {
                reveal_strlit("TRACE");
                reveal_strlit("DEBUG");
                reveal_strlit("INFO");
                reveal_strlit("WARNING");
                reveal_strlit("ERROR");
                reveal_strlit("CRITICAL");
            }
            None
        }
    }
}

/// Raise an ASCII lowercase letter to uppercase.
fn upper_char(c: char) -> (r: char)
    ensures
        r == ascii_upper_char(c),
{
    if 'a' <= c && c <= 'z' {
        ((c as u8) - 32) as char
    } else {
        c
    }
}

/// Whether `s`, raised to ASCII uppercase, equals `lit`.
fn eq_upper(s: &str, lit: &str) -> (r: bool)
    ensures
        r == (ascii_upper(s@) == lit@),
{
    let n = s.unicode_len();
    let m = lit.unicode_len();
    if n != m {
        proof {
            assert(ascii_upper(s@).len() == s@.len());
        }
        return false;
    }
    let mut i: usize = 0;
    while i < n
        invariant
            n == s@.len(),
            n == lit@.len(),
            i <= n,
            forall|j: int| 0 <= j < i ==> ascii_upper_char(s@[j]) == lit@[j],
        decreases n - i,
    {
        if upper_char(s.get_char(i)) != lit.get_char(i) {
            proof {
                assert(ascii_upper(s@)[i as int] == ascii_upper_char(s@[i as int]));
            }
            return false;
        }
        i = i + 1;
    }
    proof {
        assert(ascii_upper(s@) =~= lit@);
    }
    true
}

} // verus!
