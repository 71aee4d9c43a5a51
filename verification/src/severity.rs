//! The ordered severity model: a closed enumeration of log levels with a
//! total order by integer rank and a lossless string round trip.

use vstd::prelude::*;
use vstd::string::StrSliceExecFns;
use crate::errors::ParseError;

verus! {

/// Ordered classification of log event criticality, least to most severe.
#[derive(Clone, Copy, PartialEq, Eq, Structural, Debug, Hash)]
pub enum Severity {
    Debug,
    Log,
    Info,
    Notice,
    Warning,
    Error,
    Fatal,
    Panic,
}

impl Severity {
    /// Canonical integer rank; a higher rank means a more severe event.
    pub open spec fn rank_spec(self) -> int {
        match self {
            Severity::Debug => 0,
            Severity::Log => 1,
            Severity::Info => 2,
            Severity::Notice => 3,
            Severity::Warning => 4,
            Severity::Error => 5,
            Severity::Fatal => 6,
            Severity::Panic => 7,
        }
    }

    /// Executable rank, used for threshold comparisons.
    pub fn rank(&self) -> (r: i32)
        ensures
            r as int == self.rank_spec(),
    {
        match self {
            Severity::Debug => 0,
            Severity::Log => 1,
            Severity::Info => 2,
            Severity::Notice => 3,
            Severity::Warning => 4,
            Severity::Error => 5,
            Severity::Fatal => 6,
            Severity::Panic => 7,
        }
    }

    /// The canonical token of this severity, as a character sequence.
    pub open spec fn name_spec(self) -> Seq<char> {
        match self {
            Severity::Debug => "DEBUG"@,
            Severity::Log => "LOG"@,
            Severity::Info => "INFO"@,
            Severity::Notice => "NOTICE"@,
            Severity::Warning => "WARNING"@,
            Severity::Error => "ERROR"@,
            Severity::Fatal => "FATAL"@,
            Severity::Panic => "PANIC"@,
        }
    }

    /// The canonical token of this severity.
    pub fn name(&self) -> (r: &'static str)
        ensures
            r@ == self.name_spec(),
    {
        match self {
            Severity::Debug => "DEBUG",
            Severity::Log => "LOG",
            Severity::Info => "INFO",
            Severity::Notice => "NOTICE",
            Severity::Warning => "WARNING",
            Severity::Error => "ERROR",
            Severity::Fatal => "FATAL",
            Severity::Panic => "PANIC",
        }
    }
}

/// Which severity, if any, a token names.
pub open spec fn severity_of_token(s: Seq<char>) -> Option<Severity> {
    if s == "DEBUG"@ {
        Some(Severity::Debug)
    } else if s == "LOG"@ {
        Some(Severity::Log)
    } else if s == "INFO"@ {
        Some(Severity::Info)
    } else if s == "NOTICE"@ {
        Some(Severity::Notice)
    } else if s == "WARNING"@ {
        Some(Severity::Warning)
    } else if s == "ERROR"@ {
        Some(Severity::Error)
    } else if s == "FATAL"@ {
        Some(Severity::Fatal)
    } else if s == "PANIC"@ {
        Some(Severity::Panic)
    } else {
        None
    }
}

/// Character-by-character string equality.
pub fn str_eq(a: &str, b: &str) -> (r: bool)
    ensures
        r <==> a@ == b@,
{
    let alen = a.unicode_len();
    let blen = b.unicode_len();
    if alen != blen {
        return false;
    }
    let mut i: usize = 0;
    while i < alen
        invariant
            i <= alen,
            alen == a@.len(),
            blen == b@.len(),
            alen == blen,
            forall|j: int| 0 <= j < i ==> a@[j] == b@[j],
        decreases alen - i,
    {
        if a.get_char(i) != b.get_char(i) {
            return false;
        }
        i = i + 1;
    }
    proof {
        assert(a@ =~= b@);
    }
    true
}

/// Maps an input token to its severity. An unrecognized token is an
/// `UnknownSeverity` error: it must never silently default, since that would
/// corrupt threshold filtering.
pub fn parse_severity(token: &str) -> (r: Result<Severity, ParseError>)
    ensures
        match severity_of_token(token@) {
            Some(s) => r == Ok::<Severity, ParseError>(s),
            None => r == Err::<Severity, ParseError>(ParseError::UnknownSeverity),
        },
{
    if str_eq(token, "DEBUG") {
        Ok(Severity::Debug)
    } else if str_eq(token, "LOG") {
        Ok(Severity::Log)
    } else if str_eq(token, "INFO") {
        Ok(Severity::Info)
    } else if str_eq(token, "NOTICE") {
        Ok(Severity::Notice)
    } else if str_eq(token, "WARNING") {
        Ok(Severity::Warning)
    } else if str_eq(token, "ERROR") {
        Ok(Severity::Error)
    } else if str_eq(token, "FATAL") {
        Ok(Severity::Fatal)
    } else if str_eq(token, "PANIC") {
        Ok(Severity::Panic)
    } else {
        Err(ParseError::UnknownSeverity)
    }
}

/// The string round trip is lossless: parsing a severity's canonical token
/// yields that severity back.
pub proof fn lemma_severity_token_roundtrip(s: Severity)
    ensures
        severity_of_token(s.name_spec()) == Some(s),
{
    reveal_strlit("DEBUG");
    reveal_strlit("LOG");
    reveal_strlit("INFO");
    reveal_strlit("NOTICE");
    reveal_strlit("WARNING");
    reveal_strlit("ERROR");
    reveal_strlit("FATAL");
    reveal_strlit("PANIC");
    assert(("DEBUG"@).len() == 5);
    assert(("LOG"@).len() == 3);
    assert(("INFO"@).len() == 4);
    assert(("NOTICE"@).len() == 6);
    assert(("WARNING"@).len() == 7);
    assert(("ERROR"@).len() == 5);
    assert(("FATAL"@).len() == 5);
    assert(("PANIC"@).len() == 5);
    assert(("DEBUG"@)[0] == 'D');
    assert(("ERROR"@)[0] == 'E');
    assert(("FATAL"@)[0] == 'F');
    assert(("PANIC"@)[0] == 'P');
}

/// The integer ranks order the severities exactly as their meaning does:
/// distinct severities have distinct ranks.
pub proof fn lemma_rank_injective(a: Severity, b: Severity)
    ensures
        a.rank_spec() == b.rank_spec() ==> a == b,
{
}

} // verus!
