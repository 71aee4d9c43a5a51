use logpeaks::errors::ParseError;
use logpeaks::severity::{parse_severity, Severity};

#[test]
fn parse_all_known_tokens() {
    assert_eq!(parse_severity("DEBUG"), Ok(Severity::Debug));
    assert_eq!(parse_severity("LOG"), Ok(Severity::Log));
    assert_eq!(parse_severity("INFO"), Ok(Severity::Info));
    assert_eq!(parse_severity("NOTICE"), Ok(Severity::Notice));
    assert_eq!(parse_severity("WARNING"), Ok(Severity::Warning));
    assert_eq!(parse_severity("ERROR"), Ok(Severity::Error));
    assert_eq!(parse_severity("FATAL"), Ok(Severity::Fatal));
    assert_eq!(parse_severity("PANIC"), Ok(Severity::Panic));
}

#[test]
fn unknown_token_is_an_error_not_a_default() {
    assert_eq!(parse_severity("ERRR"), Err(ParseError::UnknownSeverity));
    assert_eq!(parse_severity(""), Err(ParseError::UnknownSeverity));
    assert_eq!(parse_severity("error"), Err(ParseError::UnknownSeverity));
    assert_eq!(parse_severity("ERROR "), Err(ParseError::UnknownSeverity));
}

#[test]
fn name_round_trips_losslessly() {
    let all: [Severity; 8] = [
        Severity::Debug,
        Severity::Log,
        Severity::Info,
        Severity::Notice,
        Severity::Warning,
        Severity::Error,
        Severity::Fatal,
        Severity::Panic,
    ];
    for s in all {
        assert_eq!(parse_severity(s.name()), Ok(s));
    }
}

#[test]
fn ranks_increase_with_criticality() {
    let all: [Severity; 8] = [
        Severity::Debug,
        Severity::Log,
        Severity::Info,
        Severity::Notice,
        Severity::Warning,
        Severity::Error,
        Severity::Fatal,
        Severity::Panic,
    ];
    for w in all.windows(2) {
        assert!(w[0].rank() < w[1].rank());
    }
    assert_eq!(Severity::Debug.rank(), 0);
    assert_eq!(Severity::Error.rank(), 5);
    assert_eq!(Severity::Panic.rank(), 7);
}
