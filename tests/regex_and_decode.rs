use name_cleaner::decode::decode;
use name_cleaner::error::PipelineError;
use name_cleaner::regex_stage::{LogSuspicious, RegexReplace};

#[test]
fn regex_replace_is_case_insensitive() {
    let r = RegexReplace::new(r"(^|\W)rte(\W|$)", "${1}Route${2}").unwrap();
    assert_eq!(r.process("RTE de Paris"), "Route de Paris");
    assert_eq!(r.process("Porte de Paris"), "Porte de Paris");
}

#[test]
fn regex_replace_rewrites_every_match() {
    let r = RegexReplace::new(r"[_ ]+", " ").unwrap();
    assert_eq!(r.process("a__b   c"), "a b c");
}

#[test]
fn bad_pattern_is_refused() {
    match RegexReplace::new("(unclosed", "x") {
        Err(PipelineError::BadRegex { pattern, .. }) => assert_eq!(pattern, "(unclosed"),
        _ => panic!("expected a regex error"),
    }
    assert!(matches!(
        LogSuspicious::new("[z-a]"),
        Err(PipelineError::BadRegex { .. })
    ));
}

#[test]
fn log_suspicious_lists_matches() {
    let l = LogSuspicious::new(r"[,;]").unwrap();
    assert_eq!(l.process("Gare, Nord; Est"), vec![",", ";"]);
    assert!(l.process("Gare du Nord").is_empty());
}

#[test]
fn decode_repairs_double_encoding() {
    assert_eq!(decode("NapolÃ©on", "latin1").unwrap(), "Napoléon");
    assert_eq!(decode("ChÃ¢telet", "windows-1252").unwrap(), "Châtelet");
}

#[test]
fn decode_keeps_name_when_bytes_are_not_utf8() {
    assert_eq!(decode("é", "latin1").unwrap(), "é");
}

#[test]
fn decode_keeps_name_when_encoding_cannot_represent_it() {
    assert_eq!(decode("Łódź", "latin1").unwrap(), "Łódź");
}

#[test]
fn decode_refuses_unknown_label() {
    match decode("abc", "no-such-encoding") {
        Err(PipelineError::UnknownEncoding { label }) => assert_eq!(label, "no-such-encoding"),
        _ => panic!("expected an encoding error"),
    }
}
