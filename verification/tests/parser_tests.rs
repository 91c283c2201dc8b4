use edisondb::eql::{parse, Expected, ParseError, Statement, Tier};

#[test]
fn parse_write_critical() {
    assert_eq!(
        parse("WRITE rec-1 TIER CRITICAL my secret").unwrap(),
        Statement::Write { id: "rec-1".into(), tier: Tier::Critical, payload: "my secret".into() }
    );
}

#[test]
fn parse_write_personal() {
    assert_eq!(
        parse("WRITE note TIER PERSONAL birthday reminder").unwrap(),
        Statement::Write { id: "note".into(), tier: Tier::Personal, payload: "birthday reminder".into() }
    );
}

#[test]
fn parse_write_noise() {
    assert_eq!(
        parse("WRITE log1 TIER NOISE server started").unwrap(),
        Statement::Write { id: "log1".into(), tier: Tier::Noise, payload: "server started".into() }
    );
}

#[test]
fn parse_read() {
    assert_eq!(parse("READ rec-1").unwrap(), Statement::Read { id: "rec-1".into() });
}

#[test]
fn parse_list_all() {
    assert_eq!(parse("LIST").unwrap(), Statement::List { tier: None });
}

#[test]
fn parse_list_tier() {
    assert_eq!(parse("LIST TIER CRITICAL").unwrap(), Statement::List { tier: Some(Tier::Critical) });
}

#[test]
fn parse_delete_stmt() {
    assert_eq!(parse("DELETE rec-1").unwrap(), Statement::Delete { id: "rec-1".into() });
}

#[test]
fn parse_audit_global() {
    assert_eq!(parse("AUDIT").unwrap(), Statement::Audit { id: None });
}

#[test]
fn parse_audit_specific() {
    assert_eq!(parse("AUDIT rec-1").unwrap(), Statement::Audit { id: Some("rec-1".into()) });
}

#[test]
fn parse_case_insensitive() {
    assert!(parse("write k1 tier critical hello").is_ok());
    assert!(parse("read k1").is_ok());
    assert!(parse("list tier noise").is_ok());
}

#[test]
fn parse_unknown_tier_fails() {
    assert!(parse("WRITE k1 TIER SECRET payload").is_err());
}

#[test]
fn parse_empty_fails() {
    assert!(parse("").is_err());
}

#[test]
fn unknown_tier_is_named_upper_case() {
    assert_eq!(parse("WRITE k1 TIER secret payload"), Err(ParseError::UnknownTier("SECRET".into())));
}

#[test]
fn lower_case_statement_keeps_id_and_payload_case() {
    assert_eq!(
        parse("write Key1 tier personal Hello World").unwrap(),
        Statement::Write { id: "Key1".into(), tier: Tier::Personal, payload: "Hello World".into() }
    );
}

#[test]
fn surrounding_blanks_are_ignored() {
    assert_eq!(parse("   READ   k9   ").unwrap(), Statement::Read { id: "k9".into() });
}

#[test]
fn unknown_keyword_is_a_syntax_error() {
    assert!(matches!(parse("SELECT k1"), Err(ParseError::Syntax { .. })));
}

#[test]
fn write_without_payload_fails() {
    assert!(matches!(parse("WRITE k1 TIER NOISE"), Err(ParseError::Syntax { .. })));
}

#[test]
fn read_with_trailing_words_fails() {
    assert!(matches!(parse("READ k1 extra"), Err(ParseError::Syntax { .. })));
}

#[test]
fn empty_input_expects_a_keyword() {
    assert_eq!(parse(""), Err(ParseError::Syntax { at: 0, expected: Expected::Keyword }));
}

#[test]
fn tier_names() {
    assert_eq!(Tier::Critical.name(), "CRITICAL");
    assert_eq!(Tier::Personal.name(), "PERSONAL");
    assert_eq!(Tier::Noise.name(), "NOISE");
}

#[test]
fn mixed_case_forms_parse() {
    assert_eq!(parse("DeLeTe x").unwrap(), Statement::Delete { id: "x".into() });
    assert_eq!(parse("Audit K1").unwrap(), Statement::Audit { id: Some("K1".into()) });
    assert_eq!(parse("list Tier Personal").unwrap(), Statement::List { tier: Some(Tier::Personal) });
    assert_eq!(parse("audit").unwrap(), Statement::Audit { id: None });
    assert_eq!(
        parse("Write k Tier noise a  b").unwrap(),
        Statement::Write { id: "k".into(), tier: Tier::Noise, payload: "a  b".into() }
    );
}

#[test]
fn tier_names_resolve_by_unicode_upper_case() {
    // U+0131 (dotless i) upper-cases to 'I'.
    assert_eq!(parse("LIST TIER crıtıcal").unwrap(), Statement::List { tier: Some(Tier::Critical) });
    assert_eq!(parse("LIST TIER straße"), Err(ParseError::UnknownTier("STRASSE".into())));
}
