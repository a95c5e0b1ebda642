use query::identifier::parse_identifier;
use query::text::decimal_string;

#[test]
fn test_parse_identifier() {
    assert_eq!(parse_identifier("ENG-123"), Some(("ENG".to_string(), 123)));
    assert_eq!(parse_identifier("DP-1"), Some(("DP".to_string(), 1)));
    assert_eq!(parse_identifier("invalid"), None);
    assert_eq!(parse_identifier("ENG-abc"), None);
}

#[test]
fn identifier_number_signs() {
    assert_eq!(parse_identifier("ENG-+5"), Some(("ENG".to_string(), 5)));
    assert_eq!(parse_identifier("ENG--5"), None);
    assert_eq!(parse_identifier("-7"), Some(("".to_string(), 7)));
    assert_eq!(parse_identifier("ENG-"), None);
    assert_eq!(parse_identifier("ENG-+"), None);
    assert_eq!(parse_identifier("ENG-12a"), None);
    assert_eq!(parse_identifier("ENG- 12"), None);
    assert_eq!(parse_identifier("A-B-1"), None);
    assert_eq!(parse_identifier("ÉQUIPE-0042"), Some(("ÉQUIPE".to_string(), 42)));
}

#[test]
fn identifier_number_range() {
    assert_eq!(
        parse_identifier("X-9223372036854775807"),
        Some(("X".to_string(), i64::MAX))
    );
    assert_eq!(parse_identifier("X-9223372036854775808"), None);
    assert_eq!(parse_identifier("X-99999999999999999999999"), None);
    assert_eq!(parse_identifier("X-0000000000000000000000001"), Some(("X".to_string(), 1)));
}

#[test]
fn identifier_round_trip() {
    for n in [0usize, 7, 10, 99, 12345, 4000000000] {
        let id = format!("TEAM-{}", decimal_string(n));
        assert_eq!(parse_identifier(&id), Some(("TEAM".to_string(), n as i64)));
    }
}

#[test]
fn decimal_rendering() {
    assert_eq!(decimal_string(0), "0");
    assert_eq!(decimal_string(9), "9");
    assert_eq!(decimal_string(10), "10");
    assert_eq!(decimal_string(1203), "1203");
    assert_eq!(decimal_string(usize::MAX), usize::MAX.to_string());
}
