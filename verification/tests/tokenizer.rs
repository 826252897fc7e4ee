use pagong::template::parse_u8;
use pagong::utils::parse_next_value;

fn chars_of(s: &str) -> Vec<char> {
    s.chars().collect()
}

#[test]
fn simple() {
    let string = chars_of("simple");
    let (value, _) = parse_next_value(&string, 0);
    assert_eq!(value, Some("simple".to_owned()));
}

#[test]
fn quoted() {
    let string = chars_of("\"quoted\"");
    let (value, _) = parse_next_value(&string, 0);
    assert_eq!(value, Some("quoted".to_owned()));
}

#[test]
fn good_escape() {
    let string = chars_of("\"good\\\" \\\"escape\"");
    let (value, _) = parse_next_value(&string, 0);
    assert_eq!(value, Some("good\" \"escape".to_owned()));
}

#[test]
fn bad_escape() {
    let string = chars_of("\"bad\\_escape\"");
    let (value, _) = parse_next_value(&string, 0);
    assert_eq!(value, Some("bad_escape".to_owned()));
}

#[test]
fn unterminated() {
    let string = chars_of("\"unterminated");
    let (value, _) = parse_next_value(&string, 0);
    assert_eq!(value, Some("unterminated".to_owned()));
}

#[test]
fn multiple() {
    let string = chars_of(" simple \t\"quoted\" \n \"\\\"escapes\\\\\" \n\t \r simple");
    let mut values = Vec::new();
    let mut pos = 0;
    loop {
        let (value, next) = parse_next_value(&string, pos);
        pos = next;
        match value {
            Some(v) => values.push(v),
            None => break,
        }
    }

    assert_eq!(values, vec!["simple", "quoted", "\"escapes\\", "simple"]);
}

#[test]
fn parse_u8_accepts_plain_and_signed() {
    assert_eq!(parse_u8("0"), Some(0));
    assert_eq!(parse_u8("42"), Some(42));
    assert_eq!(parse_u8("+7"), Some(7));
    assert_eq!(parse_u8("255"), Some(255));
}

#[test]
fn parse_u8_rejects_bad_input() {
    assert_eq!(parse_u8(""), None);
    assert_eq!(parse_u8("+"), None);
    assert_eq!(parse_u8("256"), None);
    assert_eq!(parse_u8("999999"), None);
    assert_eq!(parse_u8("4x"), None);
    assert_eq!(parse_u8("-1"), None);
}
