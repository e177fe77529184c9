use afilia::filesystem::marker::parse_marker;
use afilia::filesystem::repository::RepositoryID;

const UUID: &str = "5e8cf2ce-57a0-40fc-a945-ceeaa16f8d97";
const SIGN: &str = "a1b2c3d4e5f60718293a4b5c6d7e8f90a1b2c3d4e5f60718293a4b5c6d7e8f90";

fn sample(name: &str) -> RepositoryID {
    RepositoryID { uuid: UUID.to_string(), name: name.to_string(), sign: SIGN.to_string() }
}

#[test]
fn marker_document_exact_text() {
    let id = sample("demo");
    let expected = format!(
        "{{\n  \"uuid\": \"{}\",\n  \"name\": \"demo\",\n  \"sign\": \"{}\"\n}}\n",
        UUID, SIGN
    );
    assert_eq!(id.serialize(), expected);
}

#[test]
fn marker_document_escapes_name() {
    let id = sample("a\"b\\c\nd\te\rf\u{1}g");
    let expected = format!(
        "{{\n  \"uuid\": \"{}\",\n  \"name\": \"a\\\"b\\\\c\\nd\\te\\rf\\u0001g\",\n  \"sign\": \"{}\"\n}}\n",
        UUID, SIGN
    );
    assert_eq!(id.serialize(), expected);
}

#[test]
fn marker_document_is_valid_json() {
    let id = sample("we\"ird\n name\u{2} ché✓");
    let doc = id.serialize();
    let value: serde_json::Value = serde_json::from_str(&doc).unwrap();
    assert_eq!(value["uuid"].as_str().unwrap(), UUID);
    assert_eq!(value["name"].as_str().unwrap(), "we\"ird\n name\u{2} ché✓");
    assert_eq!(value["sign"].as_str().unwrap(), SIGN);
}

#[test]
fn round_trip_simple_name() {
    let id = RepositoryID::new("myrepo", "secret");
    let doc = id.serialize();
    let back = parse_marker(&doc).unwrap();
    assert_eq!(back.uuid, id.uuid);
    assert_eq!(back.name, id.name);
    assert_eq!(back.sign, id.sign);
}

#[test]
fn round_trip_hostile_name() {
    let name = "a\"b\\c\nd\te\rf\u{1}g\u{1f}h ✓é \\u0041 \"quoted\"";
    let id = RepositoryID::new(name, "secret");
    let doc = id.serialize();
    let back = parse_marker(&doc).unwrap();
    assert_eq!(back.uuid, id.uuid);
    assert_eq!(back.name, name);
    assert_eq!(back.sign, id.sign);
}

#[test]
fn parse_rejects_malformed_documents() {
    assert!(parse_marker("").is_none());
    assert!(parse_marker("{}").is_none());
    let good = sample("demo").serialize();
    // truncated document
    assert!(parse_marker(&good[..good.len() - 2]).is_none());
    // uppercase hex in the uuid region
    let bad_uuid = good.replacen("5e8cf2ce", "5E8CF2CE", 1);
    assert!(parse_marker(&bad_uuid).is_none());
    // uppercase hex in the signature region
    let bad_sign = good.replacen("a1b2c3d4e5f6", "A1B2C3D4E5F6", 1);
    assert!(parse_marker(&bad_sign).is_none());
    // an escape that the renderer never emits
    let bad_escape = good.replacen("demo", "de\\qo", 1);
    assert!(parse_marker(&bad_escape).is_none());
    // a raw control character inside the name region
    let raw_control = good.replacen("demo", "de\u{1}o", 1);
    assert!(parse_marker(&raw_control).is_none());
}

#[test]
fn parse_rejects_non_canonical_escapes() {
    let good = sample("demo").serialize();
    // a newline must be rendered \n, never \u000a
    let long_newline = good.replacen("demo", "de\\u000ao", 1);
    assert!(parse_marker(&long_newline).is_none());
    // \u escapes are only for control characters
    let letter_escape = good.replacen("demo", "de\\u0041", 1);
    assert!(parse_marker(&letter_escape).is_none());
    // uppercase hex digits in a \u escape are refused
    let upper_escape = good.replacen("demo", "de\\u001F", 1);
    assert!(parse_marker(&upper_escape).is_none());
    // the canonical forms of the same three names are accepted
    assert_eq!(parse_marker(&good.replacen("demo", "de\\no", 1)).unwrap().name, "de\no");
    assert_eq!(parse_marker(&good.replacen("demo", "de\\u0001", 1)).unwrap().name, "de\u{1}");
    assert_eq!(parse_marker(&good.replacen("demo", "de\\u001f", 1)).unwrap().name, "de\u{1f}");
}

#[test]
fn parse_rejects_empty_name() {
    let doc = format!("{{\n  \"uuid\": \"{}\",\n  \"name\": \"\",\n  \"sign\": \"{}\"\n}}\n", UUID, SIGN);
    assert!(parse_marker(&doc).is_none());
}
