use voice_memos::tsrp::{find_tsrp, parse_tsrp};

fn make_tsrp_atom(json: &[u8]) -> Vec<u8> {
    let atom_size = (8 + json.len()) as u32;
    let mut buf = Vec::new();
    buf.extend_from_slice(&atom_size.to_be_bytes());
    buf.extend_from_slice(b"tsrp");
    buf.extend_from_slice(json);
    buf
}

// --- find_tsrp ---

#[test]
fn find_tsrp_extracts_payload() {
    let json = br#"{"attributedString":{"runs":["hello"]}}"#;
    let atom = make_tsrp_atom(json);
    let payload = find_tsrp(&atom).unwrap();
    assert_eq!(payload, json);
}

#[test]
fn find_tsrp_with_prefix_data() {
    let json = br#"{"attributedString":{"runs":["hello"]}}"#;
    let mut data = vec![0u8; 64];
    let atom = make_tsrp_atom(json);
    data.extend_from_slice(&atom);
    data.extend_from_slice(&[0u8; 32]);
    let payload = find_tsrp(&data).unwrap();
    assert_eq!(payload, json);
}

#[test]
fn find_tsrp_returns_none_when_missing() {
    let data = vec![0u8; 128];
    assert!(find_tsrp(&data).is_none());
}

#[test]
fn find_tsrp_returns_none_when_too_short() {
    let data = b"tsrpsome data";
    assert!(find_tsrp(data).is_none());
}

#[test]
fn find_tsrp_returns_none_on_bad_size() {
    let mut buf = Vec::new();
    buf.extend_from_slice(&1000u32.to_be_bytes());
    buf.extend_from_slice(b"tsrp");
    buf.extend_from_slice(b"tiny");
    assert!(find_tsrp(&buf).is_none());
}

#[test]
fn find_tsrp_size_below_header_is_refused() {
    let mut buf = Vec::new();
    buf.extend_from_slice(&7u32.to_be_bytes());
    buf.extend_from_slice(b"tsrpdata");
    assert!(find_tsrp(&buf).is_none());
    let mut empty = Vec::new();
    empty.extend_from_slice(&8u32.to_be_bytes());
    empty.extend_from_slice(b"tsrp");
    assert_eq!(find_tsrp(&empty).unwrap(), b"");
}

#[test]
fn find_tsrp_uses_first_marker_only() {
    // The first marker has too short a size field before it; a later good atom is not looked at.
    let mut data = b"abtsrp".to_vec();
    data.extend_from_slice(&make_tsrp_atom(b"{}"));
    assert!(find_tsrp(&data).is_none());
}

#[test]
fn find_tsrp_payload_ends_at_atom_size() {
    let mut data = make_tsrp_atom(b"abc");
    data.extend_from_slice(b"trailing");
    assert_eq!(find_tsrp(&data).unwrap(), b"abc");
}

// --- parse_tsrp ---

#[test]
fn parse_tsrp_object_format() {
    let json = br#"{"attributedString":{"runs":["Hello ","world"]}}"#;
    assert_eq!(parse_tsrp(json).unwrap(), "Hello world");
}

#[test]
fn parse_tsrp_array_format() {
    let json = br#"{"attributedString":["segment one","segment two"]}"#;
    assert_eq!(parse_tsrp(json).unwrap(), "segment onesegment two");
}

#[test]
fn parse_tsrp_empty_runs() {
    let json = br#"{"attributedString":{"runs":[]}}"#;
    assert!(parse_tsrp(json).is_none());
}

#[test]
fn parse_tsrp_whitespace_only() {
    let json = br#"{"attributedString":{"runs":["  \n  "]}}"#;
    assert!(parse_tsrp(json).is_none());
}

#[test]
fn parse_tsrp_invalid_json() {
    assert!(parse_tsrp(b"not json").is_none());
}

#[test]
fn parse_tsrp_missing_attributed_string() {
    let json = br#"{"other":"field"}"#;
    assert!(parse_tsrp(json).is_none());
}

#[test]
fn parse_tsrp_skips_non_string_runs_and_trims() {
    let json = br#"{"attributedString":{"runs":["  Hi",{"x":1},3," there  \n"]}}"#;
    assert_eq!(parse_tsrp(json).unwrap(), "Hi there");
}

#[test]
fn parse_tsrp_rejects_other_shapes() {
    assert!(parse_tsrp(br#"{"attributedString":"text"}"#).is_none());
    assert!(parse_tsrp(br#"{"attributedString":{"runs":"text"}}"#).is_none());
    assert!(parse_tsrp(br#"{"attributedString":{"other":[]}}"#).is_none());
    assert!(parse_tsrp(br#"["hello"]"#).is_none());
}
