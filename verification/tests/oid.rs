use gawsh::oid::{generate_oid_link, generate_tree_link, pretty_oid, ObjectId};

const HEX: &str = "7b1d3f17c47cce7788f74a2a620c5eb4034f6ff3";

#[test]
fn hex_is_read_and_written() {
    let oid = ObjectId::from_str(HEX).unwrap();
    assert_eq!(oid.to_hex(), HEX);
    assert_eq!(
        oid.as_bytes(),
        &[
            0x7b, 0x1d, 0x3f, 0x17, 0xc4, 0x7c, 0xce, 0x77, 0x88, 0xf7, 0x4a, 0x2a, 0x62, 0x0c,
            0x5e, 0xb4, 0x03, 0x4f, 0x6f, 0xf3
        ]
    );
}

#[test]
fn hex_is_read_in_either_case_and_written_in_lower_case() {
    let oid = ObjectId::from_str("7B1D3F17C47CCE7788F74A2A620C5EB4034F6FF3").unwrap();
    assert_eq!(oid.to_hex(), HEX);
    assert_eq!(oid, ObjectId::from_str(HEX).unwrap());
}

#[test]
fn other_text_is_no_identifier() {
    assert_eq!(ObjectId::from_str(""), None);
    assert_eq!(ObjectId::from_str("7b1d3f17"), None);
    assert_eq!(ObjectId::from_str("7b1d3f17c47cce7788f74a2a620c5eb4034f6ff"), None);
    assert_eq!(ObjectId::from_str("7b1d3f17c47cce7788f74a2a620c5eb4034f6ff3a"), None);
    assert_eq!(ObjectId::from_str("7b1d3f17c47cce7788f74a2a620c5eb4034f6ffg"), None);
    assert_eq!(ObjectId::from_str("7b1d3f17c47cce7788f74a2a620c5eb4034f6ff\u{e9}"), None);
}

#[test]
fn an_identifier_has_twenty_bytes() {
    assert_eq!(ObjectId::from_bytes(&[0u8; 19]), None);
    assert_eq!(ObjectId::from_bytes(&[0u8; 21]), None);
    let oid = ObjectId::from_bytes(&[0xabu8; 20]).unwrap();
    assert_eq!(oid.as_bytes(), &[0xabu8; 20]);
    assert_eq!(oid.to_hex(), "abababababababababababababababababababab");
}

#[test]
fn the_short_form_has_eight_digits() {
    let oid = ObjectId::from_str(HEX).unwrap();
    assert_eq!(pretty_oid(&oid), "7b1d3f17");
    let low = ObjectId::from_bytes(&[0x0fu8; 20]).unwrap();
    assert_eq!(pretty_oid(&low), "0f0f0f0f");
}

#[test]
fn links_hold_the_whole_identifier() {
    let oid = ObjectId::from_str(HEX).unwrap();
    assert_eq!(generate_tree_link(&oid), "/tree/7b1d3f17c47cce7788f74a2a620c5eb4034f6ff3");
    assert_eq!(generate_oid_link(&oid), "/oid/7b1d3f17c47cce7788f74a2a620c5eb4034f6ff3.html");
}

#[test]
fn hex_agrees_with_the_repository_library() {
    let theirs = git2::Oid::from_str(HEX).unwrap();
    let ours = ObjectId::from_bytes(theirs.as_bytes()).unwrap();
    assert_eq!(ours.to_hex(), theirs.to_string());
    assert_eq!(ObjectId::from_str(HEX).unwrap().as_bytes(), theirs.as_bytes());
}
