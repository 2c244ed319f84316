use bfn::{
    md5_as_base64, md5_as_uuid, md5_verify_base64, md5_verify_uuid, random_base64, Uuid,
};

#[test]
fn test_md5_as_base64() {
    assert_eq!("bNNVbesNpUvKBgtMOUeYOQ==", md5_as_base64("Hello, world!"));
}

#[test]
fn test_md5_verify_base64() {
    assert_eq!(
        true,
        md5_verify_base64("Hello, world!", "bNNVbesNpUvKBgtMOUeYOQ==")
    );
}

#[test]
fn test_to_md5uuid() {
    let test_val = "6cd3556d-eb0d-a54b-ca06-0b4c39479839";
    let res = md5_as_uuid("Hello, world!").to_string();
    assert_eq!(test_val, res);
}

#[test]
fn test_md5_verify_uuid() {
    let verify_val = "6cd3556d-eb0d-a54b-ca06-0b4c39479839";
    let as_uuid = uuid::Uuid::parse_str(verify_val).expect("Failed to parse UUID");
    let own_uuid = Uuid::from_bytes(*as_uuid.as_bytes());
    let res = md5_verify_uuid("Hello, world!", own_uuid);
    assert_eq!(true, res);
}

#[test]
fn md5_of_the_empty_text() {
    assert_eq!(md5_as_base64(""), "1B2M2Y8AsgTpgAmY7PhCfg==");
    assert_eq!(md5_as_uuid("").to_string(), "d41d8cd9-8f00-b204-e980-0998ecf8427e");
}

#[test]
fn md5_reads_utf8_bytes() {
    assert_eq!(*md5_as_uuid("é").as_bytes(), md5::compute([0xc3u8, 0xa9]).0);
}

#[test]
fn md5_verification_rejects_other_digests() {
    assert!(!md5_verify_base64("Hello, world?", "bNNVbesNpUvKBgtMOUeYOQ=="));
    assert!(!md5_verify_base64("Hello, world!", "bNNVbesNpUvKBgtMOUeYOQ="));
    assert!(!md5_verify_base64("Hello, world!", ""));
    assert!(!md5_verify_uuid("Hello, world!", Uuid::from_bytes([0; 16])));
    assert!(md5_verify_uuid("", md5_as_uuid("")));
}

#[test]
fn random_tokens_are_48_characters_of_base64() {
    let token = random_base64();
    assert_eq!(token.len(), 48);
    assert!(token
        .chars()
        .all(|c| c.is_ascii_alphanumeric() || c == '+' || c == '/'));
}

#[test]
fn random_tokens_differ() {
    assert_ne!(random_base64(), random_base64());
}
