use cap9_kernel::identity::{
    is_zero_key, procedure_key, same_key, zero_key, ProcedureKey, KEY_WIDTH,
};

fn padded(name: &[u8]) -> ProcedureKey {
    let mut key = [0u8; 24];
    key[..name.len()].copy_from_slice(name);
    key
}

#[test]
fn key_width_is_twenty_four() {
    assert_eq!(KEY_WIDTH, 24);
}

#[test]
fn encoding_the_same_name_twice_gives_the_same_identity() {
    assert_eq!(procedure_key("init"), procedure_key("init"));
    assert!(same_key(&procedure_key("init"), &procedure_key("init")));
}

#[test]
fn short_name_is_copied_from_the_left_and_padded_with_zeros() {
    let key = procedure_key("init");
    assert_eq!(key, padded(b"init"));
    assert_eq!(&key[0..4], b"init");
    assert_eq!(&key[4..], &[0u8; 20]);
}

#[test]
fn distinct_names_get_distinct_identities() {
    assert_ne!(procedure_key("init"), procedure_key("main"));
    assert_ne!(procedure_key("init"), procedure_key("init2"));
    assert!(!same_key(&procedure_key("a"), &procedure_key("b")));
}

#[test]
fn names_that_differ_in_trailing_zero_bytes_collide() {
    assert_eq!(procedure_key("a"), procedure_key("a\0"));
    assert_eq!(procedure_key(""), procedure_key("\0\0\0"));
    assert_ne!(procedure_key("a"), procedure_key("\0a"));
}

#[test]
fn long_name_is_truncated_to_the_key_width() {
    let key = procedure_key("abcdefghijklmnopqrstuvwxyz0123");
    assert_eq!(&key, b"abcdefghijklmnopqrstuvwx");
    assert_eq!(key, procedure_key("abcdefghijklmnopqrstuvwx"));
    assert_eq!(key, procedure_key("abcdefghijklmnopqrstuvwxANYTHING"));
}

#[test]
fn name_of_exactly_the_key_width_is_kept_whole() {
    let key = procedure_key("0123456789abcdefghijklmn");
    assert_eq!(&key, b"0123456789abcdefghijklmn");
    assert_ne!(key, procedure_key("0123456789abcdefghijklm"));
}

#[test]
fn name_is_encoded_by_its_utf8_bytes() {
    let key = procedure_key("\u{e9}t\u{e9}");
    assert_eq!(key, padded(&[0xc3, 0xa9, b't', 0xc3, 0xa9]));
}

#[test]
fn empty_name_is_the_zero_identity() {
    assert_eq!(procedure_key(""), [0u8; 24]);
    assert_eq!(zero_key(), [0u8; 24]);
    assert!(is_zero_key(&procedure_key("")));
    assert!(is_zero_key(&zero_key()));
    assert!(!is_zero_key(&procedure_key("init")));
    let mut last = [0u8; 24];
    last[23] = 1;
    assert!(!is_zero_key(&last));
}
