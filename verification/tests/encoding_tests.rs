use wzed::encoding::{
    decode_bytes, decode_detected, detect_encoding, encoding_from_label, next_reload_encoding,
    next_reload_index, supported_encoding, SUPPORTED_ENCODING_COUNT,
};

#[test]
fn test_detect_encoding_utf8() {
    let text = "Hello, world! 你好世界";
    let encoding = detect_encoding(text.as_bytes());
    assert_eq!(encoding, "UTF-8");
}

#[test]
fn test_detect_encoding_ascii() {
    let text = b"plain ascii text";
    let encoding = detect_encoding(text);
    assert_eq!(encoding, "UTF-8");
}

#[test]
fn test_decode_bytes_utf8() {
    let text = "Hello 你好";
    let bytes = text.as_bytes();
    let decoded = decode_bytes(bytes, "UTF-8");
    assert_eq!(decoded, text);
}

#[test]
fn test_encoding_label_roundtrip() {
    for i in 0..SUPPORTED_ENCODING_COUNT {
        let label = supported_encoding(i).unwrap();
        let enc = encoding_from_label(label);
        assert!(enc.is_some(), "failed to resolve label: {label}");
        let resolved = enc.unwrap();
        // encoding_from_label should roundtrip: resolving the canonical name again should
        // yield the same encoding
        assert_eq!(
            encoding_from_label(&resolved),
            Some(resolved.clone()),
            "roundtrip failed for {label} -> {}",
            resolved,
        );
    }
}

#[test]
fn test_encoding_from_label_case_insensitive() {
    assert!(encoding_from_label("utf-8").is_some());
    assert!(encoding_from_label("UTF-8").is_some());
    assert!(encoding_from_label("utf8").is_some());
}

#[test]
fn test_encoding_from_label_unknown() {
    assert!(encoding_from_label("not-a-real-encoding").is_none());
    assert!(encoding_from_label("").is_none());
}

#[test]
fn supported_encodings_are_listed_in_order() {
    assert_eq!(supported_encoding(0), Some("UTF-8"));
    assert_eq!(supported_encoding(3), Some("GBK"));
    assert_eq!(supported_encoding(SUPPORTED_ENCODING_COUNT - 1), Some("Windows-1251"));
    assert_eq!(supported_encoding(SUPPORTED_ENCODING_COUNT), None);
}

#[test]
fn canonical_name_of_a_label_alias() {
    assert_eq!(encoding_from_label("latin1"), Some("windows-1252".to_string()));
    assert_eq!(encoding_from_label("utf8"), Some("UTF-8".to_string()));
}

#[test]
fn decode_bytes_with_unknown_label_is_empty() {
    assert_eq!(decode_bytes(b"abc", "no-such-encoding"), "");
}

#[test]
fn decode_bytes_latin1_differs_from_input_bytes() {
    // 0xE9 is "é" in windows-1252; the wrapper must really decode.
    assert_eq!(decode_bytes(&[0x63, 0x61, 0x66, 0xE9], "windows-1252"), "café");
}

#[test]
fn decode_detected_gives_text_and_encoding() {
    let (text, encoding) = decode_detected("plain text".as_bytes());
    assert_eq!(text, "plain text");
    assert_eq!(encoding, "UTF-8");
}

#[test]
fn next_reload_cycles_through_the_picker() {
    assert_eq!(next_reload_index("UTF-8"), 1);
    assert_eq!(next_reload_index("Windows-1251"), 0);
    // encoding_rs's names match the picker labels up to ASCII case.
    assert_eq!(next_reload_index("windows-1252"), 14);
    assert_eq!(next_reload_index("gb18030"), 5);
    // A name that no label stands for counts as the first one.
    assert_eq!(next_reload_index("x-user-defined"), 1);
    assert_eq!(next_reload_encoding("UTF-8"), Some("UTF-16LE".to_string()));
    assert_eq!(next_reload_encoding("GBK"), Some("gb18030".to_string()));
}
