use pattern_ast::util::debug_bytes;
use pattern_ast::util::display_bytes;
use pattern_ast::util::ByteStr;
use pattern_ast::util::BytesExt;

fn debug_string(bytes: &[u8]) -> String {
    debug_bytes(bytes).into_iter().collect()
}

#[test]
fn display_passes_ascii_through() {
    assert_eq!(display_bytes(b"hello"), b"hello".to_vec());
    assert_eq!(display_bytes(b""), Vec::<u8>::new());
}

#[test]
fn display_passes_multibyte_text_through() {
    let text = "caf\u{e9} \u{2603} \u{1f600}";
    assert_eq!(display_bytes(text.as_bytes()), text.as_bytes().to_vec());
}

#[test]
fn display_replaces_each_invalid_byte_alone() {
    // Two stray bytes are two ill-formed subparts: two replacement marks.
    let out = display_bytes(&[0xFF, 0xFF]);
    assert_eq!(out, "\u{fffd}\u{fffd}".as_bytes().to_vec());
}

#[test]
fn display_replaces_truncated_sequence_with_one_mark() {
    // 0xE2 0x82 is the beginning of a three-byte encoding: one subpart.
    let out = display_bytes(&[0xE2, 0x82]);
    assert_eq!(out, "\u{fffd}".as_bytes().to_vec());
}

#[test]
fn display_mixes_text_and_marks() {
    let out = display_bytes(&[b'a', 0x80, b'b']);
    assert_eq!(out, "a\u{fffd}b".as_bytes().to_vec());

    let out = display_bytes(&[0xC0, b'x']);
    assert_eq!(out, "\u{fffd}x".as_bytes().to_vec());
}

#[test]
fn display_matches_std_lossy_decoding() {
    let cases: Vec<Vec<u8>> = vec![
        b"plain".to_vec(),
        vec![0xF0, 0x9F, 0x98],
        vec![0xED, 0xA0, 0x80],
        vec![0xE0, 0x80, 0xAF],
        vec![b'x', 0xF4, 0x90, 0x80, 0x80, b'y'],
        vec![0xC2],
        vec![0x80, 0x80, b'a', 0xC3, 0xA9],
    ];
    for bytes in cases {
        let expected = String::from_utf8_lossy(&bytes).into_owned().into_bytes();
        assert_eq!(display_bytes(&bytes), expected, "input {:?}", bytes);
    }
}

#[test]
fn debug_escapes_control_characters() {
    assert_eq!(debug_string(b"\n"), "\\n");
    assert_eq!(debug_string(b"a\tb"), "a\\tb");
    assert_eq!(debug_string(b"\""), "\\\"");
}

#[test]
fn debug_keeps_printable_text() {
    assert_eq!(debug_string(b"abc"), "abc");
    assert_eq!(debug_string("caf\u{e9}".as_bytes()), "caf\u{e9}");
}

#[test]
fn debug_spells_each_invalid_byte() {
    assert_eq!(debug_string(&[0xFF]), "\\xFF");
    assert_eq!(debug_string(&[0xE2, 0x82]), "\\xE2\\x82");
    assert_eq!(debug_string(&[b'a', 0x01, 0xFE, b'b']), "a\\u{1}\\xFEb");
}

#[test]
fn debug_matches_std_escaping_of_valid_text() {
    let text = "mix \u{7f} \u{2603} '\\' \u{1f600}";
    assert_eq!(debug_string(text.as_bytes()), text.escape_debug().to_string());
}

#[test]
fn byte_str_renders_quoted_debug() {
    let bytes: &[u8] = &[b'h', b'i', 0xFF];
    let quoted: String = bytes.byte_str().to_debug_chars().into_iter().collect();
    assert_eq!(quoted, "\"hi\\xFF\"");
}

#[test]
fn byte_str_display_is_lossy_text() {
    let bytes: &[u8] = &[b'o', b'k', 0x80];
    let shown = ByteStr(bytes).to_display_bytes();
    assert_eq!(shown, "ok\u{fffd}".as_bytes().to_vec());
}
