use rbx_util::slice_to_hex_string;
use rbx_util::slice_to_string;

#[test]
fn hex_of_empty_is_empty() {
    assert_eq!(slice_to_hex_string(&[]), "");
}

#[test]
fn hex_of_one_byte_has_no_separator() {
    assert_eq!(slice_to_hex_string(&[0xab]), "AB");
    assert_eq!(slice_to_hex_string(&[0x00]), "00");
    assert_eq!(slice_to_hex_string(&[0x0f]), "0F");
}

#[test]
fn hex_bytes_are_uppercase_and_space_separated() {
    assert_eq!(slice_to_hex_string(&[0x00, 0xab, 0x0f, 0xff]), "00 AB 0F FF");
    assert_eq!(slice_to_hex_string(b"END\0"), "45 4E 44 00");
}

#[test]
fn valid_utf8_renders_as_text() {
    assert_eq!(slice_to_string(b"hello"), "hello");
    assert_eq!(slice_to_string("caf\u{e9}".as_bytes()), "caf\u{e9}");
    assert_eq!(slice_to_string(&[]), "");
}

#[test]
fn invalid_utf8_renders_as_hex() {
    assert_eq!(slice_to_string(&[0xff, 0xfe]), "FF FE");
    assert_eq!(slice_to_string(&[0xc3]), "C3");
}
