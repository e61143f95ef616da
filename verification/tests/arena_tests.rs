use gtk_icon_cache::{read_card16_from, read_card32_from, read_cstring_from};

#[test]
fn card16_reads_big_endian() {
    let data = vec![0x12u8, 0x34, 0x56, 0x78, 0x9A];
    assert_eq!(read_card16_from(&data, 0), Some(0x1234));
    assert_eq!(read_card16_from(&data, 1), Some(0x3456));
    assert_eq!(read_card16_from(&data, 3), Some(0x789A));
}

#[test]
fn card32_reads_big_endian() {
    let data = vec![0x12u8, 0x34, 0x56, 0x78, 0x9A];
    assert_eq!(read_card32_from(&data, 1), Some(0x3456789A));
    // Offset 0 is never a valid 32-bit field in this format.
    assert_eq!(read_card32_from(&data, 0), None);
}

#[test]
fn accessors_fail_out_of_bounds() {
    let data = vec![1u8, 2, 3, 4, 5, 6, 7, 8];
    assert_eq!(read_card16_from(&data, 7), None);
    assert_eq!(read_card16_from(&data, 8), None);
    assert_eq!(read_card16_from(&data, u64::MAX), None);
    assert_eq!(read_card32_from(&data, 5), None);
    assert_eq!(read_card32_from(&data, 9), None);
    assert_eq!(read_card32_from(&data, u64::MAX), None);
    assert_eq!(read_cstring_from(&data, 8), None);
    assert_eq!(read_cstring_from(&data, u64::MAX), None);
    let empty: Vec<u8> = Vec::new();
    assert_eq!(read_card16_from(&empty, 0), None);
    assert_eq!(read_card32_from(&empty, 4), None);
    assert_eq!(read_cstring_from(&empty, 0), None);
}

#[test]
fn cstring_decodes_until_terminator() {
    let data = vec![0u8, b'a', b'b', 0, b'c'];
    assert_eq!(read_cstring_from(&data, 1), Some("ab".to_string()));
    // An empty string (terminator right at the offset) is invalid.
    assert_eq!(read_cstring_from(&data, 0), None);
    // No terminator before the end of the buffer.
    assert_eq!(read_cstring_from(&data, 4), None);
}

#[test]
fn cstring_decodes_invalid_utf8_lossily() {
    let data = vec![0xFFu8, 0xFE, 0];
    assert_eq!(
        read_cstring_from(&data, 0),
        Some("\u{fffd}\u{fffd}".to_string())
    );
}

#[test]
fn cstring_decodes_multibyte_utf8() {
    // "é" is 0xC3 0xA9 in UTF-8.
    let data = vec![0xC3u8, 0xA9, 0];
    assert_eq!(read_cstring_from(&data, 0), Some("\u{e9}".to_string()));
}
