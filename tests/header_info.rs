use rtp_header::HeaderInfo;

#[test]
fn test_header_info_version() {
    let a = HeaderInfo(0b11 << 14);
    assert_eq!(a.version(), 3);

    let a = HeaderInfo(0b01 << 14);
    assert_eq!(a.version(), 1);

    let a = HeaderInfo(0b10 << 14);
    assert_eq!(a.version(), 2);
}

#[test]
fn test_header_info_padding() {
    let a = HeaderInfo(0b1 << 13);
    assert_eq!(a.has_padding(), true);

    let a = HeaderInfo(0);
    assert_eq!(a.has_padding(), false);
}

#[test]
fn test_header_info_extension() {
    let a = HeaderInfo(0b1 << 12);
    assert_eq!(a.has_extension(), true);

    let a = HeaderInfo(0);
    assert_eq!(a.has_extension(), false);
}

#[test]
fn test_header_info_csrc_count() {
    let header_info_raw = 0b0000111100000000;
    let a = HeaderInfo(header_info_raw);
    assert_eq!(a.csrc_count(), 15);
}

#[test]
fn test_header_info_marker() {
    let header_info_raw = 0b0000000010000000;
    let a = HeaderInfo(header_info_raw);
    assert_eq!(a.has_marker(), true);
}

#[test]
fn test_header_info_payload_type() {
    let header_info_raw = 255;
    let a = HeaderInfo(header_info_raw);
    assert_eq!(a.payload_type(), 127);
}

#[test]
fn header_info_fields_match_masks_for_every_word() {
    for v in 0..=u16::MAX {
        let a = HeaderInfo(v);
        assert_eq!(a.version(), (v >> 14) as u8);
        assert_eq!(a.has_padding(), v & 0x2000 != 0);
        assert_eq!(a.has_extension(), v & 0x1000 != 0);
        assert_eq!(a.csrc_count(), ((v & 0x0f00) >> 8) as u8);
        assert_eq!(a.has_marker(), v & 0x0080 != 0);
        assert_eq!(a.payload_type(), (v & 0x007f) as u8);
        let rebuilt = ((a.version() as u16) << 14)
            | ((a.has_padding() as u16) << 13)
            | ((a.has_extension() as u16) << 12)
            | ((a.csrc_count() as u16) << 8)
            | ((a.has_marker() as u16) << 7)
            | (a.payload_type() as u16);
        assert_eq!(rebuilt, v);
    }
}

#[test]
fn header_info_all_fields_of_one_word() {
    // version 2, padding, no extension, 3 CSRCs, marker, payload type 96
    let a = HeaderInfo(0b10_1_0_0011_1_1100000);
    assert_eq!(a.version(), 2);
    assert_eq!(a.has_padding(), true);
    assert_eq!(a.has_extension(), false);
    assert_eq!(a.csrc_count(), 3);
    assert_eq!(a.has_marker(), true);
    assert_eq!(a.payload_type(), 96);
}
