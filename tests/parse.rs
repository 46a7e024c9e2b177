use rtp_header::{Header, HeaderExtension, RtpError};

fn push16(b: &mut Vec<u8>, v: u16) {
    b.extend_from_slice(&v.to_be_bytes());
}

fn push32(b: &mut Vec<u8>, v: u32) {
    b.extend_from_slice(&v.to_be_bytes());
}

fn fixed(info: u16, sequence: u16, timestamp: u32, ssrc: u32) -> Vec<u8> {
    let mut b = Vec::new();
    push16(&mut b, info);
    push16(&mut b, sequence);
    push32(&mut b, timestamp);
    push32(&mut b, ssrc);
    b
}

#[test]
fn small_header() {
    let buf: &[u8] = &[123, 123];

    let header = Header::from_buf(buf);

    assert!(header.is_err())
}

#[test]
fn small_header_is_too_small() {
    let buf: &[u8] = &[123, 123];
    assert_eq!(Header::from_buf(buf).unwrap_err(), RtpError::HeaderTooSmall);
    for n in 0..12 {
        let buf = vec![0u8; n];
        assert_eq!(Header::from_buf(&buf).unwrap_err(), RtpError::HeaderTooSmall);
    }
}

#[test]
fn twelve_byte_header_without_csrc_or_extension() {
    let buf = fixed(0x8000, 0x1234, 0xdeadbeef, 0x01020304);
    let h = Header::from_buf(&buf).unwrap();
    assert_eq!(h.info().0, 0x8000);
    assert_eq!(h.info().version(), 2);
    assert_eq!(h.sequence(), 0x1234);
    assert_eq!(h.timestamp(), 0xdeadbeef);
    assert_eq!(h.ssrc_identifier(), 0x01020304);
    assert!(h.csrc_identifiers().is_empty());
    assert!(h.extension().is_none());
}

#[test]
fn csrc_identifiers_kept_in_order() {
    let mut buf = fixed(0x8300 | 96, 7, 8, 9);
    push32(&mut buf, 0xa1a2a3a4);
    push32(&mut buf, 2);
    push32(&mut buf, 0xffffffff);
    let h = Header::from_buf(&buf).unwrap();
    assert_eq!(h.info().csrc_count(), 3);
    assert_eq!(h.info().payload_type(), 96);
    assert_eq!(h.csrc_identifiers(), &vec![0xa1a2a3a4, 2, 0xffffffff]);
    assert!(h.extension().is_none());
}

#[test]
fn missing_csrc_data_is_refused() {
    let mut buf = fixed(0x8300, 7, 8, 9);
    push32(&mut buf, 1);
    push32(&mut buf, 2);
    push16(&mut buf, 3);
    assert_eq!(Header::from_buf(&buf).unwrap_err(), RtpError::InsufficientCsrcData);

    let buf = fixed(0x8f00, 7, 8, 9);
    assert_eq!(Header::from_buf(&buf).unwrap_err(), RtpError::InsufficientCsrcData);
}

#[test]
fn payload_after_header_is_not_read() {
    let mut buf = fixed(0x8100, 1, 2, 3);
    push32(&mut buf, 44);
    buf.extend_from_slice(&[9, 9, 9, 9, 9]);
    let h = Header::from_buf(&buf).unwrap();
    assert_eq!(h.csrc_identifiers(), &vec![44]);
    assert!(h.extension().is_none());
}

#[test]
fn missing_extension_header_is_refused() {
    let mut buf = fixed(0x9100, 1, 2, 3);
    push32(&mut buf, 44);
    assert_eq!(Header::from_buf(&buf).unwrap_err(), RtpError::ExtensionHeaderMissing);
    buf.extend_from_slice(&[0xbe, 0xde, 0]);
    assert_eq!(Header::from_buf(&buf).unwrap_err(), RtpError::ExtensionHeaderMissing);
}

#[test]
fn short_extension_data_is_refused() {
    let mut buf = fixed(0x9000, 1, 2, 3);
    push16(&mut buf, 0xbede);
    push16(&mut buf, 2);
    push32(&mut buf, 5);
    push16(&mut buf, 6);
    assert_eq!(Header::from_buf(&buf).unwrap_err(), RtpError::InsufficientExtensionData);
}

#[test]
fn header_with_extension_round_trips() {
    let mut buf = fixed(0xb2e0 | 0x7f, 0xfffe, 123456789, 987654321);
    push32(&mut buf, 11);
    push32(&mut buf, 22);
    push16(&mut buf, 0xbede);
    push16(&mut buf, 3);
    push32(&mut buf, 0x10203040);
    push32(&mut buf, 0);
    push32(&mut buf, 0xcafebabe);
    buf.extend_from_slice(&[1, 2, 3]);
    let h = Header::from_buf(&buf).unwrap();
    let info = h.info();
    assert_eq!(info.version(), 2);
    assert_eq!(info.has_padding(), true);
    assert_eq!(info.has_extension(), true);
    assert_eq!(info.csrc_count(), 2);
    assert_eq!(info.has_marker(), true);
    assert_eq!(info.payload_type(), 0x7f);
    assert_eq!(h.sequence(), 0xfffe);
    assert_eq!(h.timestamp(), 123456789);
    assert_eq!(h.ssrc_identifier(), 987654321);
    assert_eq!(h.csrc_identifiers(), &vec![11, 22]);
    let x = h.extension().as_ref().unwrap();
    assert_eq!(x.extension_id(), 0xbede);
    assert_eq!(x.extension_header_length(), 3);
    assert_eq!(x.extension(), &vec![0x10203040, 0, 0xcafebabe]);
}

#[test]
fn empty_extension_is_present() {
    let mut buf = fixed(0x9000, 1, 2, 3);
    push16(&mut buf, 0x1000);
    push16(&mut buf, 0);
    let h = Header::from_buf(&buf).unwrap();
    let x = h.extension().as_ref().unwrap();
    assert_eq!(x.extension_id(), 0x1000);
    assert_eq!(x.extension_header_length(), 0);
    assert!(x.extension().is_empty());
}

#[test]
fn extension_decoded_on_its_own() {
    assert_eq!(HeaderExtension::from_buf(&[1, 2]).unwrap_err(), RtpError::ExtensionHeaderMissing);
    assert_eq!(
        HeaderExtension::from_buf(&[0, 1, 0, 1, 0, 0]).unwrap_err(),
        RtpError::InsufficientExtensionData
    );
    let x = HeaderExtension::from_buf(&[0x01, 0x02, 0x00, 0x01, 0x0a, 0x0b, 0x0c, 0x0d, 0xff]).unwrap();
    assert_eq!(x.extension_id(), 0x0102);
    assert_eq!(x.extension_header_length(), 1);
    assert_eq!(x.extension(), &vec![0x0a0b0c0d]);
}

#[test]
fn largest_extension_length() {
    let mut buf = vec![0xab, 0xcd, 0xff, 0xff];
    for i in 0..0xffffu32 {
        push32(&mut buf, i);
    }
    let x = HeaderExtension::from_buf(&buf).unwrap();
    assert_eq!(x.extension_header_length(), 0xffff);
    assert_eq!(x.extension().len(), 0xffff);
    assert_eq!(x.extension()[0xfffe], 0xfffe);
    buf.pop();
    assert_eq!(HeaderExtension::from_buf(&buf).unwrap_err(), RtpError::InsufficientExtensionData);
}

#[test]
fn error_descriptions() {
    assert_eq!(RtpError::HeaderTooSmall.description(), "Buffer is too small to contain a valid header.");
    assert_eq!(
        RtpError::InsufficientCsrcData.description(),
        "Buffer does not contain the specified number of CSRC identifiers."
    );
    assert_eq!(
        RtpError::ExtensionHeaderMissing.description(),
        "Header extension does not contain required info."
    );
    assert_eq!(
        RtpError::InsufficientExtensionData.description(),
        "Header extension does not contain specified number of blocks."
    );
}

#[test]
fn error_messages_carry_prefix() {
    assert_eq!(
        RtpError::HeaderTooSmall.message(),
        "Header Error: Buffer is too small to contain a valid header."
    );
    let e = Header::from_buf(&[0x90, 0, 0, 0, 0, 0, 0, 0, 0, 0, 0, 0]).unwrap_err();
    assert_eq!(e.message(), "Header Error: Header extension does not contain required info.");
}
