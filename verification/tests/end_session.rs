use spdmlib::msgs::encoding::{ReadError, ReadErrorKind, Reader, WriteError, Writer};
use spdmlib::msgs::end_session::{
    SpdmEndSessionRequestAttributes, SpdmEndSessionRequestPayload, SpdmEndSessionResponsePayload,
    PRESERVE_NEGOTIATED_STATE,
};

#[test]
fn test_case0_spdm_response_capability_flags() {
    let u8_slice = &mut [0u8; 1];
    {
        let mut writer = Writer::new("END_SESSION", u8_slice);
        let value = SpdmEndSessionRequestAttributes::all();
        value.encode(&mut writer).unwrap();
    }

    let mut reader = Reader::new("END_SESSION", u8_slice);
    assert_eq!(
        SpdmEndSessionRequestAttributes::read(&mut reader).unwrap(),
        SpdmEndSessionRequestAttributes::preserve_negotiated_state()
    );
    assert_eq!(0, reader.left());
}

#[test]
fn test_case0_spdm_end_session_request_payload() {
    let u8_slice = &mut [0u8; 12];
    {
        let mut writer = Writer::new("END_SESSION", u8_slice);
        let value = SpdmEndSessionRequestPayload {
            end_session_request_attributes:
                SpdmEndSessionRequestAttributes::preserve_negotiated_state(),
        };
        value.spdm_encode(&mut writer).unwrap();
    }
    let mut reader = Reader::new("END_SESSION", u8_slice);
    assert_eq!(12, reader.left());
    let spdm_end_session_request_payload =
        SpdmEndSessionRequestPayload::spdm_read(&mut reader).unwrap();
    assert_eq!(
        spdm_end_session_request_payload.end_session_request_attributes,
        SpdmEndSessionRequestAttributes::preserve_negotiated_state()
    );
    assert_eq!(10, reader.left());
}

#[test]
fn test_case0_spdm_end_session_response_payload() {
    let u8_slice = &mut [0u8; 8];
    {
        let mut writer = Writer::new("END_SESSION_ACK", u8_slice);
        let value = SpdmEndSessionResponsePayload {};
        value.spdm_encode(&mut writer).unwrap();
    }
    let mut reader = Reader::new("END_SESSION_ACK", u8_slice);
    let _ = SpdmEndSessionResponsePayload::spdm_read(&mut reader);
}

#[test]
fn end_session_request_on_the_wire() {
    let mut buf = [0xffu8; 3];
    {
        let mut writer = Writer::new("END_SESSION", &mut buf);
        let value = SpdmEndSessionRequestPayload {
            end_session_request_attributes: SpdmEndSessionRequestAttributes::all(),
        };
        assert_eq!(value.spdm_encode(&mut writer), Ok(2));
    }
    assert_eq!(buf, [0x01, 0x00, 0xff]);
    {
        let mut writer = Writer::new("END_SESSION", &mut buf);
        let value = SpdmEndSessionRequestPayload::default();
        assert_eq!(value.spdm_encode(&mut writer), Ok(2));
    }
    assert_eq!(buf, [0x00, 0x00, 0xff]);
}

#[test]
fn end_session_response_on_the_wire() {
    let mut buf = [0xffu8; 3];
    {
        let mut writer = Writer::new("END_SESSION_ACK", &mut buf);
        assert_eq!((SpdmEndSessionResponsePayload {}).spdm_encode(&mut writer), Ok(2));
        assert_eq!(
            (SpdmEndSessionResponsePayload {}).spdm_encode(&mut writer),
            Err(WriteError::new("END_SESSION_ACK", 3))
        );
    }
    assert_eq!(buf, [0, 0, 0]);
    let mut reader = Reader::new("END_SESSION_ACK", &buf);
    assert_eq!(
        SpdmEndSessionResponsePayload::spdm_read(&mut reader),
        Ok(SpdmEndSessionResponsePayload {})
    );
    assert_eq!(reader.left(), 1);
    assert_eq!(
        SpdmEndSessionResponsePayload::spdm_read(&mut reader),
        Err(ReadError::new("END_SESSION_ACK", ReadErrorKind::Empty))
    );
}

#[test]
fn end_session_attribute_bits() {
    assert_eq!(PRESERVE_NEGOTIATED_STATE, 1);
    assert_eq!(SpdmEndSessionRequestAttributes::empty().bits(), 0);
    assert_eq!(SpdmEndSessionRequestAttributes::all().bits(), 1);
    assert_eq!(SpdmEndSessionRequestAttributes::default().bits(), 0);
    assert_eq!(
        SpdmEndSessionRequestAttributes::from_bits(1),
        Some(SpdmEndSessionRequestAttributes::preserve_negotiated_state())
    );
    assert_eq!(
        SpdmEndSessionRequestAttributes::from_bits(0),
        Some(SpdmEndSessionRequestAttributes::empty())
    );
    assert_eq!(SpdmEndSessionRequestAttributes::from_bits(2), None);
    assert_eq!(SpdmEndSessionRequestAttributes::from_bits(0x81), None);
}

#[test]
fn end_session_request_with_unknown_bits_is_refused() {
    let buf = [0x03u8, 0x00];
    let mut reader = Reader::new("END_SESSION", &buf);
    assert_eq!(
        SpdmEndSessionRequestPayload::spdm_read(&mut reader),
        Err(ReadError::new("END_SESSION", ReadErrorKind::ReservedBytesNotZero))
    );
    assert_eq!(reader.left(), 1);
}

#[test]
fn end_session_request_ignores_the_reserved_byte() {
    let buf = [0x01u8, 0x7f];
    let mut reader = Reader::new("END_SESSION", &buf);
    let p = SpdmEndSessionRequestPayload::spdm_read(&mut reader).unwrap();
    assert_eq!(p.end_session_request_attributes.bits(), 1);
    assert!(reader.empty());
}

#[test]
fn end_session_request_cut_short() {
    let buf = [0x01u8];
    let mut reader = Reader::new("END_SESSION", &buf);
    assert_eq!(
        SpdmEndSessionRequestPayload::spdm_read(&mut reader),
        Err(ReadError::new("END_SESSION", ReadErrorKind::Empty))
    );
    let none: [u8; 0] = [];
    let mut reader = Reader::new("END_SESSION", &none);
    assert_eq!(
        SpdmEndSessionRequestAttributes::read(&mut reader),
        Err(ReadError::new("END_SESSION", ReadErrorKind::Empty))
    );
    let two = [0x01u8, 0x00];
    let mut reader = Reader::new("END_SESSION", &two);
    assert_eq!(reader.read_bits(3), Ok(0));
    assert_eq!(
        SpdmEndSessionRequestPayload::spdm_read(&mut reader),
        Err(ReadError::new("END_SESSION", ReadErrorKind::Unaligned))
    );
}
