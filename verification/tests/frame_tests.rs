//! Tests of the frame header codec: version bytes, flags, opcodes, and
//! the frame round trip.

use cdrs_core::frame::{
    get_next_stream_id, Flag, Frame, Opcode, ProtocolVersion, StreamIdAllocator, Version,
};

#[test]
fn test_frame_version_as_byte() {
    let request_version = Version::Request;
    assert_eq!(request_version.as_byte(ProtocolVersion::V4), 0x04);
    let response_version = Version::Response;
    assert_eq!(response_version.as_byte(ProtocolVersion::V4), 0x84);
}

#[test]
fn test_frame_version_as_byte_v3() {
    let request_version = Version::Request;
    assert_eq!(request_version.as_byte(ProtocolVersion::V3), 0x03);
    let response_version = Version::Response;
    assert_eq!(response_version.as_byte(ProtocolVersion::V3), 0x83);
}

#[test]
fn test_frame_version_from() {
    let request: Vec<u8> = vec![0x04];
    assert_eq!(Version::from(request, ProtocolVersion::V4), Version::Request);
    let response: Vec<u8> = vec![0x84];
    assert_eq!(Version::from(response, ProtocolVersion::V4), Version::Response);
}

#[test]
fn test_frame_version_from_v3() {
    let request: Vec<u8> = vec![0x03];
    assert_eq!(Version::from(request, ProtocolVersion::V3), Version::Request);
    let response: Vec<u8> = vec![0x83];
    assert_eq!(Version::from(response, ProtocolVersion::V3), Version::Response);
}

#[test]
fn test_flag_from() {
    assert_eq!(Flag::from(0x01_u8), Flag::Compression);
    assert_eq!(Flag::from(0x02_u8), Flag::Tracing);
    assert_eq!(Flag::from(0x04_u8), Flag::CustomPayload);
    assert_eq!(Flag::from(0x08_u8), Flag::Warning);
    // rest should be interpreted as Ignore
    assert_eq!(Flag::from(0x10_u8), Flag::Ignore);
    assert_eq!(Flag::from(0x31_u8), Flag::Ignore);
}

#[test]
fn test_flag_as_byte() {
    assert_eq!(Flag::Compression.as_byte(), 0x01);
    assert_eq!(Flag::Tracing.as_byte(), 0x02);
    assert_eq!(Flag::CustomPayload.as_byte(), 0x04);
    assert_eq!(Flag::Warning.as_byte(), 0x08);
}

#[test]
fn test_flag_has_x() {
    assert!(Flag::has_compression(0x01));
    assert!(!Flag::has_compression(0x02));

    assert!(Flag::has_tracing(0x02));
    assert!(!Flag::has_tracing(0x01));

    assert!(Flag::has_custom_payload(0x04));
    assert!(!Flag::has_custom_payload(0x02));

    assert!(Flag::has_warning(0x08));
    assert!(!Flag::has_warning(0x01));
}

#[test]
fn test_flag_many_to_cbytes() {
    let all = vec![
        Flag::Compression,
        Flag::Tracing,
        Flag::CustomPayload,
        Flag::Warning,
    ];
    assert_eq!(Flag::many_to_cbytes(&all), 1 | 2 | 4 | 8);
    let some = vec![Flag::Compression, Flag::Warning];
    assert_eq!(Flag::many_to_cbytes(&some), 1 | 8);
    let one = vec![Flag::Compression];
    assert_eq!(Flag::many_to_cbytes(&one), 1);
}

#[test]
fn test_flag_get_collection() {
    let all = vec![
        Flag::Compression,
        Flag::Tracing,
        Flag::CustomPayload,
        Flag::Warning,
    ];
    assert_eq!(Flag::get_collection(1 | 2 | 4 | 8), all);
    let some = vec![Flag::Compression, Flag::Warning];
    assert_eq!(Flag::get_collection(1 | 8), some);
    let one = vec![Flag::Compression];
    assert_eq!(Flag::get_collection(1), one);
}

#[test]
fn test_opcode_as_byte() {
    assert_eq!(Opcode::Error.as_byte(), 0x00);
    assert_eq!(Opcode::Startup.as_byte(), 0x01);
    assert_eq!(Opcode::Ready.as_byte(), 0x02);
    assert_eq!(Opcode::Authenticate.as_byte(), 0x03);
    assert_eq!(Opcode::Options.as_byte(), 0x05);
    assert_eq!(Opcode::Supported.as_byte(), 0x06);
    assert_eq!(Opcode::Query.as_byte(), 0x07);
    assert_eq!(Opcode::Result.as_byte(), 0x08);
    assert_eq!(Opcode::Prepare.as_byte(), 0x09);
    assert_eq!(Opcode::Execute.as_byte(), 0x0A);
    assert_eq!(Opcode::Register.as_byte(), 0x0B);
    assert_eq!(Opcode::Event.as_byte(), 0x0C);
    assert_eq!(Opcode::Batch.as_byte(), 0x0D);
    assert_eq!(Opcode::AuthChallenge.as_byte(), 0x0E);
    assert_eq!(Opcode::AuthResponse.as_byte(), 0x0F);
    assert_eq!(Opcode::AuthSuccess.as_byte(), 0x10);
}

#[test]
fn test_opcode_from() {
    assert_eq!(Opcode::from(0x00), Opcode::Error);
    assert_eq!(Opcode::from(0x01), Opcode::Startup);
    assert_eq!(Opcode::from(0x02), Opcode::Ready);
    assert_eq!(Opcode::from(0x03), Opcode::Authenticate);
    assert_eq!(Opcode::from(0x05), Opcode::Options);
    assert_eq!(Opcode::from(0x06), Opcode::Supported);
    assert_eq!(Opcode::from(0x07), Opcode::Query);
    assert_eq!(Opcode::from(0x08), Opcode::Result);
    assert_eq!(Opcode::from(0x09), Opcode::Prepare);
    assert_eq!(Opcode::from(0x0A), Opcode::Execute);
    assert_eq!(Opcode::from(0x0B), Opcode::Register);
    assert_eq!(Opcode::from(0x0C), Opcode::Event);
    assert_eq!(Opcode::from(0x0D), Opcode::Batch);
    assert_eq!(Opcode::from(0x0E), Opcode::AuthChallenge);
    assert_eq!(Opcode::from(0x0F), Opcode::AuthResponse);
    assert_eq!(Opcode::from(0x10), Opcode::AuthSuccess);
}

#[test]
fn test_stream_ids_distinct_and_wrap() {
    let mut alloc = StreamIdAllocator::new();
    let mut last = -1i32;
    for expected in 0..=0x7FFF_i32 {
        let id = get_next_stream_id(&mut alloc);
        assert_eq!(id as i32, expected);
        assert!(id as i32 > last);
        last = id as i32;
    }
    // after the topmost id, the next returned id is 0 again
    assert_eq!(get_next_stream_id(&mut alloc), 0);
    assert_eq!(get_next_stream_id(&mut alloc), 1);
}

#[test]
fn test_frame_round_trip_request() {
    let mut alloc = StreamIdAllocator::new();
    let f = Frame::new(
        Version::Request,
        vec![],
        Opcode::Query,
        vec![1, 2, 3, 4],
        None,
        vec![],
        &mut alloc,
    );
    let bytes = f.as_bytes(ProtocolVersion::V4);
    let g = Frame::parse(&bytes, ProtocolVersion::V4).unwrap();
    assert_eq!(g.version, Version::Request);
    assert_eq!(g.opcode, Opcode::Query);
    assert_eq!(g.stream, f.stream);
    assert_eq!(g.body, vec![1, 2, 3, 4]);
    assert!(g.tracing_id.is_none());
    assert!(g.warnings.is_empty());
}

#[test]
fn test_frame_round_trip_response_tracing_warnings() {
    let mut alloc = StreamIdAllocator::new();
    let tracing = cdrs_core::frame::CUuid {
        bytes: vec![9u8; 16],
    };
    let mut f = Frame::new(
        Version::Response,
        Flag::get_collection(0x02 | 0x08),
        Opcode::Result,
        vec![0, 0, 0, 1],
        Some(tracing),
        vec!["careful".to_string()],
        &mut alloc,
    );
    f.stream = 7;
    let bytes = f.as_bytes(ProtocolVersion::V4);
    assert_eq!(bytes[0], 0x84);
    assert_eq!(bytes[1], 0x0A);
    let g = Frame::parse(&bytes, ProtocolVersion::V4).unwrap();
    assert_eq!(g.version, Version::Response);
    assert_eq!(g.opcode, Opcode::Result);
    assert_eq!(g.stream, 7);
    assert_eq!(g.tracing_id.unwrap().bytes, vec![9u8; 16]);
    assert_eq!(g.warnings, vec!["careful".to_string()]);
    assert_eq!(g.body, vec![0, 0, 0, 1]);
}

#[test]
fn test_frame_parse_rejects_unknown_opcode() {
    // header with opcode byte 0x11, empty body
    let bytes = vec![0x04, 0x00, 0x00, 0x00, 0x11, 0x00, 0x00, 0x00, 0x00];
    assert!(Frame::parse(&bytes, ProtocolVersion::V4).is_err());
}

#[test]
fn test_frame_parse_rejects_negative_stream_non_event() {
    // stream id -1 with opcode Result is a decode failure
    let bytes = vec![0x84, 0x00, 0xFF, 0xFF, 0x08, 0x00, 0x00, 0x00, 0x00];
    assert!(Frame::parse(&bytes, ProtocolVersion::V4).is_err());
}
