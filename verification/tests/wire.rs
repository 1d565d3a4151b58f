use hexmeow_motor_iap::wire::MAX_ENCODED_LEN;
use hexmeow_motor_iap::{Frame, FrameAssembler, FrameError, FunctionCode, MAX_DATA_LEN};

const EVERY_FUNCTION: [FunctionCode; 14] = [
    FunctionCode::ResetRequest,
    FunctionCode::ResetAck,
    FunctionCode::EnterIapRequest,
    FunctionCode::EnterIapAck,
    FunctionCode::StartDownloadRequest,
    FunctionCode::StartDownloadAck,
    FunctionCode::SegmentARequest,
    FunctionCode::SegmentAAck,
    FunctionCode::SegmentBRequest,
    FunctionCode::SegmentBAck,
    FunctionCode::FinalDownloadRequest,
    FunctionCode::FinalDownloadAck,
    FunctionCode::VerifyRequest,
    FunctionCode::VerifyAck,
];

/// Bytes on the wire for these decoded bytes, which hold no long run.
fn stuffed(raw: &[u8]) -> Vec<u8> {
    let mut encoded = Vec::new();
    for run in raw.split(|byte| *byte == 0) {
        encoded.push(run.len() as u8 + 1);
        encoded.extend_from_slice(run);
    }
    encoded.push(0);
    encoded
}

fn with_crc(content: &[u8]) -> Vec<u8> {
    let crc = crc::Crc::<u16>::new(&crc::CRC_16_XMODEM).checksum(content);
    let mut raw = content.to_vec();
    raw.extend_from_slice(&crc.to_le_bytes());
    raw
}

#[test]
fn decodes_captured_enter_ack() {
    let wire = hex::decode("0401910c020108aaaa2510252008010103064800").unwrap();
    let frame = Frame::decode(&wire).unwrap();
    assert_eq!(frame.node_id(), 1);
    assert_eq!(frame.function(), FunctionCode::EnterIapAck);
    assert_eq!(
        frame.data(),
        hex::decode("0100aaaa2510252008000000").unwrap()
    );
}

#[test]
fn round_trips_maximum_frame() {
    let frame = Frame::request(
        127,
        FunctionCode::SegmentARequest,
        (0..=255).collect::<Vec<_>>(),
    )
    .unwrap();
    assert_eq!(Frame::decode(&frame.encode()).unwrap(), frame);
}

#[test]
fn assembler_consumes_two_frames_in_one_payload() {
    let first = Frame::new(1, FunctionCode::ResetAck, vec![1]).unwrap();
    let second = Frame::new(1, FunctionCode::VerifyAck, vec![1]).unwrap();
    let bytes = [first.encode(), second.encode()].concat();
    let results = FrameAssembler::new().feed(&bytes);
    assert_eq!(results.len(), 2);
    assert_eq!(results[0].as_ref().unwrap(), &first);
    assert_eq!(results[1].as_ref().unwrap(), &second);
}

#[test]
fn assembler_bounds_missing_delimiter() {
    let mut assembler = FrameAssembler::new();
    let results = assembler.feed(&vec![1; MAX_ENCODED_LEN + 1]);
    assert_eq!(
        results,
        vec![Err(FrameError::EncodedTooLong {
            maximum: MAX_ENCODED_LEN
        })]
    );
    assert!(assembler.feed(&[2, 3, 0]).is_empty());
}

#[test]
fn captured_frame_encodes_to_the_captured_bytes() {
    let wire = hex::decode("0401910c020108aaaa2510252008010103064800").unwrap();
    let frame = Frame::decode(&wire).unwrap();
    assert_eq!(frame.encode(), wire);
    let copy = frame.clone();
    assert_eq!(copy, frame);
}

#[test]
fn function_codes_are_fixed_and_unique() {
    assert_eq!(FunctionCode::ResetRequest.code(), 0x80);
    assert_eq!(FunctionCode::EnterIapAck.code(), 0x91);
    for (index, function) in EVERY_FUNCTION.iter().enumerate() {
        assert_eq!(FunctionCode::try_from(function.code()), Ok(*function));
        for other in &EVERY_FUNCTION[index + 1..] {
            assert_ne!(function.code(), other.code());
        }
    }
    assert_eq!(FunctionCode::try_from(0x00), Err(0x00));
    assert_eq!(FunctionCode::try_from(0xFF), Err(0xFF));
}

#[test]
fn only_requests_have_an_acknowledgement() {
    for pair in EVERY_FUNCTION.chunks(2) {
        assert_eq!(pair[0].expected_ack(), Some(pair[1]));
        assert_eq!(pair[1].expected_ack(), None);
    }
}

#[test]
fn building_a_frame_checks_node_and_size() {
    assert_eq!(
        Frame::new(0, FunctionCode::ResetRequest, vec![]).unwrap_err(),
        FrameError::InvalidNode(0)
    );
    assert_eq!(
        Frame::new(128, FunctionCode::ResetRequest, vec![]).unwrap_err(),
        FrameError::InvalidNode(128)
    );
    assert!(Frame::new(127, FunctionCode::SegmentARequest, vec![0; MAX_DATA_LEN]).is_ok());
    assert_eq!(
        Frame::new(1, FunctionCode::SegmentARequest, vec![0; MAX_DATA_LEN + 1]).unwrap_err(),
        FrameError::DataTooLarge {
            actual: 257,
            maximum: 256
        }
    );
}

#[test]
fn an_acknowledgement_is_no_request() {
    assert_eq!(
        Frame::request(1, FunctionCode::ResetAck, vec![1]).unwrap_err(),
        FrameError::NotARequest(FunctionCode::ResetAck)
    );
}

#[test]
fn decoding_rejects_every_kind_of_damage() {
    let raw = with_crc(&[1, 0x90, 1, 0, 1]);
    assert_eq!(
        Frame::decode(&stuffed(&raw)).unwrap(),
        Frame::new(1, FunctionCode::ResetAck, vec![1]).unwrap()
    );
    assert_eq!(
        Frame::decode(&stuffed(&raw[..5])).unwrap_err(),
        FrameError::TooShort(5)
    );
    assert_eq!(
        Frame::decode(&stuffed(&with_crc(&[0, 0x90, 1, 0, 1]))).unwrap_err(),
        FrameError::InvalidNode(0)
    );
    assert_eq!(
        Frame::decode(&stuffed(&with_crc(&[1, 0x7F, 1, 0, 1]))).unwrap_err(),
        FrameError::UnknownFunction(0x7F)
    );
    assert_eq!(
        Frame::decode(&stuffed(&with_crc(&[1, 0x90, 2, 0, 1]))).unwrap_err(),
        FrameError::LengthMismatch {
            declared: 2,
            actual: 1
        }
    );
    let mut damaged = raw.clone();
    damaged[5] ^= 1;
    let received = u16::from_le_bytes([damaged[5], damaged[6]]);
    assert_eq!(
        Frame::decode(&stuffed(&damaged)).unwrap_err(),
        FrameError::CrcMismatch {
            received,
            computed: received ^ 1
        }
    );
    assert_eq!(
        Frame::decode(&[5, 1, 2, 0]).unwrap_err(),
        FrameError::InvalidCobs
    );
}

#[test]
fn the_delimiter_is_optional_when_decoding() {
    let frame = Frame::new(9, FunctionCode::VerifyAck, vec![1]).unwrap();
    let encoded = frame.encode();
    assert_eq!(*encoded.last().unwrap(), 0);
    assert!(!encoded[..encoded.len() - 1].contains(&0));
    assert_eq!(
        Frame::decode(&encoded[..encoded.len() - 1]).unwrap(),
        frame
    );
}

#[test]
fn a_probe_is_one_classic_message() {
    for node in 1..=127 {
        let probe = Frame::request(node, FunctionCode::EnterIapRequest, vec![]).unwrap();
        assert_eq!(probe.encode().len(), 8);
    }
}

#[test]
fn the_longest_frame_stays_within_the_bound() {
    let frame = Frame::new(1, FunctionCode::SegmentARequest, vec![0x55; 256]).unwrap();
    let encoded = frame.encode();
    assert!(encoded.len() <= MAX_ENCODED_LEN + 1);
    let results = FrameAssembler::default().feed(&encoded);
    assert_eq!(results, vec![Ok(frame)]);
}

#[test]
fn assembling_byte_by_byte_changes_nothing() {
    let frames = [
        Frame::new(1, FunctionCode::EnterIapAck, vec![0; 12]).unwrap(),
        Frame::new(2, FunctionCode::SegmentARequest, (0..=255).collect()).unwrap(),
    ];
    let bytes: Vec<u8> = frames.iter().flat_map(|frame| frame.encode()).collect();
    let mut assembler = FrameAssembler::new();
    let mut results = Vec::new();
    for byte in &bytes {
        results.extend(assembler.feed(&[*byte]));
    }
    assert_eq!(results, FrameAssembler::new().feed(&bytes));
    assert_eq!(results.len(), 2);
    assert_eq!(results[1].as_ref().unwrap(), &frames[1]);
}

#[test]
fn a_delimiter_resynchronizes() {
    let frame = Frame::new(3, FunctionCode::ResetAck, vec![1]).unwrap();
    let mut assembler = FrameAssembler::new();
    let noise = assembler.feed(&[0xAA, 0xBB, 0]);
    assert_eq!(noise, vec![Err(FrameError::InvalidCobs)]);
    assert!(assembler.feed(&[0, 0, 0]).is_empty());
    assert_eq!(assembler.feed(&frame.encode()), vec![Ok(frame)]);
}

#[test]
fn a_reset_forgets_a_partial_frame() {
    let frame = Frame::new(3, FunctionCode::ResetAck, vec![1]).unwrap();
    let encoded = frame.encode();
    let mut assembler = FrameAssembler::new();
    assert!(assembler.feed(&encoded[..4]).is_empty());
    assembler.reset();
    assert_eq!(assembler.feed(&encoded), vec![Ok(frame)]);
}

#[test]
fn a_given_crc_is_appended_and_compared() {
    let frame = Frame::new(1, FunctionCode::ResetAck, vec![1]).unwrap();
    assert_eq!(frame.covered(), [1, 0x90, 1, 0, 1]);
    assert_eq!(
        frame.encode_with(0x1234),
        [4, 1, 0x90, 1, 4, 1, 0x34, 0x12, 0]
    );
    let raw = [1, 0x90, 1, 0, 1, 0x34, 0x12];
    assert_eq!(Frame::check_raw(&raw, 0x1234).unwrap(), frame);
    assert_eq!(
        Frame::check_raw(&raw, 0x1235).unwrap_err(),
        FrameError::CrcMismatch {
            received: 0x1234,
            computed: 0x1235
        }
    );
    assert_eq!(
        Frame::check_raw(&raw[..5], 0x1234).unwrap_err(),
        FrameError::TooShort(5)
    );
    assert_eq!(
        Frame::check_raw(&[1, 0x90, 1, 1, 1, 0, 0], 0).unwrap_err(),
        FrameError::DataTooLarge {
            actual: 257,
            maximum: 256
        }
    );
}

#[test]
fn the_crc_is_xmodem() {
    // The catalogue's check value is that of the digits one to nine.
    assert_eq!(
        crc::Crc::<u16>::new(&crc::CRC_16_XMODEM).checksum(b"123456789"),
        0x31C3
    );
    let frame = Frame::new(1, FunctionCode::ResetAck, vec![1]).unwrap();
    let crc = crc::Crc::<u16>::new(&crc::CRC_16_XMODEM).checksum(&frame.covered());
    assert_eq!(frame.encode(), frame.encode_with(crc));
    assert_ne!(frame.encode(), frame.encode_with(crc ^ 1));
}

/// The remainder by the polynomial 0x1021, bit by bit.
fn bitwise_crc(data: &[u8]) -> u16 {
    let mut crc = 0u16;
    for byte in data {
        crc ^= (*byte as u16) << 8;
        for _ in 0..8 {
            crc = if crc & 0x8000 != 0 {
                (crc << 1) ^ 0x1021
            } else {
                crc << 1
            };
        }
    }
    crc
}

#[test]
fn the_crc_is_the_remainder_by_its_polynomial() {
    assert_eq!(bitwise_crc(b"123456789"), 0x31C3);
    for size in 0..=256usize {
        let data: Vec<u8> = (0..size).map(|index| (index * 89 + size) as u8).collect();
        let frame = Frame::new(1, FunctionCode::SegmentARequest, data).unwrap();
        assert_eq!(
            frame.encode(),
            frame.encode_with(bitwise_crc(&frame.covered()))
        );
    }
    let captured = hex::decode("01910c000100aaaa2510252008000000").unwrap();
    assert_eq!(bitwise_crc(&captured), 0x4806);
}
