use std::collections::VecDeque;

use hexmeow_motor_iap::can::cut_piece;
use hexmeow_motor_iap::engine::{check_cancel, require_success, validate_options, with_recovery};
use hexmeow_motor_iap::{
    Action, AssertedTarget, CanMessage, CancellationToken, CanopenIdentity, Duration, FlashError,
    FlashEvent, FlashOptions, FlashOutcome, FlashSession, FlashStage, Frame, FrameAssembler,
    FunctionCode, IapPolicy, ImgArtifact, ImgLimits, MessageId, PolicyError, PreparedUpgrade,
    Reading, ReadyToFlash, RegisteredTarget, Reply, TargetRegistry, IMG_TAG_SIZE,
};
use sha2::{Digest, Sha256};

/// A well-formed image file.
fn make_image(
    device_id: u32,
    firmware_id: u32,
    start: u32,
    bin_len: usize,
    encrypted: bool,
) -> Vec<u8> {
    let mut bytes = vec![0u8; IMG_TAG_SIZE + bin_len];
    bytes[0..4].copy_from_slice(&device_id.to_le_bytes());
    bytes[4..8].copy_from_slice(&firmware_id.to_le_bytes());
    bytes[8..12].copy_from_slice(&8u32.to_le_bytes());
    bytes[12..16].copy_from_slice(&(encrypted as u32).to_le_bytes());
    if encrypted {
        bytes[48..112].fill(0x5A);
        bytes[112..128].fill(0xA5);
    }
    bytes[128..132].copy_from_slice(&start.to_le_bytes());
    let end = start + bin_len as u32 - 1;
    bytes[132..136].copy_from_slice(&end.to_le_bytes());
    bytes[136..140].copy_from_slice(&(bin_len as u32).to_le_bytes());
    for (index, byte) in bytes[IMG_TAG_SIZE..].iter_mut().enumerate() {
        *byte = index.wrapping_mul(17) as u8;
    }
    rehash(&mut bytes);
    bytes
}

/// Write the hash that the file's content calls for.
fn rehash(bytes: &mut [u8]) {
    let mut hasher = Sha256::new();
    hasher.update(&bytes[0..16]);
    hasher.update(&bytes[112..128]);
    hasher.update(&bytes[128..IMG_TAG_SIZE]);
    hasher.update(&bytes[IMG_TAG_SIZE..]);
    let hash = hasher.finalize();
    bytes[16..48].copy_from_slice(&hash);
}


/// A simulated device at node 1, and the bus that leads to it.
struct Device {
    assembler: FrameAssembler,
    requests: Vec<FunctionCode>,
    frames: Vec<Frame>,
    inbox: VecDeque<CanMessage>,
    drop_ack: Option<FunctionCode>,
    nak: Option<FunctionCode>,
    /// Enter-IAP knocks to swallow before the bootloader window opens.
    deaf_knocks: usize,
    identity: Vec<u8>,
    subscription: Result<(), String>,
    /// Fail to send from this message on.
    broken_from: usize,
    sent: usize,
    receiver: Result<(), String>,
    /// Set the flag once this request was seen.
    cancel_on: Option<FunctionCode>,
}

impl Device {
    fn new(drop_ack: Option<FunctionCode>, nak: Option<FunctionCode>) -> Self {
        Self {
            assembler: FrameAssembler::new(),
            requests: Vec::new(),
            frames: Vec::new(),
            inbox: VecDeque::new(),
            drop_ack,
            nak,
            deaf_knocks: 0,
            identity: identity_payload(0xAAAA_0001, 0x2025_1025, 8),
            subscription: Ok(()),
            broken_from: usize::MAX,
            sent: 0,
            receiver: Ok(()),
            cancel_on: None,
        }
    }

    fn deaf_for(mut self, knocks: usize) -> Self {
        self.deaf_knocks = knocks;
        self
    }

    fn send(&mut self, id: u16, data: &[u8], token: &CancellationToken) -> Reply {
        assert_eq!(id, 0x781);
        assert!(!data.is_empty() && data.len() <= 8);
        self.sent += 1;
        if self.sent > self.broken_from {
            return Reply::Failed("bus off".to_string());
        }
        for request in self.assembler.feed(data) {
            let request = request.unwrap();
            self.requests.push(request.function());
            self.frames.push(request.clone());
            if self.cancel_on == Some(request.function()) {
                token.cancel();
            }
            if self.drop_ack == Some(request.function()) {
                continue;
            }
            if request.function() == FunctionCode::EnterIapRequest && self.deaf_knocks > 0 {
                self.deaf_knocks -= 1;
                continue;
            }
            let function = request.function().expected_ack().unwrap();
            let payload = if function == FunctionCode::EnterIapAck {
                self.identity.clone()
            } else if self.nak == Some(request.function()) {
                vec![0]
            } else {
                vec![1]
            };
            let ack = Frame::new(request.node_id(), function, payload).unwrap();
            for chunk in ack.encode().chunks(8) {
                self.inbox.push_back(message(0x681, chunk));
            }
        }
        Reply::Done
    }
}

fn message(id: u16, data: &[u8]) -> CanMessage {
    CanMessage {
        id: MessageId::Standard(id),
        fd: false,
        remote: false,
        data: data.to_vec(),
    }
}

fn identity_payload(device_id: u32, firmware_id: u32, version: u32) -> Vec<u8> {
    [
        device_id.to_le_bytes(),
        firmware_id.to_le_bytes(),
        version.to_le_bytes(),
    ]
    .concat()
}

struct Run {
    result: Result<FlashOutcome, FlashError>,
    events: Vec<FlashEvent>,
    pauses: Vec<Duration>,
}

/// Drive an update against the device, on a simulated clock.
fn drive(mut session: FlashSession, device: &mut Device, token: &CancellationToken) -> Run {
    let mut now = Duration::from_secs(1);
    let mut events = Vec::new();
    let mut pauses = Vec::new();
    let mut reply = Reply::Done;
    loop {
        assert!(session.awaits(&reply));
        reply = match session.advance(reply, now, token) {
            Action::Subscribe { id } => {
                assert_eq!(id, 0x681);
                match &device.subscription {
                    Ok(()) => Reply::Done,
                    Err(error) => Reply::Failed(error.clone()),
                }
            }
            Action::Transmit { id, data } => device.send(id, &data, token),
            Action::Pause(span) => {
                now = now.plus(span);
                pauses.push(span);
                Reply::Done
            }
            Action::Listen(span) => match device.inbox.pop_front() {
                Some(message) => Reply::Received(message),
                None => match &device.receiver {
                    Ok(()) => {
                        now = now.plus(span);
                        Reply::TimedOut
                    }
                    Err(error) => Reply::Failed(error.clone()),
                },
            },
            Action::Report(event) => {
                events.push(event);
                Reply::Done
            }
            Action::Finish(result) => {
                assert!(session.is_over());
                assert!(!session.awaits(&Reply::Done));
                return Run {
                    result,
                    events,
                    pauses,
                };
            }
        };
    }
}

fn canopen() -> CanopenIdentity {
    CanopenIdentity::new(1, 0x4859_444C, 0xAAAA_0001, 7, 123).unwrap()
}

fn motor_4310() -> RegisteredTarget {
    RegisteredTarget::enabled(
        "compatible-motor-4310-v1",
        0x4859_444C,
        0xAAAA_0001,
        IapPolicy::new(0xAAAA_0001, vec![0x2025_1025], 0x1000_C000, true).unwrap(),
    )
    .unwrap()
}

fn ready(bin_len: usize) -> ReadyToFlash {
    let registry = TargetRegistry::new(vec![motor_4310()]).unwrap();
    let target = registry.authorize(canopen()).unwrap();
    let bytes = make_image(0xAAAA_0001, 0x2025_1025, 0x1000_C000, bin_len, true);
    let artifact = ImgArtifact::parse(&bytes, ImgLimits::default()).unwrap();
    PreparedUpgrade::bind(target, artifact)
        .unwrap()
        .revalidate(canopen(), &registry)
        .unwrap()
}

fn asserted(bin_len: usize) -> AssertedTarget {
    let bytes = make_image(0xAAAA_0001, 0x2025_1025, 0x1000_C000, bin_len, true);
    let artifact = ImgArtifact::parse(&bytes, ImgLimits::default()).unwrap();
    AssertedTarget::assert_profile(&motor_4310(), artifact).unwrap()
}

fn fast_options() -> FlashOptions {
    FlashOptions {
        knock_start_delay: Duration::from_nanos(0),
        knock_interval: Duration::from_millis(5),
        knock_window: Duration::from_millis(50),
        reset_timeout: Duration::from_millis(5),
        start_timeout: Duration::from_millis(5),
        segment_timeout: Duration::from_millis(5),
        final_timeout: Duration::from_millis(5),
        verify_timeout: Duration::from_millis(5),
        reset_attempts: 1,
        tx_burst_frames: 15,
        tx_burst_pause: Duration::from_nanos(0),
    }
}

fn flash(device: &mut Device, bin_len: usize) -> Run {
    let session = FlashSession::flash(ready(bin_len), fast_options()).unwrap();
    drive(session, device, &CancellationToken::new())
}

#[test]
fn fake_device_runs_the_exact_six_stage_flow() {
    let mut device = Device::new(None, None);
    let run = flash(&mut device, 300);
    let outcome = run.result.unwrap();
    assert_eq!(outcome.iap_identity().current_version(), 8);
    assert_eq!(
        device.requests,
        vec![
            FunctionCode::ResetRequest,
            FunctionCode::EnterIapRequest,
            FunctionCode::StartDownloadRequest,
            FunctionCode::SegmentARequest,
            FunctionCode::SegmentBRequest,
            FunctionCode::FinalDownloadRequest,
            FunctionCode::VerifyRequest,
        ]
    );
    assert!(run.events.contains(&FlashEvent::Progress {
        written: 300,
        total: 300,
    }));
}

#[test]
fn enter_iap_keeps_knocking_until_the_bootloader_window_opens() {
    // A device that ignores the first five knocks still gets entered: the
    // single documented shot at a fixed reboot delay would have missed it.
    let mut device = Device::new(None, None).deaf_for(5);
    flash(&mut device, 16).result.unwrap();
    let knocks = device
        .requests
        .iter()
        .filter(|function| **function == FunctionCode::EnterIapRequest)
        .count();
    assert_eq!(knocks, 6);
}

#[test]
fn a_window_that_never_opens_fails_before_anything_destructive() {
    let mut device = Device::new(None, None).deaf_for(usize::MAX);
    let error = flash(&mut device, 16).result.unwrap_err();
    assert!(matches!(
        error,
        FlashError::AckTimeout {
            stage: FlashStage::EnteringBootloader,
            recovery_required: false,
        }
    ));
    assert!(device.requests.iter().all(|function| matches!(
        function,
        FunctionCode::ResetRequest | FunctionCode::EnterIapRequest
    )));
    // Ten intervals fill the window.
    assert_eq!(device.requests.len(), 11);
}

#[test]
fn destructive_timeout_is_not_retried() {
    let mut device = Device::new(Some(FunctionCode::StartDownloadRequest), None);
    let error = flash(&mut device, 16).result.unwrap_err();
    assert!(matches!(
        error,
        FlashError::AckTimeout {
            stage: FlashStage::StartingDownload,
            recovery_required: true,
        }
    ));
    assert_eq!(
        device
            .requests
            .iter()
            .filter(|function| **function == FunctionCode::StartDownloadRequest)
            .count(),
        1
    );
}

#[test]
fn definitive_start_nak_is_before_erase_rejection() {
    let mut device = Device::new(None, Some(FunctionCode::StartDownloadRequest));
    let error = flash(&mut device, 16).result.unwrap_err();
    assert!(matches!(
        error,
        FlashError::Rejected {
            stage: FlashStage::StartingDownload,
            recovery_required: false,
            ..
        }
    ));
}

#[test]
fn cancellation_before_reset_sends_nothing() {
    let mut device = Device::new(None, None);
    let cancellation = CancellationToken::new();
    cancellation.cancel();
    let session = FlashSession::flash(ready(16), fast_options()).unwrap();
    let error = drive(session, &mut device, &cancellation).result.unwrap_err();
    assert!(matches!(
        error,
        FlashError::Cancelled {
            stage: FlashStage::Resetting,
            recovery_required: false,
        }
    ));
    assert!(device.requests.is_empty());
}

#[test]
fn recovery_writes_without_a_reset() {
    // A device that has stopped acknowledging cannot be sent a reset at all,
    // so recovery has to start from the knock.
    let mut device = Device::new(None, None);
    let session = FlashSession::recover(1, &asserted(300), fast_options()).unwrap();
    drive(session, &mut device, &CancellationToken::new())
        .result
        .unwrap();
    assert_eq!(
        device.requests,
        vec![
            FunctionCode::EnterIapRequest,
            FunctionCode::StartDownloadRequest,
            FunctionCode::SegmentARequest,
            FunctionCode::SegmentBRequest,
            FunctionCode::FinalDownloadRequest,
            FunctionCode::VerifyRequest,
        ]
    );
}

#[test]
fn asserting_a_profile_does_not_excuse_the_artifact() {
    // Naming the profile replaces the identity read and nothing else.
    let bytes = make_image(0xAAAA_0001, 0x2025_1209, 0x1000_C000, 16, true);
    let artifact = ImgArtifact::parse(&bytes, ImgLimits::default()).unwrap();
    assert!(AssertedTarget::assert_profile(&motor_4310(), artifact).is_err());
}

#[test]
fn a_disabled_profile_cannot_be_asserted() {
    let target = RegisteredTarget::disabled(
        "compatible-motor-4360-v1",
        0x4859_444C,
        0xAAAA_0005,
        "not qualified",
    )
    .unwrap();
    let bytes = make_image(0xAAAA_0001, 0x2025_1025, 0x1000_C000, 16, true);
    let artifact = ImgArtifact::parse(&bytes, ImgLimits::default()).unwrap();
    assert!(matches!(
        AssertedTarget::assert_profile(&target, artifact),
        Err(PolicyError::ProfileChanged)
    ));
}

#[test]
fn recovery_still_refuses_an_unaddressable_node() {
    let error = FlashSession::recover(0, &asserted(16), fast_options()).unwrap_err();
    assert!(matches!(error, FlashError::InvalidNode(0)));
    let error = FlashSession::recover(128, &asserted(16), fast_options()).unwrap_err();
    assert!(matches!(error, FlashError::InvalidNode(128)));
    assert!(FlashSession::recover(127, &asserted(16), fast_options()).is_ok());
}

#[test]
fn the_device_receives_the_image_piece_by_piece() {
    let mut device = Device::new(None, None);
    let run = flash(&mut device, 600);
    run.result.unwrap();
    let bytes = make_image(0xAAAA_0001, 0x2025_1025, 0x1000_C000, 600, true);
    assert_eq!(device.frames[2].data(), &bytes[..140]);
    let segments: Vec<u8> = device.frames[3..6]
        .iter()
        .flat_map(|frame| frame.data().to_vec())
        .collect();
    assert_eq!(segments, &bytes[140..]);
    assert_eq!(device.frames[3].data().len(), 256);
    assert_eq!(device.frames[5].data().len(), 88);
    assert_eq!(device.frames[5].function(), FunctionCode::SegmentARequest);
    assert!(device.frames[6].data().is_empty());
    assert_eq!(device.frames[7].data(), &bytes[..140]);
    assert_eq!(device.frames.len(), 8);
}

#[test]
fn events_tell_the_whole_story_in_order() {
    let mut device = Device::new(None, None);
    let run = flash(&mut device, 300);
    let identity = run.result.unwrap().iap_identity();
    assert_eq!(
        run.events,
        vec![
            FlashEvent::Stage(FlashStage::Resetting),
            FlashEvent::Stage(FlashStage::EnteringBootloader),
            FlashEvent::Stage(FlashStage::IdentityVerified),
            FlashEvent::IapIdentity(identity),
            FlashEvent::Stage(FlashStage::StartingDownload),
            FlashEvent::Stage(FlashStage::Transferring),
            FlashEvent::Progress {
                written: 256,
                total: 300
            },
            FlashEvent::Stage(FlashStage::Transferring),
            FlashEvent::Progress {
                written: 300,
                total: 300
            },
            FlashEvent::Stage(FlashStage::Finalizing),
            FlashEvent::Stage(FlashStage::Verifying),
        ]
    );
}

#[test]
fn bursts_are_paced() {
    let options = FlashOptions {
        tx_burst_frames: 4,
        tx_burst_pause: Duration::from_millis(1),
        ..fast_options()
    };
    let mut device = Device::new(None, None);
    let session = FlashSession::recover(1, &asserted(16), options).unwrap();
    let run = drive(session, &mut device, &CancellationToken::new());
    run.result.unwrap();
    // One pause before knocking, and one per four messages of a request: the
    // tag takes nineteen, the segment three, and the others one each.
    assert_eq!(run.pauses.len(), 1 + 4 + 4);
    assert_eq!(run.pauses[0], Duration::from_nanos(0));
    assert!(run.pauses[1..].iter().all(|span| *span == Duration::from_millis(1)));
}

#[test]
fn resetting_is_tried_again_within_bounds() {
    let options = FlashOptions {
        reset_attempts: 3,
        ..fast_options()
    };
    let mut device = Device::new(Some(FunctionCode::ResetRequest), None);
    let session = FlashSession::flash(ready(16), options).unwrap();
    let error = drive(session, &mut device, &CancellationToken::new())
        .result
        .unwrap_err();
    assert!(matches!(
        error,
        FlashError::AckTimeout {
            stage: FlashStage::Resetting,
            recovery_required: false,
        }
    ));
    assert_eq!(device.requests, vec![FunctionCode::ResetRequest; 3]);
}

#[test]
fn every_later_failure_asks_for_recovery() {
    for (request, stage) in [
        (FunctionCode::SegmentARequest, FlashStage::Transferring),
        (FunctionCode::FinalDownloadRequest, FlashStage::Finalizing),
        (FunctionCode::VerifyRequest, FlashStage::Verifying),
    ] {
        let mut device = Device::new(Some(request), None);
        let error = flash(&mut device, 16).result.unwrap_err();
        assert!(error.recovery_required());
        assert!(matches!(error, FlashError::AckTimeout { stage: at, .. } if at == stage));

        let mut device = Device::new(None, Some(request));
        let error = flash(&mut device, 16).result.unwrap_err();
        assert!(error.recovery_required());
        match error {
            FlashError::Rejected {
                stage: at, payload, ..
            } => {
                assert_eq!(at, stage);
                assert_eq!(payload, vec![0]);
            }
            other => panic!("unexpected {:?}", other),
        }
    }
}

#[test]
fn a_rejected_reset_needs_no_recovery() {
    let mut device = Device::new(None, Some(FunctionCode::ResetRequest));
    let error = flash(&mut device, 16).result.unwrap_err();
    assert!(matches!(
        error,
        FlashError::Rejected {
            stage: FlashStage::Resetting,
            recovery_required: false,
            ..
        }
    ));
}

#[test]
fn a_foreign_bootloader_is_not_written() {
    for (identity, seen) in [
        (identity_payload(0xAAAA_0002, 0x2025_1025, 8), "device"),
        (identity_payload(0xAAAA_0001, 0x2025_1026, 8), "firmware"),
        (vec![0xFF; 12], "missing"),
        (vec![1; 11], "short"),
    ] {
        let mut device = Device::new(None, None);
        device.identity = identity;
        let error = flash(&mut device, 16).result.unwrap_err();
        assert!(!error.recovery_required());
        match (seen, error) {
            ("device", FlashError::IapDeviceMismatch { expected, actual }) => {
                assert_eq!((expected, actual), (0xAAAA_0001, 0xAAAA_0002));
            }
            ("firmware", FlashError::IapFirmwareMismatch { expected, actual }) => {
                assert_eq!((expected, actual), (0x2025_1025, 0x2025_1026));
            }
            ("missing", FlashError::InvalidIapIdentity { detail }) => assert_eq!(
                detail,
                "Enter-IAP identity is unavailable (all fields are 0xFFFFFFFF)"
            ),
            ("short", FlashError::InvalidIapIdentity { detail }) => {
                assert_eq!(detail, "Enter-IAP identity is 11 bytes, expected exactly 12")
            }
            (_, other) => panic!("unexpected {:?}", other),
        }
        assert_eq!(
            device.requests,
            vec![FunctionCode::ResetRequest, FunctionCode::EnterIapRequest]
        );
    }
}

#[test]
fn cancellation_falls_between_requests() {
    for (request, stage, recovery) in [
        (
            FunctionCode::ResetRequest,
            FlashStage::EnteringBootloader,
            false,
        ),
        (
            FunctionCode::EnterIapRequest,
            FlashStage::StartingDownload,
            false,
        ),
        (
            FunctionCode::StartDownloadRequest,
            FlashStage::Transferring,
            true,
        ),
        (FunctionCode::SegmentARequest, FlashStage::Finalizing, true),
        (
            FunctionCode::FinalDownloadRequest,
            FlashStage::Verifying,
            true,
        ),
    ] {
        let mut device = Device::new(None, None);
        device.cancel_on = Some(request);
        let error = flash(&mut device, 16).result.unwrap_err();
        match error {
            FlashError::Cancelled {
                stage: at,
                recovery_required,
            } => {
                assert_eq!(at, stage);
                assert_eq!(recovery_required, recovery);
            }
            other => panic!("unexpected {:?}", other),
        }
        assert_eq!(device.requests.last(), Some(&request));
    }
    // Once Verify is out, only its answer counts.
    let mut device = Device::new(None, None);
    device.cancel_on = Some(FunctionCode::VerifyRequest);
    assert!(flash(&mut device, 16).result.is_ok());
}

#[test]
fn a_failed_subscription_sends_nothing() {
    let mut device = Device::new(None, None);
    device.subscription = Err("no such interface".to_string());
    let error = flash(&mut device, 16).result.unwrap_err();
    match error {
        FlashError::Transport {
            stage,
            detail,
            recovery_required,
        } => {
            assert_eq!(stage, FlashStage::Resetting);
            assert_eq!(
                detail,
                "subscribing to exact ACK ID 0x681: no such interface"
            );
            assert!(!recovery_required);
        }
        other => panic!("unexpected {:?}", other),
    }
    let session = FlashSession::recover(1, &asserted(16), fast_options()).unwrap();
    let error = drive(session, &mut device, &CancellationToken::new())
        .result
        .unwrap_err();
    assert!(matches!(
        error,
        FlashError::Transport {
            stage: FlashStage::EnteringBootloader,
            recovery_required: false,
            ..
        }
    ));
    assert_eq!(device.sent, 0);
}

#[test]
fn a_broken_bus_is_ambiguous_only_for_destructive_requests() {
    let mut device = Device::new(None, None);
    device.broken_from = 0;
    let error = flash(&mut device, 16).result.unwrap_err();
    assert!(matches!(
        error,
        FlashError::Transport {
            stage: FlashStage::Resetting,
            recovery_required: false,
            ..
        }
    ));

    // Reset and one knock pass, then the twelfth message of StartDownload fails.
    let mut device = Device::new(None, None);
    device.broken_from = 2 + 11;
    let error = flash(&mut device, 16).result.unwrap_err();
    match error {
        FlashError::Transport {
            stage,
            detail,
            recovery_required,
        } => {
            assert_eq!(stage, FlashStage::StartingDownload);
            assert_eq!(
                detail,
                "sending COBS chunk 12 (the request outcome is ambiguous): bus off"
            );
            assert!(recovery_required);
        }
        other => panic!("unexpected {:?}", other),
    }
}

#[test]
fn knocks_that_cannot_be_sent_do_not_end_the_session() {
    let mut device = Device::new(None, None);
    device.broken_from = 1;
    let error = flash(&mut device, 16).result.unwrap_err();
    assert!(matches!(
        error,
        FlashError::AckTimeout {
            stage: FlashStage::EnteringBootloader,
            recovery_required: false,
        }
    ));
    assert_eq!(device.sent, 11);
}

#[test]
fn a_receiver_that_fails_ends_the_session() {
    let mut device = Device::new(Some(FunctionCode::SegmentARequest), None);
    device.receiver = Err("gone".to_string());
    let error = flash(&mut device, 16).result.unwrap_err();
    match error {
        FlashError::Transport {
            stage,
            detail,
            recovery_required,
        } => {
            assert_eq!(stage, FlashStage::Transferring);
            assert_eq!(detail, "receiving ACK: gone");
            assert!(recovery_required);
        }
        other => panic!("unexpected {:?}", other),
    }
}

#[test]
fn an_old_capability_sends_nothing() {
    let mut session = FlashSession::flash(ready(16), fast_options()).unwrap();
    let mut reading = Reading {
        now: Duration::from_secs(0),
        cancelled: false,
        age: Duration::from_secs(2),
    };
    assert!(matches!(
        session.step(Reply::Done, reading),
        Action::Subscribe { id: 0x681 }
    ));
    reading.age = Duration::from_nanos(2_000_000_001);
    match session.step(Reply::Done, reading) {
        Action::Finish(Err(FlashError::Policy(error))) => {
            assert_eq!(error, PolicyError::ReadyExpired)
        }
        other => panic!("unexpected {:?}", other),
    }
    assert!(session.is_over());

    let mut session = FlashSession::flash(ready(16), fast_options()).unwrap();
    reading.age = Duration::from_secs(2);
    session.step(Reply::Done, reading);
    assert!(matches!(
        session.step(Reply::Done, reading),
        Action::Transmit { id: 0x781, .. }
    ));
}

#[test]
fn a_message_that_cannot_be_built_is_reported_as_such() {
    let mut session = FlashSession::flash(ready(16), fast_options()).unwrap();
    let reading = Reading {
        now: Duration::from_secs(0),
        cancelled: false,
        age: Duration::from_secs(0),
    };
    session.step(Reply::Done, reading);
    session.step(Reply::Done, reading);
    let refused = Reply::Refused("too long".to_string());
    assert!(session.awaits(&refused));
    match session.step(refused, reading) {
        Action::Finish(Err(FlashError::Transport {
            stage,
            detail,
            recovery_required,
        })) => {
            assert_eq!(stage, FlashStage::Resetting);
            assert_eq!(detail, "constructing Classic CAN frame: too long");
            assert!(!recovery_required);
        }
        other => panic!("unexpected {:?}", other),
    }
}

#[test]
fn only_classic_data_messages_from_the_node_count() {
    let reading = Reading {
        now: Duration::from_secs(0),
        cancelled: false,
        age: Duration::from_secs(0),
    };
    let ack = Frame::new(1, FunctionCode::ResetAck, vec![1]).unwrap().encode();
    let strangers: Vec<fn(&mut CanMessage)> = vec![
        |message| message.fd = true,
        |message| message.remote = true,
        |message| message.id = MessageId::Extended(0x681),
        |message| message.id = MessageId::Standard(0x682),
    ];
    let mut session = FlashSession::flash(ready(16), fast_options()).unwrap();
    session.step(Reply::Done, reading);
    session.step(Reply::Done, reading);
    assert!(matches!(
        session.step(Reply::Done, reading),
        Action::Report(FlashEvent::Stage(FlashStage::Resetting))
    ));
    match session.step(Reply::Done, reading) {
        Action::Listen(span) => assert_eq!(span, Duration::from_millis(5)),
        other => panic!("unexpected {:?}", other),
    }
    for change in strangers {
        for index in 0..2 {
            let mut stranger = message(0x681, &cut_piece(&ack, index));
            change(&mut stranger);
            assert!(matches!(
                session.step(Reply::Received(stranger), reading),
                Action::Listen(_)
            ));
        }
    }
    // An answer to something else does not count either.
    let other = Frame::new(1, FunctionCode::VerifyAck, vec![1]).unwrap().encode();
    for index in 0..2 {
        assert!(matches!(
            session.step(
                Reply::Received(message(0x681, &cut_piece(&other, index))),
                reading
            ),
            Action::Listen(_)
        ));
    }
    assert!(matches!(
        session.step(
            Reply::Received(message(0x681, &cut_piece(&ack, 0))),
            reading
        ),
        Action::Listen(_)
    ));
    assert!(matches!(
        session.step(
            Reply::Received(message(0x681, &cut_piece(&ack, 1))),
            reading
        ),
        Action::Report(FlashEvent::Stage(FlashStage::EnteringBootloader))
    ));
}

#[test]
fn a_session_waits_for_fitting_replies_only() {
    let reading = Reading {
        now: Duration::from_secs(0),
        cancelled: false,
        age: Duration::from_secs(0),
    };
    let mut session = FlashSession::flash(ready(16), fast_options()).unwrap();
    assert!(session.awaits(&Reply::Done));
    assert!(!session.awaits(&Reply::TimedOut));
    session.step(Reply::Done, reading);
    assert!(session.awaits(&Reply::Failed(String::new())));
    assert!(!session.awaits(&Reply::Received(message(0x681, &[]))));
    session.step(Reply::Done, reading);
    assert!(session.awaits(&Reply::Refused(String::new())));
    session.step(Reply::Done, reading);
    assert!(!session.awaits(&Reply::Failed(String::new())));
    session.step(Reply::Done, reading);
    assert!(session.awaits(&Reply::Received(message(0x681, &[]))));
    assert!(session.awaits(&Reply::TimedOut));
    assert!(!session.awaits(&Reply::Done));
    assert!(!session.is_over());
}

#[test]
fn options_are_validated() {
    assert!(validate_options(&FlashOptions::default()).is_ok());
    for (options, reason) in [
        (
            FlashOptions {
                reset_attempts: 0,
                tx_burst_frames: 0,
                ..fast_options()
            },
            "attempt counts must be non-zero",
        ),
        (
            FlashOptions {
                tx_burst_frames: 0,
                knock_interval: Duration::from_nanos(0),
                ..fast_options()
            },
            "tx_burst_frames must be non-zero",
        ),
        (
            FlashOptions {
                knock_interval: Duration::from_nanos(0),
                ..fast_options()
            },
            "knock_interval must be non-zero",
        ),
    ] {
        match FlashSession::flash(ready(16), options).unwrap_err() {
            FlashError::InvalidOptions(text) => assert_eq!(text, reason),
            other => panic!("unexpected {:?}", other),
        }
        // Options are checked before the node.
        assert!(matches!(
            FlashSession::recover(0, &asserted(16), options).unwrap_err(),
            FlashError::InvalidOptions(_)
        ));
    }
}

#[test]
fn default_options_cover_the_measured_window() {
    let options = FlashOptions::default();
    assert_eq!(options.knock_start_delay, Duration::from_millis(400));
    assert_eq!(options.knock_interval, Duration::from_millis(25));
    assert_eq!(options.knock_window, Duration::from_millis(3500));
    assert_eq!(options.reset_timeout, Duration::from_secs(3));
    assert_eq!(options.start_timeout, Duration::from_secs(20));
    assert_eq!(options.segment_timeout, Duration::from_secs(3));
    assert_eq!(options.final_timeout, Duration::from_secs(20));
    assert_eq!(options.verify_timeout, Duration::from_secs(20));
    assert_eq!(options.reset_attempts, 2);
    assert_eq!(options.tx_burst_frames, 4);
    assert_eq!(options.tx_burst_pause, Duration::from_millis(1));
}

#[test]
fn tokens_share_one_flag() {
    let token = CancellationToken::default();
    let other = token.clone();
    assert!(!other.is_cancelled());
    token.cancel();
    assert!(other.is_cancelled());
    assert!(!CancellationToken::new().is_cancelled());
}

#[test]
fn only_a_single_one_is_success() {
    for (payload, fine) in [
        (vec![1], true),
        (vec![0], false),
        (vec![], false),
        (vec![1, 1], false),
    ] {
        let ack = Frame::new(1, FunctionCode::VerifyAck, payload).unwrap();
        assert_eq!(
            require_success(&ack, FlashStage::Verifying, true).is_ok(),
            fine
        );
    }
}

#[test]
fn recovery_is_flagged_on_ambiguous_errors_alone() {
    let timeout = FlashError::AckTimeout {
        stage: FlashStage::Verifying,
        recovery_required: false,
    };
    assert!(with_recovery(timeout, true).recovery_required());
    let transport = FlashError::Transport {
        stage: FlashStage::Verifying,
        detail: "lost".to_string(),
        recovery_required: true,
    };
    match with_recovery(transport, false) {
        FlashError::Transport {
            detail,
            recovery_required,
            ..
        } => {
            assert_eq!(detail, "lost");
            assert!(!recovery_required);
        }
        other => panic!("unexpected {:?}", other),
    }
    let cancelled = check_cancel(true, FlashStage::Resetting, false).unwrap_err();
    assert!(!with_recovery(cancelled, true).recovery_required());
    assert!(check_cancel(false, FlashStage::Resetting, true).is_ok());
    assert!(!FlashError::InvalidNode(0).recovery_required());
    let policy: FlashError = PolicyError::ReadyExpired.into();
    assert!(matches!(
        policy,
        FlashError::Policy(PolicyError::ReadyExpired)
    ));
}

#[test]
fn an_assertion_keeps_profile_and_artifact() {
    let target = asserted(32);
    assert_eq!(target.profile_id(), "compatible-motor-4310-v1");
    assert_eq!(target.artifact().bin_size(), 32);
    assert_eq!(target.policy().device_id(), 0xAAAA_0001);
    assert_eq!(target.clone().artifact().raw(), target.artifact().raw());
}

#[test]
fn spans_saturate() {
    let longest = Duration::from_nanos(u128::MAX);
    assert_eq!(longest.plus(Duration::from_secs(1)), longest);
    assert_eq!(
        Duration::from_millis(3).remaining(Duration::from_millis(1)),
        Duration::from_millis(2)
    );
    assert!(Duration::from_millis(1)
        .remaining(Duration::from_millis(3))
        .is_zero());
    assert_eq!(
        Duration::from_secs(2).at_most(Duration::from_millis(7)),
        Duration::from_nanos(7_000_000)
    );
}

#[test]
fn bytes_are_cut_into_eights() {
    let bytes: Vec<u8> = (0..20).collect();
    assert_eq!(cut_piece(&bytes, 0), (0..8).collect::<Vec<u8>>());
    assert_eq!(cut_piece(&bytes, 1), (8..16).collect::<Vec<u8>>());
    assert_eq!(cut_piece(&bytes, 2), (16..20).collect::<Vec<u8>>());
}
