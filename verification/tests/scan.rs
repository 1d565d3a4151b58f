use std::collections::{HashMap, VecDeque};

use hexmeow_motor_iap::scan::ACK_ID_MASK;
use hexmeow_motor_iap::{
    BootloaderHit, CanMessage, Duration, Frame, FrameAssembler, FunctionCode, MessageId, Reply,
    ScanAction, ScanError, ScanReport, ScanSession,
};

/// Answers on behalf of the node IDs it was given, with the payload each
/// should report.
struct Bus {
    answering: Vec<(u8, Vec<u8>)>,
    request_assemblers: HashMap<u16, FrameAssembler>,
    inbox: VecDeque<CanMessage>,
    probes: Vec<u8>,
    pauses: usize,
    listened: Vec<Duration>,
    dead: Option<Reply>,
}

impl Bus {
    fn new(answering: Vec<(u8, Vec<u8>)>) -> Self {
        Self {
            answering,
            request_assemblers: HashMap::new(),
            inbox: VecDeque::new(),
            probes: Vec::new(),
            pauses: 0,
            listened: Vec::new(),
            dead: None,
        }
    }

    fn send(&mut self, id: u16, data: &[u8]) -> Reply {
        match &self.dead {
            Some(Reply::TimedOut) => return Reply::TimedOut,
            Some(Reply::Refused(_)) => return Reply::Refused(String::new()),
            Some(_) => return Reply::Failed("disconnected".to_string()),
            None => {}
        }
        let assembler = self.request_assemblers.entry(id).or_default();
        for request in assembler.feed(data).into_iter().flatten() {
            assert_eq!(request.function(), FunctionCode::EnterIapRequest);
            assert_eq!(id, 0x780 + request.node_id() as u16);
            self.probes.push(request.node_id());
            let Some((_, payload)) = self
                .answering
                .iter()
                .find(|(node, _)| *node == request.node_id())
            else {
                continue;
            };
            for message in answer(request.node_id(), payload) {
                self.inbox.push_back(message);
            }
        }
        Reply::Done
    }
}

fn answer(node: u8, payload: &[u8]) -> Vec<CanMessage> {
    let ack = Frame::new(node, FunctionCode::EnterIapAck, payload.to_vec()).unwrap();
    ack.encode()
        .chunks(8)
        .map(|chunk| CanMessage {
            id: MessageId::Standard(0x680 + node as u16),
            fd: false,
            remote: false,
            data: chunk.to_vec(),
        })
        .collect()
}

fn drive(mut scan: ScanSession, bus: &mut Bus) -> Result<ScanReport, ScanError> {
    let mut now = Duration::from_secs(7);
    let mut reply = Reply::Done;
    loop {
        assert!(scan.awaits(&reply));
        reply = match scan.step(reply, now) {
            ScanAction::Subscribe { id, mask } => {
                assert_eq!((id, mask), (0x680, 0x780));
                Reply::Done
            }
            ScanAction::Transmit { id, data, patience } => {
                assert_eq!(patience, Duration::from_millis(5));
                assert_eq!(data.len(), 8);
                bus.send(id, &data)
            }
            ScanAction::Pause(span) => {
                assert_eq!(span, Duration::from_millis(1));
                bus.pauses += 1;
                now = now.plus(span);
                Reply::Done
            }
            ScanAction::Listen(span) => {
                bus.listened.push(span);
                match bus.inbox.pop_front() {
                    Some(message) => Reply::Received(message),
                    None => {
                        now = now.plus(span);
                        Reply::TimedOut
                    }
                }
            }
            ScanAction::Finish(result) => {
                assert!(scan.is_over());
                assert!(!scan.awaits(&Reply::Done));
                return result;
            }
        };
    }
}

fn scan_all(bus: &mut Bus, listen: Duration) -> Result<ScanReport, ScanError> {
    drive(ScanSession::scan_all(listen), bus)
}

fn identity_payload(device_id: u32, firmware_id: u32, version: u32) -> Vec<u8> {
    [
        device_id.to_le_bytes(),
        firmware_id.to_le_bytes(),
        version.to_le_bytes(),
    ]
    .concat()
}

#[test]
fn finds_every_answering_node_and_ignores_silent_addresses() {
    let mut bus = Bus::new(vec![
        (7, identity_payload(0xAAAA_0001, 0x2025_1025, 10)),
        (42, identity_payload(0xAAAA_0002, 0x2025_1209, 3)),
    ]);
    let report = scan_all(&mut bus, Duration::from_millis(50)).unwrap();
    let hits = report.hits();
    assert_eq!(
        hits.iter().map(|hit| hit.node_id()).collect::<Vec<_>>(),
        vec![7, 42]
    );
    assert_eq!(hits[0].identity().unwrap().current_version(), 10);
    assert_eq!(hits[1].identity().unwrap().device_id(), 0xAAAA_0002);
    assert!(hits.iter().all(BootloaderHit::has_application));
    assert_eq!(report.probed(), 127);
    assert_eq!(report.unsent(), 0);
    assert!(!report.nothing_acknowledging());
}

#[test]
fn an_erased_device_is_reported_rather_than_dropped() {
    // All-0xFF is how a bootloader says it holds no application. That node
    // is the one a recovery scan exists to find, so it must not be skipped
    // just because the payload does not parse as an identity.
    let mut bus = Bus::new(vec![(9, vec![0xFF; 12])]);
    let report = scan_all(&mut bus, Duration::from_millis(50)).unwrap();
    let hits = report.hits();
    assert_eq!(hits.len(), 1);
    assert_eq!(hits[0].node_id(), 9);
    assert!(!hits[0].has_application());
    assert_eq!(hits[0].payload(), [0xFF; 12]);
}

#[test]
fn a_silent_bus_yields_nothing_rather_than_failing() {
    let mut bus = Bus::new(Vec::new());
    let report = scan_all(&mut bus, Duration::from_millis(20)).unwrap();
    assert!(report.hits().is_empty());
    // Probes went out and simply went unanswered, which is a different
    // condition from not being able to transmit at all.
    assert!(!report.nothing_acknowledging());
}

#[test]
fn a_bus_that_cannot_transmit_is_not_reported_as_no_answer() {
    // An unpowered or hung sole device leaves the controller with nothing
    // to acknowledge its frames, so nothing is ever asked. Saying "no
    // bootloader answered" would send someone hunting the wrong fault.
    for dead in [Reply::Failed(String::new()), Reply::TimedOut] {
        let mut bus = Bus::new(Vec::new());
        bus.dead = Some(dead);
        let report = scan_all(&mut bus, Duration::from_millis(10)).unwrap();
        assert!(report.hits().is_empty());
        assert_eq!(report.probed(), 127);
        assert_eq!(report.unsent(), 127);
        assert!(report.nothing_acknowledging());
    }
}

#[test]
fn the_broadcast_address_is_never_probed() {
    let error = ScanSession::scan_for_bootloaders(vec![0], Duration::from_millis(10)).unwrap_err();
    assert!(matches!(error, ScanError::InvalidNode(0)));

    let mut bus = Bus::new(Vec::new());
    scan_all(&mut bus, Duration::from_millis(10)).unwrap();
    assert_eq!(bus.probes, (1..=127).collect::<Vec<u8>>());
}

#[test]
fn the_first_bad_node_is_named() {
    let error = ScanSession::scan_for_bootloaders(vec![3, 200, 0], Duration::from_millis(10))
        .unwrap_err();
    assert!(matches!(error, ScanError::InvalidNode(200)));
}

#[test]
fn chosen_nodes_are_probed_in_order_and_paced() {
    let mut bus = Bus::new(vec![(5, identity_payload(1, 2, 3))]);
    let nodes = vec![9, 5, 5, 1, 127, 2, 3, 4, 8];
    let scan =
        ScanSession::scan_for_bootloaders(nodes.clone(), Duration::from_millis(10)).unwrap();
    let report = drive(scan, &mut bus).unwrap();
    assert_eq!(bus.probes, nodes);
    assert_eq!(bus.pauses, 2);
    assert_eq!(report.probed(), 9);
    // Node 5 was asked twice and answered twice; it is one hit.
    assert_eq!(report.hits().len(), 1);
    assert_eq!(bus.listened[0], Duration::from_millis(10));
}

#[test]
fn no_nodes_means_listening_only() {
    let mut bus = Bus::new(Vec::new());
    bus.inbox.extend(answer(77, &identity_payload(1, 2, 3)));
    let scan = ScanSession::scan_for_bootloaders(Vec::new(), Duration::from_millis(10)).unwrap();
    let report = drive(scan, &mut bus).unwrap();
    assert_eq!(report.probed(), 0);
    assert!(!report.nothing_acknowledging());
    assert_eq!(report.hits()[0].node_id(), 77);

    let mut deaf = Bus::new(Vec::new());
    deaf.inbox.extend(answer(77, &identity_payload(1, 2, 3)));
    let scan = ScanSession::scan_for_bootloaders(Vec::new(), Duration::from_nanos(0)).unwrap();
    assert!(drive(scan, &mut deaf).unwrap().hits().is_empty());
}

#[test]
fn interleaved_answers_do_not_mix() {
    let mut bus = Bus::new(Vec::new());
    let left = answer(20, &identity_payload(1, 2, 3));
    let right = answer(10, &identity_payload(4, 5, 6));
    for (first, second) in left.into_iter().zip(right) {
        bus.inbox.push_back(first);
        bus.inbox.push_back(second);
    }
    let report = scan_all(&mut bus, Duration::from_millis(10)).unwrap();
    let hits = report.into_hits();
    assert_eq!(hits.len(), 2);
    assert_eq!(hits[0].node_id(), 10);
    assert_eq!(hits[0].identity().unwrap().current_version(), 6);
    assert_eq!(hits[1].node_id(), 20);
    assert_eq!(hits[1].identity().unwrap().device_id(), 1);
}

#[test]
fn the_first_answer_of_a_node_stands() {
    let mut bus = Bus::new(Vec::new());
    bus.inbox.extend(answer(20, &identity_payload(1, 2, 3)));
    bus.inbox.extend(answer(20, &identity_payload(4, 5, 6)));
    let report = scan_all(&mut bus, Duration::from_millis(10)).unwrap();
    assert_eq!(report.hits().len(), 1);
    assert_eq!(report.hits()[0].payload(), identity_payload(1, 2, 3));
}

#[test]
fn stray_messages_are_ignored() {
    let mut bus = Bus::new(Vec::new());
    for change in [0usize, 1, 2, 3, 4] {
        for mut message in answer(20, &identity_payload(1, 2, 3)) {
            match change {
                0 => message.fd = true,
                1 => message.remote = true,
                2 => message.id = MessageId::Extended(0x694),
                3 => message.id = MessageId::Standard(0x680),
                // The frame names another node than the identifier.
                _ => message.id = MessageId::Standard(0x695),
            }
            bus.inbox.push_back(message);
        }
    }
    let other = Frame::new(20, FunctionCode::ResetAck, vec![1]).unwrap();
    bus.inbox.push_back(CanMessage {
        id: MessageId::Standard(0x694),
        fd: false,
        remote: false,
        data: other.encode(),
    });
    let report = scan_all(&mut bus, Duration::from_millis(10)).unwrap();
    assert!(report.hits().is_empty());
}

#[test]
fn a_probe_that_cannot_be_built_is_not_counted() {
    let mut bus = Bus::new(Vec::new());
    bus.dead = Some(Reply::Refused(String::new()));
    let report = scan_all(&mut bus, Duration::from_millis(10)).unwrap();
    assert_eq!(report.unsent(), 0);
    assert_eq!(report.probed(), 127);
}

#[test]
fn transport_failures_end_a_scan() {
    let now = Duration::from_secs(0);
    let mut scan = ScanSession::scan_all(Duration::from_millis(10));
    scan.step(Reply::Done, now);
    match scan.step(Reply::Failed("down".to_string()), now) {
        ScanAction::Finish(Err(ScanError::Transport(detail))) => {
            assert_eq!(detail, "subscribing to the answer range: down")
        }
        other => panic!("unexpected {:?}", other),
    }

    let mut scan =
        ScanSession::scan_for_bootloaders(Vec::new(), Duration::from_millis(10)).unwrap();
    scan.step(Reply::Done, now);
    assert!(matches!(
        scan.step(Reply::Done, now),
        ScanAction::Listen(span) if span == Duration::from_millis(10)
    ));
    match scan.step(Reply::Failed("down".to_string()), now) {
        ScanAction::Finish(Err(ScanError::Transport(detail))) => {
            assert_eq!(detail, "receiving: down")
        }
        other => panic!("unexpected {:?}", other),
    }
}

#[test]
fn reports_compare_and_copy() {
    let mut bus = Bus::new(vec![(9, vec![0xFF; 12])]);
    let report = scan_all(&mut bus, Duration::from_millis(50)).unwrap();
    assert_eq!(report.clone(), report);
    assert_eq!(report.hits()[0].clone(), report.hits()[0]);
    let empty = ScanReport::default();
    assert_ne!(empty, report);
    assert_eq!((empty.probed(), empty.unsent()), (0, 0));
    assert!(!empty.nothing_acknowledging());
}

#[test]
fn the_answer_filter_takes_in_answers_alone() {
    for id in 0..=0x7FFu16 {
        assert_eq!(
            id & ACK_ID_MASK == 0x680 & ACK_ID_MASK,
            (0x680..=0x6FF).contains(&id)
        );
    }
}
