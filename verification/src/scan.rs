//! Find bootloaders that cannot announce themselves.
//!
//! A device whose application was erased by an interrupted update stays in the
//! bootloader permanently, and the bootloader speaks only this protocol: no
//! CANopen, no heartbeat, no 0x1018, and nothing at all until it is addressed.
//! Recovering one means knowing its node ID, which is exactly what is lost when
//! an update goes wrong. Probing every address is the only way to find it.
//!
//! A scan decides; whoever drives it performs one [`ScanAction`] at a time and
//! answers with a [`Reply`].

use std::collections::HashMap;

use vstd::prelude::*;

use crate::assembler;
use crate::assembler::{AssemblerView, FrameAssembler};
use crate::can;
use crate::can::{CanMessage, MessageId, MessageView};
use crate::clock;
use crate::clock::Duration;
use crate::engine::{RX_BASE, TX_BASE};
use crate::identity;
use crate::identity::{IapIdentity, IapView};
use crate::session;
use crate::session::{take_first_match, Reply, ReplyView};
use crate::wire;
use crate::wire::{Frame, FrameView, FunctionCode};

verus! {

/// Matches 0x680..=0x6FF, the answer ID of every node, and nothing else.
pub const ACK_ID_MASK: u16 = 0x780;

/// Probes to send before pausing, matching the pacing of an update.
pub const PROBE_BURST: usize = 4;

/// How long that pause is, in nanoseconds: one millisecond.
pub const PROBE_PAUSE_NANOS: u128 = 1_000_000;

/// How long one probe may spend waiting for room in the transmit queue, in
/// nanoseconds: five milliseconds. A full sweep has to fit inside a bootloader
/// window, so this is far shorter than the transport's own back-pressure
/// tolerance.
pub const PROBE_SEND_NANOS: u128 = 5_000_000;

// ---------------------------------------------------------------------------
// Errors and reports
// ---------------------------------------------------------------------------

#[derive(Debug)]
pub enum ScanError {
    /// This node ID is outside the addressable range 1..=127.
    InvalidNode(u8),
    /// The CAN transport failed during the scan.
    Transport(String),
}

/// What a scan error says.
pub enum ScanFault {
    InvalidNode(u8),
    Transport(Seq<char>),
}

impl View for ScanError {
    type V = ScanFault;

    open spec fn view(&self) -> ScanFault {
        match *self {
            ScanError::InvalidNode(node_id) => ScanFault::InvalidNode(node_id),
            ScanError::Transport(detail) => ScanFault::Transport(detail@),
        }
    }
}

/// What is known of a node that answered.
pub struct HitView {
    pub node_id: u8,
    pub identity: Option<IapView>,
    pub payload: Seq<u8>,
}

/// What an Enter-IAP answer makes known. The identity is missing where the
/// payload is not one.
pub open spec fn hit_of(ack: FrameView) -> HitView {
    HitView {
        node_id: ack.node_id,
        identity: match identity::iap_identity(ack.data) {
            Ok(found) => Some(found),
            Err(_) => None,
        },
        payload: ack.data,
    }
}

/// One node that answered a scan probe.
#[derive(Debug, PartialEq, Eq)]
pub struct BootloaderHit {
    node_id: u8,
    identity: Option<IapIdentity>,
    payload: Vec<u8>,
}

impl View for BootloaderHit {
    type V = HitView;

    closed spec fn view(&self) -> HitView {
        HitView {
            node_id: self.node_id,
            identity: match self.identity {
                Some(identity) => Some(identity@),
                None => None,
            },
            payload: self.payload@,
        }
    }
}

impl Clone for BootloaderHit {
    fn clone(&self) -> (copy: BootloaderHit)
        ensures
            copy@ == self@,
    {
        BootloaderHit {
            node_id: self.node_id,
            identity: self.identity,
            payload: vstd::slice::slice_to_vec(self.payload.as_slice()),
        }
    }
}

impl BootloaderHit {
    fn from_answer(ack: &Frame) -> (hit: BootloaderHit)
        ensures
            hit@ == hit_of(ack@),
    {
        let identity = match IapIdentity::parse(ack.data()) {
            Ok(found) => Some(found),
            Err(_) => None,
        };
        BootloaderHit {
            node_id: ack.node_id(),
            identity,
            payload: vstd::slice::slice_to_vec(ack.data()),
        }
    }

    pub fn node_id(&self) -> (node_id: u8)
        ensures
            node_id == self@.node_id,
    {
        self.node_id
    }

    /// The reported identity, or `None` when the bootloader answered with the
    /// all-0xFF payload. That answer is not a fault: it is how a device reports
    /// that it holds no valid application, which is precisely the state an
    /// interrupted update leaves behind.
    pub fn identity(&self) -> (identity: Option<IapIdentity>)
        ensures
            match identity {
                Some(found) => self@.identity == Some(found@),
                None => self@.identity is None,
            },
    {
        self.identity
    }

    /// Whether the device reported a usable application identity.
    pub fn has_application(&self) -> (has: bool)
        ensures
            has == (self@.identity is Some),
    {
        self.identity.is_some()
    }

    /// The raw Enter-IAP payload, kept so callers can show what an
    /// unparseable answer actually contained.
    pub fn payload(&self) -> (payload: &[u8])
        ensures
            payload@ == self@.payload,
    {
        self.payload.as_slice()
    }
}

/// What the entries of a list of nodes say.
pub open spec fn hit_views(hits: Seq<BootloaderHit>) -> Seq<HitView> {
    hits.map_values(|hit: BootloaderHit| hit@)
}

/// What one sweep observed.
pub struct ReportView {
    pub hits: Seq<HitView>,
    pub probed: nat,
    pub unsent: nat,
}

impl ReportView {
    /// Not one probe reached the wire.
    pub open spec fn deaf(self) -> bool {
        self.probed > 0 && self.unsent == self.probed
    }
}

/// What one sweep observed.
#[derive(Debug, PartialEq, Eq)]
pub struct ScanReport {
    hits: Vec<BootloaderHit>,
    probed: usize,
    unsent: usize,
}

impl View for ScanReport {
    type V = ReportView;

    closed spec fn view(&self) -> ReportView {
        ReportView {
            hits: hit_views(self.hits@),
            probed: self.probed as nat,
            unsent: self.unsent as nat,
        }
    }
}

impl Default for ScanReport {
    fn default() -> (report: ScanReport)
        ensures
            report@ == (ReportView { hits: Seq::empty(), probed: 0, unsent: 0 }),
    {
        let report = ScanReport { hits: Vec::new(), probed: 0, unsent: 0 };
        assert(hit_views(report.hits@) =~= Seq::empty());
        report
    }
}

impl Clone for ScanReport {
    fn clone(&self) -> (copy: ScanReport)
        ensures
            copy@ == self@,
    {
        let mut hits: Vec<BootloaderHit> = Vec::new();
        for next in 0..self.hits.len()
            invariant
                hit_views(hits@) == hit_views(self.hits@).take(next as int),
        {
            let copied = self.hits[next].clone();
            let ghost before = hits@;
            hits.push(copied);
            assert(hit_views(hits@) =~= hit_views(before).push(copied@));
            assert(hit_views(self.hits@).take(next + 1) =~= hit_views(self.hits@).take(
                next as int,
            ).push(copied@));
        }
        assert(hit_views(self.hits@).take(self.hits@.len() as int) =~= hit_views(self.hits@));
        ScanReport { hits, probed: self.probed, unsent: self.unsent }
    }
}

impl ScanReport {
    pub fn hits(&self) -> (hits: &[BootloaderHit])
        ensures
            hit_views(hits@) == self@.hits,
    {
        self.hits.as_slice()
    }

    pub fn into_hits(self) -> (hits: Vec<BootloaderHit>)
        ensures
            hit_views(hits@) == self@.hits,
    {
        self.hits
    }

    pub fn probed(&self) -> (probed: usize)
        ensures
            probed == self@.probed,
    {
        self.probed
    }

    /// Probes that could not even be handed to the bus.
    pub fn unsent(&self) -> (unsent: usize)
        ensures
            unsent == self@.unsent,
    {
        self.unsent
    }

    /// Not one probe reached the wire.
    ///
    /// A CAN controller needs some other node to acknowledge each frame, so a
    /// bus whose only device is unpowered or hung cannot transmit at all: the
    /// first frame retransmits forever and the queue never drains. Reporting
    /// that as "no bootloader answered" would be misleading: nothing was
    /// asked.
    pub fn nothing_acknowledging(&self) -> (deaf: bool)
        ensures
            deaf == self@.deaf(),
    {
        self.probed > 0 && self.unsent == self.probed
    }
}

// ---------------------------------------------------------------------------
// Listening
// ---------------------------------------------------------------------------

/// The node that a message answers for.
pub open spec fn sender(message: MessageView) -> Option<u8> {
    match message.classic_id() {
        Some(id) => if RX_BASE < id <= RX_BASE + 127 {
            Some((id - RX_BASE) as u8)
        } else {
            None
        },
        None => None,
    }
}

/// What was heard, node by node.
#[verifier::ext_equal]
pub struct HearingView {
    pub assemblers: Map<u8, AssemblerView>,
    pub found: Map<u8, HitView>,
}

impl HearingView {
    /// Nothing was heard.
    pub open spec fn silence() -> HearingView {
        HearingView { assemblers: Map::empty(), found: Map::empty() }
    }

    /// The unfinished frame of a node.
    pub open spec fn partial(self, node_id: u8) -> AssemblerView {
        if self.assemblers.dom().contains(node_id) {
            self.assemblers[node_id]
        } else {
            AssemblerView::clean()
        }
    }

    /// What a node answered.
    pub open spec fn answer(self, node_id: u8) -> Option<HitView> {
        if self.found.dom().contains(node_id) {
            Some(self.found[node_id])
        } else {
            None
        }
    }

    /// Hear a message. A node's first answer counts, and only where the frame
    /// names that node itself.
    pub open spec fn heard(self, message: MessageView) -> HearingView {
        match sender(message) {
            None => self,
            Some(node_id) => {
                let partial = self.partial(node_id);
                let results = partial.results(message.data);
                let found = if self.found.dom().contains(node_id) {
                    self.found
                } else {
                    match session::first_match(results, node_id, FunctionCode::EnterIapAck) {
                        Some(ack) => self.found.insert(node_id, hit_of(ack)),
                        None => self.found,
                    }
                };
                HearingView {
                    assemblers: self.assemblers.insert(node_id, partial.after_all(message.data)),
                    found,
                }
            },
        }
    }

    /// Hear messages, one after the other.
    pub open spec fn heard_all(self, messages: Seq<MessageView>) -> HearingView
        decreases messages.len(),
    {
        if messages.len() == 0 {
            self
        } else {
            self.heard_all(messages.drop_last()).heard(messages.last())
        }
    }

    /// The answers of the nodes 1 to `last`, by node.
    pub open spec fn listed(self, last: nat) -> Seq<HitView>
        decreases last,
    {
        if last == 0 {
            Seq::empty()
        } else {
            match self.answer(last as u8) {
                Some(hit) => self.listed((last - 1) as nat).push(hit),
                None => self.listed((last - 1) as nat),
            }
        }
    }

    /// Answers are filed under the node that gave them.
    pub open spec fn sound(self) -> bool {
        forall|node_id: u8| #[trigger]
            self.found.dom().contains(node_id) ==> wire::addressable(node_id)
                && self.found[node_id].node_id == node_id
    }
}

/// One assembler per node: answers from different nodes interleave on the bus,
/// and a shared assembler would splice them into corrupt frames.
#[derive(Debug)]
struct Hearing {
    assemblers: HashMap<u8, FrameAssembler>,
    found: HashMap<u8, BootloaderHit>,
}

impl View for Hearing {
    type V = HearingView;

    closed spec fn view(&self) -> HearingView {
        HearingView {
            assemblers: self.assemblers@.map_values(|assembler: FrameAssembler| assembler@),
            found: self.found@.map_values(|hit: BootloaderHit| hit@),
        }
    }
}

impl Hearing {
    fn silence() -> (hearing: Hearing)
        ensures
            hearing@ == HearingView::silence(),
    {
        let hearing = Hearing { assemblers: HashMap::new(), found: HashMap::new() };
        assert(hearing@ =~= HearingView::silence());
        hearing
    }

    fn hear(&mut self, message: &CanMessage)
        ensures
            final(self)@ == old(self)@.heard(message@),
    {
        let id: u16 = match message.classic_id() {
            Some(id) => id,
            None => {
                return;
            },
        };
        if !(RX_BASE < id && id <= RX_BASE + 127) {
            return;
        }
        let node_id: u8 = (id - RX_BASE) as u8;
        let mut assembler = match self.assemblers.remove(&node_id) {
            Some(assembler) => assembler,
            None => FrameAssembler::new(),
        };
        let ghost partial = assembler@;
        assert(partial == old(self)@.partial(node_id));
        let results = assembler.feed(message.data.as_slice());
        self.assemblers.insert(node_id, assembler);
        assert(self@.assemblers =~= old(self)@.assemblers.insert(
            node_id,
            partial.after_all(message.data@),
        ));
        if !self.found.contains_key(&node_id) {
            if let Some(ack) = take_first_match(results, node_id, FunctionCode::EnterIapAck) {
                let hit = BootloaderHit::from_answer(&ack);
                self.found.insert(node_id, hit);
                assert(self@.found =~= old(self)@.found.insert(node_id, hit@));
            }
        }
    }

    /// The answers, by node.
    fn into_hits(self) -> (hits: Vec<BootloaderHit>)
        ensures
            hit_views(hits@) == self@.listed(127),
    {
        let mut left = self.found;
        let mut hits: Vec<BootloaderHit> = Vec::new();
        assert(hit_views(hits@) =~= self@.listed(0));
        for last in 0u8..127
            invariant
                hit_views(hits@) == self@.listed(last as nat),
                forall|node_id: u8|
                    node_id > last ==> (#[trigger] left@.dom().contains(node_id)
                        <==> self.found@.dom().contains(node_id)),
                forall|node_id: u8|
                    node_id > last && #[trigger] left@.dom().contains(node_id) ==> left@[node_id]
                        == self.found@[node_id],
        {
            let ghost before = hits@;
            let node_id: u8 = last + 1;
            match left.remove(&node_id) {
                Some(hit) => {
                    hits.push(hit);
                    assert(hit_views(hits@) =~= hit_views(before).push(hit@));
                },
                None => {},
            }
        }
        hits
    }
}

// ---------------------------------------------------------------------------
// The machine
// ---------------------------------------------------------------------------

/// What the driver is to do next.
#[derive(Debug)]
pub enum ScanAction {
    /// Receive messages whose standard identifier agrees with `id` in the bits of
    /// `mask` from now on.
    Subscribe { id: u16, mask: u16 },
    /// Send one Classic data message, but wait no longer than `patience` for it.
    Transmit { id: u16, data: Vec<u8>, patience: Duration },
    /// Let this time pass.
    Pause(Duration),
    /// Wait for the next message, but no longer than this.
    Listen(Duration),
    /// Nothing more: this is how the scan ended.
    Finish(Result<ScanReport, ScanError>),
}

/// What an action says.
pub enum ScanActionView {
    Subscribe { id: u16, mask: u16 },
    Transmit { id: u16, data: Seq<u8>, patience: Duration },
    Pause(Duration),
    Listen(Duration),
    Finish(Result<ReportView, ScanFault>),
}

impl View for ScanAction {
    type V = ScanActionView;

    open spec fn view(&self) -> ScanActionView {
        match *self {
            ScanAction::Subscribe { id, mask } => ScanActionView::Subscribe { id, mask },
            ScanAction::Transmit { id, data, patience } => ScanActionView::Transmit {
                id,
                data: data@,
                patience,
            },
            ScanAction::Pause(span) => ScanActionView::Pause(span),
            ScanAction::Listen(span) => ScanActionView::Listen(span),
            ScanAction::Finish(result) => match result {
                Ok(report) => ScanActionView::Finish(Ok(report@)),
                Err(error) => ScanActionView::Finish(Err(error@)),
            },
        }
    }
}

/// Where a scan stands: which action it waits for.
#[derive(Debug, Clone, Copy, PartialEq, Eq, Structural)]
pub enum ScanPhase {
    /// Not started.
    Idle,
    /// For the subscription.
    Subscribing,
    /// For probe number `index` to be sent.
    Probing { index: usize },
    /// For the pause before probe number `index`.
    Resting { index: usize },
    /// For an answer.
    Listening { deadline: Duration },
    /// Ended.
    Over,
}

/// A scan.
pub struct ScanView {
    /// The nodes to probe, in order.
    pub nodes: Seq<u8>,
    /// How long to listen once every probe was sent.
    pub span: Duration,
    pub phase: ScanPhase,
    /// Probes that could not be handed to the bus.
    pub unsent: nat,
    pub hearing: HearingView,
}

/// A state and the action that leads there.
pub type ScanTurn = (ScanView, ScanActionView);

/// The probe of a node.
pub open spec fn probe_of(node_id: u8) -> FrameView {
    FrameView { node_id, function: FunctionCode::EnterIapRequest, data: Seq::empty() }
}

/// The first node that cannot be addressed.
pub open spec fn first_unaddressable(nodes: Seq<u8>) -> Option<u8>
    decreases nodes.len(),
{
    if nodes.len() == 0 {
        None
    } else if !wire::addressable(nodes[0]) {
        Some(nodes[0])
    } else {
        first_unaddressable(nodes.skip(1))
    }
}

/// Every addressable node. Node 0 is the reserved broadcast address.
pub open spec fn every_node() -> Seq<u8> {
    Seq::new(127, |index: int| (index + 1) as u8)
}

impl ScanView {
    /// A scan that has not started.
    pub open spec fn idle(nodes: Seq<u8>, span: Duration) -> ScanView {
        ScanView {
            nodes,
            span,
            phase: ScanPhase::Idle,
            unsent: 0,
            hearing: HearingView::silence(),
        }
    }

    /// What the scan observed.
    pub open spec fn report(self) -> ReportView {
        ReportView {
            hits: self.hearing.listed(127),
            probed: self.nodes.len(),
            unsent: self.unsent,
        }
    }

    /// End the scan with an error.
    pub open spec fn fail(self, fault: ScanFault) -> ScanTurn {
        (ScanView { phase: ScanPhase::Over, ..self }, ScanActionView::Finish(Err(fault)))
    }

    /// End the scan, handing out what was heard.
    pub open spec fn conclude(self) -> ScanTurn {
        (
            ScanView { phase: ScanPhase::Over, hearing: HearingView::silence(), ..self },
            ScanActionView::Finish(Ok(self.report())),
        )
    }

    /// Send probe number `index`, or listen after the last.
    pub open spec fn probe(self, index: usize, now: Duration) -> ScanTurn {
        if index < self.nodes.len() {
            let node_id = self.nodes[index as int];
            (
                ScanView { phase: ScanPhase::Probing { index }, ..self },
                ScanActionView::Transmit {
                    id: (TX_BASE + node_id) as u16,
                    data: probe_of(node_id).encoded(),
                    patience: Duration { nanos: PROBE_SEND_NANOS },
                },
            )
        } else {
            self.listen(clock::later(now, self.span), now)
        }
    }

    /// Wait for an answer until `deadline`.
    pub open spec fn listen(self, deadline: Duration, now: Duration) -> ScanTurn {
        if now.nanos >= deadline.nanos {
            self.conclude()
        } else {
            (
                ScanView { phase: ScanPhase::Listening { deadline }, ..self },
                ScanActionView::Listen(clock::until(deadline, now)),
            )
        }
    }

    /// Whether the scan waits for such a reply.
    pub open spec fn expects(self, reply: ReplyView) -> bool {
        match self.phase {
            ScanPhase::Subscribing => reply is Done || reply is Failed,
            ScanPhase::Probing { .. } => !(reply is Received),
            ScanPhase::Listening { .. } => reply is Received || reply is TimedOut
                || reply is Failed,
            ScanPhase::Over => false,
            _ => reply is Done,
        }
    }

    /// What a reply leads to.
    pub open spec fn step(self, reply: ReplyView, now: Duration) -> ScanTurn {
        match self.phase {
            ScanPhase::Idle => (
                ScanView { phase: ScanPhase::Subscribing, ..self },
                ScanActionView::Subscribe { id: RX_BASE, mask: ACK_ID_MASK },
            ),
            ScanPhase::Subscribing => match reply {
                ReplyView::Failed(error) => self.fail(
                    ScanFault::Transport("subscribing to the answer range: "@ + error),
                ),
                _ => self.probe(0, now),
            },
            ScanPhase::Probing { index } => {
                let probed = ScanView {
                    unsent: if reply is Failed || reply is TimedOut {
                        self.unsent + 1
                    } else {
                        self.unsent
                    },
                    ..self
                };
                let next = (index + 1) as usize;
                if next % PROBE_BURST == 0 {
                    (
                        ScanView { phase: ScanPhase::Resting { index: next }, ..probed },
                        ScanActionView::Pause(Duration { nanos: PROBE_PAUSE_NANOS }),
                    )
                } else {
                    probed.probe(next, now)
                }
            },
            ScanPhase::Resting { index } => self.probe(index, now),
            ScanPhase::Listening { deadline } => match reply {
                ReplyView::Received(message) => ScanView {
                    hearing: self.hearing.heard(message),
                    ..self
                }.listen(deadline, now),
                ReplyView::Failed(error) => self.fail(
                    ScanFault::Transport("receiving: "@ + error),
                ),
                _ => self.conclude(),
            },
            ScanPhase::Over => (self, ScanActionView::Pause(Duration { nanos: 0 })),
        }
    }

    /// How many probes were handed over.
    pub open spec fn tried(self) -> nat {
        match self.phase {
            ScanPhase::Idle => 0,
            ScanPhase::Subscribing => 0,
            ScanPhase::Probing { index } => index as nat,
            ScanPhase::Resting { index } => index as nat,
            _ => self.nodes.len(),
        }
    }

    /// What holds of every state of a scan.
    pub open spec fn sound(self) -> bool {
        &&& forall|index: int|
            0 <= index < self.nodes.len() ==> wire::addressable(#[trigger] self.nodes[index])
        &&& self.nodes.len() <= usize::MAX
        &&& self.phase matches ScanPhase::Probing { index } ==> index < self.nodes.len()
        &&& self.phase matches ScanPhase::Resting { index } ==> index <= self.nodes.len()
        &&& self.unsent <= self.tried()
        &&& self.hearing.sound()
    }
}

/// A running scan.
#[derive(Debug)]
pub struct ScanSession {
    nodes: Vec<u8>,
    span: Duration,
    phase: ScanPhase,
    unsent: usize,
    hearing: Hearing,
}

impl View for ScanSession {
    type V = ScanView;

    closed spec fn view(&self) -> ScanView {
        ScanView {
            nodes: self.nodes@,
            span: self.span,
            phase: self.phase,
            unsent: self.unsent as nat,
            hearing: self.hearing@,
        }
    }
}

impl ScanSession {
    /// What holds of every scan between replies.
    pub open spec fn well_formed(&self) -> bool {
        self@.sound()
    }

    /// Probe `nodes` and collect every bootloader that answers within `listen`.
    ///
    /// `Enter_Iap_Req` is the only request safe to probe with: it erases nothing,
    /// and a running application ignores it, so a healthy motor is not disturbed.
    ///
    /// It is not entirely free of effect, though. A device that happens to be
    /// inside its post-reset bootloader window when the probe arrives will enter
    /// IAP and stay there instead of starting its application. That is harmless,
    /// as a power cycle starts the application again, but it means a scan is a
    /// recovery tool, not something to run against motors that are mid-boot.
    pub fn scan_for_bootloaders(nodes: Vec<u8>, listen: Duration) -> (result: Result<
        ScanSession,
        ScanError,
    >)
        ensures
            match result {
                Ok(scan) => first_unaddressable(nodes@) is None && scan.well_formed() && scan@
                    == ScanView::idle(nodes@, listen),
                Err(error) => first_unaddressable(nodes@) is Some && error@
                    == ScanFault::InvalidNode(first_unaddressable(nodes@)->0),
            },
    {
        assert(nodes@.skip(0) =~= nodes@);
        for next in 0..nodes.len()
            invariant
                first_unaddressable(nodes@) == first_unaddressable(nodes@.skip(next as int)),
                forall|index: int| 0 <= index < next ==> wire::addressable(#[trigger] nodes@[index]),
        {
            let node_id = nodes[next];
            assert(nodes@.skip(next as int).skip(1) =~= nodes@.skip(next + 1));
            if !(1 <= node_id && node_id <= 127) {
                return Err(ScanError::InvalidNode(node_id));
            }
        }
        Ok(
            ScanSession {
                nodes,
                span: listen,
                phase: ScanPhase::Idle,
                unsent: 0,
                hearing: Hearing::silence(),
            },
        )
    }

    /// Probe every addressable node.
    pub fn scan_all(listen: Duration) -> (scan: ScanSession)
        ensures
            scan.well_formed(),
            scan@ == ScanView::idle(every_node(), listen),
    {
        let mut nodes: Vec<u8> = Vec::new();
        for last in 0u8..127
            invariant
                nodes@ == every_node().take(last as int),
        {
            let node_id: u8 = last + 1;
            nodes.push(node_id);
            assert(nodes@ =~= every_node().take(last + 1));
        }
        assert(nodes@ =~= every_node());
        ScanSession {
            nodes,
            span: listen,
            phase: ScanPhase::Idle,
            unsent: 0,
            hearing: Hearing::silence(),
        }
    }

    /// Whether the scan has ended.
    pub fn is_over(&self) -> (over: bool)
        ensures
            over == (self@.phase is Over),
    {
        match self.phase {
            ScanPhase::Over => true,
            _ => false,
        }
    }

    /// Whether the scan waits for such a reply.
    pub fn awaits(&self, reply: &Reply) -> (expected: bool)
        ensures
            expected == self@.expects(reply@),
    {
        match (&self.phase, reply) {
            (ScanPhase::Over, _) => false,
            (ScanPhase::Probing { .. }, Reply::Received(_)) => false,
            (ScanPhase::Probing { .. }, _) => true,
            (ScanPhase::Listening { .. }, Reply::Done) => false,
            (ScanPhase::Listening { .. }, Reply::Refused(_)) => false,
            (ScanPhase::Listening { .. }, _) => true,
            (ScanPhase::Subscribing, Reply::Failed(_)) => true,
            (_, Reply::Done) => true,
            _ => false,
        }
    }

    fn fail(&mut self, detail: String) -> (action: ScanAction)
        ensures
            (final(self)@, action@) == old(self)@.fail(ScanFault::Transport(detail@)),
    {
        self.phase = ScanPhase::Over;
        ScanAction::Finish(Err(ScanError::Transport(detail)))
    }

    fn conclude(&mut self) -> (action: ScanAction)
        ensures
            (final(self)@, action@) == old(self)@.conclude(),
    {
        let mut hearing = Hearing::silence();
        std::mem::swap(&mut hearing, &mut self.hearing);
        self.phase = ScanPhase::Over;
        ScanAction::Finish(
            Ok(
                ScanReport {
                    hits: hearing.into_hits(),
                    probed: self.nodes.len(),
                    unsent: self.unsent,
                },
            ),
        )
    }

    fn listen(&mut self, deadline: Duration, now: Duration) -> (action: ScanAction)
        ensures
            (final(self)@, action@) == old(self)@.listen(deadline, now),
    {
        if now.nanos >= deadline.nanos {
            return self.conclude();
        }
        self.phase = ScanPhase::Listening { deadline };
        ScanAction::Listen(deadline.remaining(now))
    }

    fn probe(&mut self, index: usize, now: Duration) -> (action: ScanAction)
        requires
            old(self)@.sound(),
        ensures
            (final(self)@, action@) == old(self)@.probe(index, now),
    {
        if index >= self.nodes.len() {
            return self.listen(now.plus(self.span), now);
        }
        let node_id: u8 = self.nodes[index];
        let probe = Frame::request(node_id, FunctionCode::EnterIapRequest, Vec::new()).unwrap();
        assert(probe@.data =~= Seq::<u8>::empty());
        self.phase = ScanPhase::Probing { index };
        ScanAction::Transmit {
            id: TX_BASE + node_id as u16,
            data: probe.encode(),
            patience: Duration::from_nanos(PROBE_SEND_NANOS),
        }
    }

    /// Handle the reply to the last action at the clock reading `now`, and say
    /// what to do next. The first call, with `Reply::Done`, starts the scan.
    pub fn step(&mut self, reply: Reply, now: Duration) -> (action: ScanAction)
        requires
            old(self).well_formed(),
            old(self)@.expects(reply@),
        ensures
            final(self).well_formed(),
            (final(self)@, action@) == old(self)@.step(reply@, now),
    {
        proof {
            steps_keep_sound(self@, reply@, now);
        }
        match self.phase {
            ScanPhase::Idle => {
                self.phase = ScanPhase::Subscribing;
                ScanAction::Subscribe { id: RX_BASE, mask: ACK_ID_MASK }
            },
            ScanPhase::Subscribing => match reply {
                Reply::Failed(error) => {
                    let mut detail = String::new();
                    detail.append("subscribing to the answer range: ");
                    detail.append(error.as_str());
                    assert(detail@ =~= "subscribing to the answer range: "@ + error@);
                    self.fail(detail)
                },
                _ => self.probe(0, now),
            },
            ScanPhase::Probing { index } => {
                match reply {
                    Reply::Failed(_) | Reply::TimedOut => {
                        self.unsent = self.unsent + 1;
                    },
                    _ => {},
                }
                let next: usize = index + 1;
                self.phase = ScanPhase::Resting { index: next };
                if next % PROBE_BURST == 0 {
                    return ScanAction::Pause(Duration::from_nanos(PROBE_PAUSE_NANOS));
                }
                self.probe(next, now)
            },
            ScanPhase::Resting { index } => self.probe(index, now),
            ScanPhase::Listening { deadline } => match reply {
                Reply::Received(message) => {
                    self.hearing.hear(&message);
                    self.listen(deadline, now)
                },
                Reply::Failed(error) => {
                    let mut detail = String::new();
                    detail.append("receiving: ");
                    detail.append(error.as_str());
                    assert(detail@ =~= "receiving: "@ + error@);
                    self.fail(detail)
                },
                _ => self.conclude(),
            },
            ScanPhase::Over => ScanAction::Pause(Duration::from_nanos(0)),
        }
    }
}

/// Every reply that a scan waits for leads to a state in which everything holds
/// that holds of every state.
pub proof fn steps_keep_sound(scan: ScanView, reply: ReplyView, now: Duration)
    requires
        scan.sound(),
        scan.expects(reply),
    ensures
        scan.step(reply, now).0.sound(),
{
    if let ReplyView::Received(message) = reply {
        lemma_heard_sound(scan.hearing, message);
    }
}

proof fn lemma_heard_sound(hearing: HearingView, message: MessageView)
    requires
        hearing.sound(),
    ensures
        hearing.heard(message).sound(),
{
    if let Some(node_id) = sender(message) {
        let results = hearing.partial(node_id).results(message.data);
        lemma_first_match(results, node_id, FunctionCode::EnterIapAck);
    }
}

/// What is found is what was looked for.
proof fn lemma_first_match(
    results: Seq<Result<FrameView, wire::FrameError>>,
    node_id: u8,
    function: FunctionCode,
)
    ensures
        session::first_match(results, node_id, function) matches Some(frame) ==> frame.node_id
            == node_id && frame.function == function,
    decreases results.len(),
{
    if results.len() > 0 {
        lemma_first_match(results.skip(1), node_id, function);
    }
}

// ---------------------------------------------------------------------------
// What holds of every scan
// ---------------------------------------------------------------------------

/// The messages that a node sent, in order.
pub open spec fn only_from(messages: Seq<MessageView>, node_id: u8) -> Seq<MessageView>
    decreases messages.len(),
{
    if messages.len() == 0 {
        Seq::empty()
    } else if sender(messages.last()) == Some(node_id) {
        only_from(messages.drop_last(), node_id).push(messages.last())
    } else {
        only_from(messages.drop_last(), node_id)
    }
}

/// What is heard of a node depends on that node's messages alone, however they
/// interleave with others.
pub proof fn nodes_are_heard_apart(
    hearing: HearingView,
    messages: Seq<MessageView>,
    node_id: u8,
)
    ensures
        hearing.heard_all(messages).partial(node_id) == hearing.heard_all(
            only_from(messages, node_id),
        ).partial(node_id),
        hearing.heard_all(messages).answer(node_id) == hearing.heard_all(
            only_from(messages, node_id),
        ).answer(node_id),
    decreases messages.len(),
{
    if messages.len() > 0 {
        let fewer = messages.drop_last();
        nodes_are_heard_apart(hearing, fewer, node_id);
        if sender(messages.last()) == Some(node_id) {
            let own = only_from(messages, node_id);
            assert(own.drop_last() =~= only_from(fewer, node_id));
        }
    }
}

/// A node's first answer stands, whatever comes later.
pub proof fn first_answers_stand(hearing: HearingView, messages: Seq<MessageView>, node_id: u8)
    requires
        hearing.answer(node_id) is Some,
    ensures
        hearing.heard_all(messages).answer(node_id) == hearing.answer(node_id),
    decreases messages.len(),
{
    if messages.len() > 0 {
        first_answers_stand(hearing, messages.drop_last(), node_id);
    }
}

/// Whether `messages` carry `frame`, piece by piece.
pub open spec fn carries(messages: Seq<MessageView>, frame: FrameView) -> bool {
    &&& messages.len() == can::pieces(frame.encoded().len())
    &&& forall|index: int|
        0 <= index < messages.len() ==> (#[trigger] messages[index]).data == can::piece(
            frame.encoded(),
            index as nat,
        )
}

/// The first `count` messages leave the beginning of the frame behind.
proof fn lemma_carried(
    hearing: HearingView,
    messages: Seq<MessageView>,
    frame: FrameView,
    node_id: u8,
    count: int,
)
    requires
        hearing.partial(node_id) == AssemblerView::clean(),
        hearing.answer(node_id) is None,
        frame.sound(),
        carries(messages, frame),
        forall|index: int|
            0 <= index < messages.len() ==> sender(#[trigger] messages[index]) == Some(node_id),
        0 <= count < messages.len(),
    ensures
        hearing.heard_all(messages.take(count)).partial(node_id) == (AssemblerView {
            encoded: frame.encoded().take(8 * count),
            discarding: false,
        }),
        hearing.heard_all(messages.take(count)).answer(node_id) is None,
    decreases count,
{
    let encoded = frame.encoded();
    wire::encoded_frames_are_delimited(frame);
    if count == 0 {
        assert(encoded.take(0) =~= Seq::<u8>::empty());
    } else {
        lemma_carried(hearing, messages, frame, node_id, count - 1);
        let before = messages.take(count - 1);
        assert(messages.take(count).drop_last() =~= before);
        let data = messages[count - 1].data;
        let sent = encoded.take(8 * (count - 1));
        let longer = encoded.take(8 * count);
        can::pieces_cover(encoded, (count - 1) as nat);
        assert(longer =~= encoded.drop_last().take(longer.len() as int));
        assert(sent =~= encoded.drop_last().take(sent.len() as int));
        assembler::lemma_accumulates(sent);
        assembler::lemma_accumulates(longer);
        assembler::feeding_is_incremental(AssemblerView::clean(), sent, data);
        let results = hearing.heard_all(before).partial(node_id).results(data);
        assert((Seq::<Result<FrameView, wire::FrameError>>::empty() + results).len() == 0);
        assert(results.len() == 0);
    }
}

/// A bootloader whose answer comes in full is found, with that answer, however
/// many messages it takes and whatever other nodes send between them.
pub proof fn answers_are_found(
    hearing: HearingView,
    messages: Seq<MessageView>,
    node_id: u8,
    ack: FrameView,
)
    requires
        hearing.partial(node_id) == AssemblerView::clean(),
        hearing.answer(node_id) is None,
        ack.sound(),
        ack.node_id == node_id,
        ack.function == FunctionCode::EnterIapAck,
        carries(only_from(messages, node_id), ack),
    ensures
        hearing.heard_all(messages).answer(node_id) == Some(hit_of(ack)),
{
    let own = only_from(messages, node_id);
    let encoded = ack.encoded();
    let last = own.len() - 1;
    nodes_are_heard_apart(hearing, messages, node_id);
    lemma_only_from(messages, node_id);
    wire::encoded_frames_are_delimited(ack);
    lemma_carried(hearing, own, ack, node_id, last);
    let before = own.take(last);
    assert(own.drop_last() =~= before);
    let data = own.last().data;
    let sent = encoded.take(8 * last);
    can::pieces_cover(encoded, last as nat);
    assert(encoded.take(encoded.len() as int) =~= encoded);
    assert(sent =~= encoded.drop_last().take(sent.len() as int));
    assembler::lemma_accumulates(sent);
    assembler::feeding_is_incremental(AssemblerView::clean(), sent, data);
    assembler::frame_is_reassembled(ack);
    let results = hearing.heard_all(before).partial(node_id).results(data);
    assert(results =~= Seq::<Result<FrameView, wire::FrameError>>::empty() + results);
    assert(results[0] == Ok::<FrameView, wire::FrameError>(ack));
}

proof fn lemma_only_from(messages: Seq<MessageView>, node_id: u8)
    ensures
        forall|index: int|
            0 <= index < only_from(messages, node_id).len() ==> sender(
                #[trigger] only_from(messages, node_id)[index],
            ) == Some(node_id),
    decreases messages.len(),
{
    if messages.len() > 0 {
        lemma_only_from(messages.drop_last(), node_id);
    }
}

/// A report lists every node that answered, once, in the order of the nodes.
pub proof fn reports_are_complete_and_ordered(hearing: HearingView, last: nat)
    requires
        hearing.sound(),
        last <= 127,
    ensures
        forall|i: int, j: int|
            0 <= i < j < hearing.listed(last).len() ==> (#[trigger] hearing.listed(last)[i]).node_id
                < (#[trigger] hearing.listed(last)[j]).node_id,
        forall|i: int|
            0 <= i < hearing.listed(last).len() ==> {
                let hit = #[trigger] hearing.listed(last)[i];
                1 <= hit.node_id <= last && hearing.answer(hit.node_id) == Some(hit)
            },
        forall|node_id: u8|
            1 <= node_id <= last && (#[trigger] hearing.answer(node_id)) is Some
                ==> hearing.listed(last).contains(hearing.answer(node_id)->0),
    decreases last,
{
    if last > 0 {
        let fewer = hearing.listed((last - 1) as nat);
        let all = hearing.listed(last);
        reports_are_complete_and_ordered(hearing, (last - 1) as nat);
        assert forall|node_id: u8| 1 <= node_id <= last && (
        #[trigger] hearing.answer(node_id)) is Some implies all.contains(
            hearing.answer(node_id)->0,
        ) by {
            let hit = hearing.answer(node_id)->0;
            if node_id == last {
                assert(all[all.len() - 1] == hit);
            } else {
                assert(fewer.contains(hit));
                let at = choose|at: int| 0 <= at < fewer.len() && fewer[at] == hit;
                assert(all[at] == hit);
            }
        }
    }
}

/// The subscription of a scan takes in the answer identifier of every node, and
/// no other standard identifier.
pub proof fn the_answer_filter_is_exact(id: u16)
    requires
        id <= 0x7FF,
    ensures
        id & ACK_ID_MASK == RX_BASE & ACK_ID_MASK <==> RX_BASE <= id <= RX_BASE + 127,
{
    assert((id & 0x780) == (0x680u16 & 0x780) <==> 0x680 <= id && id <= 0x6FF) by (bit_vector)
        requires
            id <= 0x7FF,
    ;
}

/// A scan subscribes before it does anything else, so that no answer is missed.
pub proof fn scans_subscribe_first(nodes: Seq<u8>, span: Duration, input: ScanInput)
    ensures
        outcome(ScanView::idle(nodes, span), seq![input]) == (ScanActionView::Subscribe {
            id: RX_BASE,
            mask: ACK_ID_MASK,
        }),
{
    assert(seq![input].drop_last() =~= Seq::empty());
}

/// A probe is one message.
pub proof fn probes_fit_one_message(node_id: u8)
    requires
        wire::addressable(node_id),
    ensures
        probe_of(node_id).encoded().len() == can::CAN_DATA_LEN,
{
    wire::encoded_frames_are_delimited(probe_of(node_id));
}

/// One reply, and when it was handled.
pub struct ScanInput {
    pub reply: ReplyView,
    pub now: Duration,
}

/// Where inputs lead.
pub open spec fn state(start: ScanView, inputs: Seq<ScanInput>) -> ScanView
    decreases inputs.len(),
{
    if inputs.len() == 0 {
        start
    } else {
        state(start, inputs.drop_last()).step(inputs.last().reply, inputs.last().now).0
    }
}

/// Whether every input is one that the scan waits for.
pub open spec fn awaited(start: ScanView, inputs: Seq<ScanInput>) -> bool
    decreases inputs.len(),
{
    inputs.len() == 0 || awaited(start, inputs.drop_last()) && state(
        start,
        inputs.drop_last(),
    ).expects(inputs.last().reply)
}

/// The last action that the scan asks for.
pub open spec fn outcome(start: ScanView, inputs: Seq<ScanInput>) -> ScanActionView {
    state(start, inputs.drop_last()).step(inputs.last().reply, inputs.last().now).1
}

/// The messages that the scan asks to be sent.
pub open spec fn sent(start: ScanView, inputs: Seq<ScanInput>) -> Seq<ScanActionView>
    decreases inputs.len(),
{
    if inputs.len() == 0 {
        Seq::empty()
    } else if outcome(start, inputs) is Transmit {
        sent(start, inputs.drop_last()).push(outcome(start, inputs))
    } else {
        sent(start, inputs.drop_last())
    }
}

/// How many probes failed or took too long.
pub open spec fn lost(start: ScanView, inputs: Seq<ScanInput>) -> nat
    decreases inputs.len(),
{
    if inputs.len() == 0 {
        0
    } else {
        let rest = lost(start, inputs.drop_last());
        let reply = inputs.last().reply;
        if state(start, inputs.drop_last()).phase is Probing && (reply is Failed
            || reply is TimedOut) {
            rest + 1
        } else {
            rest
        }
    }
}

/// The messages that came.
pub open spec fn received(inputs: Seq<ScanInput>) -> Seq<MessageView>
    decreases inputs.len(),
{
    if inputs.len() == 0 {
        Seq::empty()
    } else {
        match inputs.last().reply {
            ReplyView::Received(message) => received(inputs.drop_last()).push(message),
            _ => received(inputs.drop_last()),
        }
    }
}

/// The probes of `nodes`, in order.
pub open spec fn probes(nodes: Seq<u8>) -> Seq<ScanActionView> {
    Seq::new(
        nodes.len(),
        |index: int|
            ScanActionView::Transmit {
                id: (TX_BASE + nodes[index]) as u16,
                data: probe_of(nodes[index]).encoded(),
                patience: Duration { nanos: PROBE_SEND_NANOS },
            },
    )
}

impl ScanView {
    /// How many probes were asked for.
    spec fn asked(self) -> int {
        match self.phase {
            ScanPhase::Probing { index } => index + 1,
            _ => self.tried() as int,
        }
    }
}

proof fn lemma_run(start: ScanView, inputs: Seq<ScanInput>)
    requires
        start.sound(),
        start.phase is Idle,
        start.hearing == HearingView::silence(),
        awaited(start, inputs),
    ensures
        ({
            let end = state(start, inputs);
            &&& end.sound()
            &&& end.nodes == start.nodes
            &&& end.span == start.span
            &&& end.phase is Over <==> inputs.len() > 0 && outcome(start, inputs) is Finish
            &&& end.phase is Over ==> sent(start, inputs).is_prefix_of(probes(start.nodes))
            &&& !(end.phase is Over) ==> {
                &&& sent(start, inputs) == probes(start.nodes).take(end.asked())
                &&& end.unsent == start.unsent + lost(start, inputs)
                &&& end.hearing == HearingView::silence().heard_all(received(inputs))
            }
        }),
    decreases inputs.len(),
{
    let all = probes(start.nodes);
    if inputs.len() == 0 {
        assert(sent(start, inputs) =~= all.take(0));
    } else {
        let fewer = inputs.drop_last();
        let last = inputs.last();
        let before = state(start, fewer);
        let end = state(start, inputs);
        lemma_run(start, fewer);
        steps_keep_sound(before, last.reply, last.now);
        if let ReplyView::Received(message) = last.reply {
            assert(received(inputs).drop_last() =~= received(fewer));
        }
        if outcome(start, inputs) is Transmit {
            let count = before.asked();
            assert(all.take(count).push(all[count]) =~= all.take(count + 1));
        }
    }
}

/// A scan probes each of its nodes once, in order, with one message each, and
/// never the broadcast address. What it reports is exactly what came: the
/// answers that the messages carry, and how many probes failed or took too long.
pub proof fn scans_report_what_came(
    nodes: Seq<u8>,
    span: Duration,
    inputs: Seq<ScanInput>,
)
    requires
        nodes.len() <= usize::MAX,
        first_unaddressable(nodes) is None,
        awaited(ScanView::idle(nodes, span), inputs),
        inputs.len() > 0,
    ensures
        sent(ScanView::idle(nodes, span), inputs).is_prefix_of(probes(nodes)),
        forall|index: int|
            0 <= index < nodes.len() ==> {
                let probe = #[trigger] probes(nodes)[index];
                probe->Transmit_id > TX_BASE && probe->Transmit_data.len() == 8
            },
        outcome(ScanView::idle(nodes, span), inputs) matches ScanActionView::Finish(
            Ok(report),
        ) ==> {
            &&& sent(ScanView::idle(nodes, span), inputs) == probes(nodes)
            &&& report.hits == HearingView::silence().heard_all(received(inputs)).listed(127)
            &&& report.probed == nodes.len()
            &&& report.unsent == lost(ScanView::idle(nodes, span), inputs)
            &&& report.unsent <= report.probed
        },
{
    let start = ScanView::idle(nodes, span);
    lemma_addressable(nodes);
    lemma_run(start, inputs);
    let fewer = inputs.drop_last();
    lemma_run(start, fewer);
    assert forall|index: int| 0 <= index < nodes.len() implies {
        let probe = #[trigger] probes(nodes)[index];
        probe->Transmit_id > TX_BASE && probe->Transmit_data.len() == 8
    } by {
        probes_fit_one_message(nodes[index]);
    }
    assert(probes(nodes).take(nodes.len() as int) =~= probes(nodes));
    if let ReplyView::Received(message) = inputs.last().reply {
        assert(received(inputs).drop_last() =~= received(fewer));
    }
}

proof fn lemma_addressable(nodes: Seq<u8>)
    requires
        first_unaddressable(nodes) is None,
    ensures
        forall|index: int| 0 <= index < nodes.len() ==> wire::addressable(#[trigger] nodes[index]),
    decreases nodes.len(),
{
    if nodes.len() > 0 {
        lemma_addressable(nodes.skip(1));
        assert forall|index: int| 0 <= index < nodes.len() implies wire::addressable(
            #[trigger] nodes[index],
        ) by {
            if index > 0 {
                assert(nodes[index] == nodes.skip(1)[index - 1]);
            }
        }
    }
}

// ---------------------------------------------------------------------------
// What reports are made of
// ---------------------------------------------------------------------------

/// Whether a message is an answer of a node: a Classic data message under 0x680
/// plus the node.
pub open spec fn speaks_for(message: MessageView, node_id: u8) -> bool {
    !message.fd && !message.remote && message.id == MessageId::Standard((0x680 + node_id) as u16)
}

/// The bytes that came from a node, in order.
pub open spec fn spoken(messages: Seq<MessageView>, node_id: u8) -> Seq<u8>
    decreases messages.len(),
{
    if messages.len() == 0 {
        Seq::empty()
    } else if speaks_for(messages.last(), node_id) {
        spoken(messages.drop_last(), node_id) + messages.last().data
    } else {
        spoken(messages.drop_last(), node_id)
    }
}

/// A message is attributed by its identifier: to node n, any of 1 to 127, if and
/// only if it is a Classic data message under 0x680 + n.
pub proof fn messages_are_attributed_by_identifier(message: MessageView, node_id: u8)
    ensures
        sender(message) == Some(node_id) <==> 1 <= node_id <= 127 && speaks_for(message, node_id),
{
}

/// Whatever follows a match, it stays the first; without one the search goes on in
/// what follows.
proof fn lemma_match_in_order(
    first: Seq<Result<FrameView, wire::FrameError>>,
    second: Seq<Result<FrameView, wire::FrameError>>,
    node_id: u8,
    function: FunctionCode,
)
    ensures
        session::first_match(first + second, node_id, function) == match session::first_match(
            first,
            node_id,
            function,
        ) {
            Some(frame) => Some(frame),
            None => session::first_match(second, node_id, function),
        },
    decreases first.len(),
{
    if first.len() == 0 {
        assert(first + second =~= second);
    } else {
        lemma_match_in_order(first.skip(1), second, node_id, function);
        assert((first + second).skip(1) =~= first.skip(1) + second);
        assert((first + second)[0] == first[0]);
    }
}

/// What a node is found to have answered is the first Enter-IAP acknowledgement
/// naming that node in the bytes that came under its identifier, however these are
/// cut into messages; without one it is not found.
pub proof fn answers_are_read_from_the_bytes_of_a_node(messages: Seq<MessageView>, node_id: u8)
    requires
        1 <= node_id <= 127,
    ensures
        ({
            let heard = HearingView::silence().heard_all(messages);
            let bytes = spoken(messages, node_id);
            &&& heard.partial(node_id) == AssemblerView::clean().after_all(bytes)
            &&& match session::first_match(
                AssemblerView::clean().results(bytes),
                node_id,
                FunctionCode::EnterIapAck,
            ) {
                Some(ack) => heard.answer(node_id) == Some(
                    HitView {
                        node_id,
                        identity: identity::iap_identity(ack.data).ok(),
                        payload: ack.data,
                    },
                ),
                None => heard.answer(node_id) is None,
            }
        }),
    decreases messages.len(),
{
    let clean = AssemblerView::clean();
    if messages.len() == 0 {
        assert(clean.results(Seq::empty()).len() == 0);
    } else {
        let fewer = messages.drop_last();
        let message = messages.last();
        let bytes = spoken(fewer, node_id);
        answers_are_read_from_the_bytes_of_a_node(fewer, node_id);
        messages_are_attributed_by_identifier(message, node_id);
        if speaks_for(message, node_id) {
            assembler::feeding_is_incremental(clean, bytes, message.data);
            lemma_match_in_order(
                clean.results(bytes),
                clean.after_all(bytes).results(message.data),
                node_id,
                FunctionCode::EnterIapAck,
            );
            lemma_first_match(
                clean.after_all(bytes).results(message.data),
                node_id,
                FunctionCode::EnterIapAck,
            );
        }
    }
}

/// A report lists a node, any of 1 to 127, if and only if an Enter-IAP
/// acknowledgement naming it came in full under its identifier. The payload is that
/// of the first such frame, and so is the identity, where the payload is one. The
/// nodes are listed in ascending order, each once.
pub proof fn reports_list_exactly_the_nodes_that_answered(
    nodes: Seq<u8>,
    span: Duration,
    inputs: Seq<ScanInput>,
    report: ReportView,
)
    requires
        nodes.len() <= usize::MAX,
        first_unaddressable(nodes) is None,
        awaited(ScanView::idle(nodes, span), inputs),
        inputs.len() > 0,
        outcome(ScanView::idle(nodes, span), inputs) == ScanActionView::Finish(Ok(report)),
    ensures
        forall|node_id: u8|
            1 <= node_id <= 127 ==> match session::first_match(
                AssemblerView::clean().results(#[trigger] spoken(received(inputs), node_id)),
                node_id,
                FunctionCode::EnterIapAck,
            ) {
                Some(ack) => report.hits.contains(
                    HitView {
                        node_id,
                        identity: identity::iap_identity(ack.data).ok(),
                        payload: ack.data,
                    },
                ),
                None => forall|index: int|
                    0 <= index < report.hits.len() ==> (#[trigger] report.hits[index]).node_id
                        != node_id,
            },
        forall|i: int, j: int|
            0 <= i < j < report.hits.len() ==> 1 <= (#[trigger] report.hits[i]).node_id < (
            #[trigger] report.hits[j]).node_id <= 127,
        report.hits.len() == 1 ==> 1 <= report.hits[0].node_id <= 127,
        report.probed == nodes.len(),
        report.unsent == lost(ScanView::idle(nodes, span), inputs),
        report.deaf() <==> 0 < nodes.len() && lost(ScanView::idle(nodes, span), inputs)
            == nodes.len(),
{
    let heard = HearingView::silence().heard_all(received(inputs));
    scans_report_what_came(nodes, span, inputs);
    lemma_all_heard_sound(received(inputs));
    reports_are_complete_and_ordered(heard, 127);
    assert forall|node_id: u8| 1 <= node_id <= 127 implies match session::first_match(
        AssemblerView::clean().results(#[trigger] spoken(received(inputs), node_id)),
        node_id,
        FunctionCode::EnterIapAck,
    ) {
        Some(ack) => report.hits.contains(
            HitView {
                node_id,
                identity: identity::iap_identity(ack.data).ok(),
                payload: ack.data,
            },
        ),
        None => forall|index: int|
            0 <= index < report.hits.len() ==> (#[trigger] report.hits[index]).node_id != node_id,
    } by {
        answers_are_read_from_the_bytes_of_a_node(received(inputs), node_id);
        assert(heard.answer(node_id) is Some ==> report.hits.contains(heard.answer(node_id)->0));
    }
}

/// A bootloader whose acknowledgement came in full under its identifier is listed,
/// with that answer, whatever else was on the bus.
pub proof fn complete_answers_are_listed(
    nodes: Seq<u8>,
    span: Duration,
    inputs: Seq<ScanInput>,
    report: ReportView,
    ack: FrameView,
)
    requires
        nodes.len() <= usize::MAX,
        first_unaddressable(nodes) is None,
        awaited(ScanView::idle(nodes, span), inputs),
        inputs.len() > 0,
        outcome(ScanView::idle(nodes, span), inputs) == ScanActionView::Finish(Ok(report)),
        ack.sound(),
        ack.function == FunctionCode::EnterIapAck,
        1 <= ack.node_id <= 127,
        spoken(received(inputs), ack.node_id) == ack.encoded(),
    ensures
        report.hits.contains(
            HitView {
                node_id: ack.node_id,
                identity: identity::iap_identity(ack.data).ok(),
                payload: ack.data,
            },
        ),
{
    assembler::frame_is_reassembled(ack);
    reports_list_exactly_the_nodes_that_answered(nodes, span, inputs, report);
    let results = AssemblerView::clean().results(spoken(received(inputs), ack.node_id));
    assert(results[0] == Ok::<FrameView, wire::FrameError>(ack));
}

proof fn lemma_all_heard_sound(messages: Seq<MessageView>)
    ensures
        HearingView::silence().heard_all(messages).sound(),
    decreases messages.len(),
{
    if messages.len() > 0 {
        lemma_all_heard_sound(messages.drop_last());
        lemma_heard_sound(HearingView::silence().heard_all(messages.drop_last()), messages.last());
    }
}

// ---------------------------------------------------------------------------
// What a scan does at each turn
// ---------------------------------------------------------------------------

/// A list of nodes is refused if and only if one of them is outside 1 to 127, and
/// the first such node is named.
pub proof fn the_first_unusable_node_is_named(nodes: Seq<u8>)
    ensures
        first_unaddressable(nodes) is None <==> forall|index: int|
            0 <= index < nodes.len() ==> 1 <= #[trigger] nodes[index] <= 127,
        first_unaddressable(nodes) matches Some(node_id) ==> exists|at: int|
            0 <= at < nodes.len() && #[trigger] nodes[at] == node_id && !(1 <= node_id <= 127)
                && forall|index: int|
                0 <= index < at ==> 1 <= #[trigger] nodes[index] <= 127,
    decreases nodes.len(),
{
    if nodes.len() > 0 {
        let rest = nodes.skip(1);
        the_first_unusable_node_is_named(rest);
        if 1 <= nodes[0] <= 127 {
            assert(forall|index: int| 0 <= index < rest.len() ==> rest[index] == nodes[index + 1]);
            assert forall|index: int|
                first_unaddressable(rest) is None && 0 <= index < nodes.len() implies 1
                <= #[trigger] nodes[index] <= 127 by {
                if index > 0 {
                    assert(1 <= rest[index - 1] <= 127);
                }
            }
            if let Some(node_id) = first_unaddressable(rest) {
                let at = choose|at: int|
                    0 <= at < rest.len() && #[trigger] rest[at] == node_id && !(1 <= node_id
                        <= 127) && forall|index: int|
                        0 <= index < at ==> 1 <= #[trigger] rest[index] <= 127;
                assert(nodes[at + 1] == node_id);
                assert forall|index: int| 0 <= index < at + 1 implies 1 <= #[trigger] nodes[index]
                    <= 127 by {
                    if index > 0 {
                        assert(1 <= rest[index - 1] <= 127);
                    }
                }
            }
        } else {
            assert(nodes[0] == first_unaddressable(nodes)->0);
        }
    }
}

/// A full scan is of the nodes 1 to 127, in this order.
pub proof fn full_scans_cover_every_node()
    ensures
        every_node().len() == 127,
        forall|index: int| 0 <= index < 127 ==> #[trigger] every_node()[index] == index + 1,
{
}

/// A scan first subscribes to the identifiers that agree with 0x680 in the bits of
/// 0x780. Then it sends each node an Enter-IAP request under 0x780 plus the node,
/// one after the other, waiting at most five milliseconds for each and pausing for
/// one after every fourth. A probe counts as unsent if and only if it failed or
/// took too long.
pub proof fn probes_are_paced(scan: ScanView, reply: ReplyView, now: Duration)
    requires
        scan.sound(),
        scan.expects(reply),
    ensures
        ({
            let (next, action) = scan.step(reply, now);
            let coming = match scan.phase {
                ScanPhase::Probing { index } => index + 1,
                ScanPhase::Resting { index } => index as int,
                _ => 0,
            };
            let rests = scan.phase is Probing && coming % 4 == 0;
            let probes = (scan.phase is Subscribing && reply is Done) || scan.phase is Probing
                || scan.phase is Resting;
            &&& scan.phase is Idle ==> action == (ScanActionView::Subscribe {
                id: 0x680,
                mask: 0x780,
            }) && next.phase is Subscribing
            &&& rests ==> action == ScanActionView::Pause(Duration { nanos: 1_000_000 })
                && next.phase == (ScanPhase::Resting { index: coming as usize })
            &&& probes && !rests && coming < scan.nodes.len() ==> action == (
            ScanActionView::Transmit {
                id: (0x780 + scan.nodes[coming]) as u16,
                data: (FrameView {
                    node_id: scan.nodes[coming],
                    function: FunctionCode::EnterIapRequest,
                    data: Seq::empty(),
                }).encoded(),
                patience: Duration { nanos: 5_000_000 },
            }) && next.phase == (ScanPhase::Probing { index: coming as usize })
            &&& scan.phase is Probing && (reply is Failed || reply is TimedOut) ==> next.unsent
                == scan.unsent + 1
            &&& !(scan.phase is Probing && (reply is Failed || reply is TimedOut)) ==> next.unsent
                == scan.unsent
            &&& next.nodes == scan.nodes
            &&& next.span == scan.span
        }),
{
}

/// After the last probe a scan listens for the configured time, counted from then.
/// Messages do not prolong it, the report comes when it is over and not before, and
/// nothing is reported where the transport failed.
pub proof fn scans_listen_for_their_time(scan: ScanView, reply: ReplyView, now: Duration)
    requires
        scan.sound(),
        scan.expects(reply),
        now.nanos + scan.span.nanos <= u128::MAX,
    ensures
        ({
            let (next, action) = scan.step(reply, now);
            let done = match scan.phase {
                ScanPhase::Probing { index } => index + 1 == scan.nodes.len() && (index + 1) % 4
                    != 0,
                ScanPhase::Resting { index } => index == scan.nodes.len(),
                ScanPhase::Subscribing => reply is Done && scan.nodes.len() == 0,
                _ => false,
            };
            &&& done && scan.span.nanos > 0 ==> action == ScanActionView::Listen(scan.span)
                && next.phase == (ScanPhase::Listening {
                deadline: Duration { nanos: (now.nanos + scan.span.nanos) as u128 },
            })
            &&& scan.phase matches ScanPhase::Listening { deadline } ==> match reply {
                ReplyView::Received(message) => {
                    &&& now.nanos < deadline.nanos ==> next.phase == scan.phase && action
                        == ScanActionView::Listen(
                        Duration { nanos: (deadline.nanos - now.nanos) as u128 },
                    ) && next.hearing == scan.hearing.heard(message)
                    &&& now.nanos >= deadline.nanos ==> action is Finish && action->Finish_0 is Ok
                },
                ReplyView::Failed(error) => action == ScanActionView::Finish(
                    Err(ScanFault::Transport("receiving: "@ + error)),
                ),
                _ => action is Finish && action->Finish_0 is Ok,
            }
            &&& scan.phase is Subscribing ==> (reply matches ReplyView::Failed(error) ==> action
                == ScanActionView::Finish(
                Err(ScanFault::Transport("subscribing to the answer range: "@ + error)),
            ))
            &&& action is Finish <==> next.phase is Over
            &&& action is Finish && action->Finish_0 is Ok ==> scan.phase is Listening || (done
                && scan.span.nanos == 0)
        }),
{
}

/// What can come of an action, and nothing else, is what the scan then waits for:
/// a subscription is done or fails; a probe is sent or not, for whatever reason; a
/// pause is done; listening brings a message, a timeout or a failure; and after the
/// end there is nothing.
pub proof fn replies_fit_actions(scan: ScanView, reply: ReplyView, now: Duration)
    requires
        scan.sound(),
        scan.expects(reply),
    ensures
        scan.phase is Idle ==> reply is Done,
        ({
            let (next, action) = scan.step(reply, now);
            forall|coming: ReplyView| #[trigger]
                next.expects(coming) <==> match action {
                    ScanActionView::Subscribe { .. } => coming is Done || coming is Failed,
                    ScanActionView::Transmit { .. } => !(coming is Received),
                    ScanActionView::Pause(_) => coming is Done,
                    ScanActionView::Listen(_) => coming is Received || coming is TimedOut
                        || coming is Failed,
                    ScanActionView::Finish(_) => false,
                }
        }),
{
}

/// A message changes what is heard of its own node alone, and the answer of a node
/// that has answered not at all.
pub proof fn messages_speak_for_their_node_alone(
    hearing: HearingView,
    message: MessageView,
    node_id: u8,
)
    ensures
        !(1 <= node_id <= 127 && speaks_for(message, node_id)) ==> hearing.heard(message).partial(
            node_id,
        ) == hearing.partial(node_id) && hearing.heard(message).answer(node_id)
            == hearing.answer(node_id),
        hearing.answer(node_id) is Some ==> hearing.heard(message).answer(node_id)
            == hearing.answer(node_id),
{
}

/// Errors and actions are seen as what they are.
pub proof fn scan_actions_are_seen_as_they_are(action: ScanAction, error: ScanError)
    ensures
        match action {
            ScanAction::Subscribe { id, mask } => action@ is Subscribe && action@->Subscribe_id == id
                && action@->mask == mask,
            ScanAction::Transmit { id, data, patience } => action@ is Transmit
                && action@->Transmit_id == id && action@->data == data@ && action@->patience
                == patience,
            ScanAction::Pause(span) => action@ is Pause && action@->Pause_0 == span,
            ScanAction::Listen(span) => action@ is Listen && action@->Listen_0 == span,
            ScanAction::Finish(Ok(report)) => action@ is Finish && action@->Finish_0 is Ok
                && action@->Finish_0->Ok_0 == report@,
            ScanAction::Finish(Err(cause)) => action@ is Finish && action@->Finish_0 is Err
                && action@->Finish_0->Err_0 == cause@,
        },
        match error {
            ScanError::InvalidNode(node_id) => error@ is InvalidNode && error@->InvalidNode_0
                == node_id,
            ScanError::Transport(detail) => error@ is Transport && error@->Transport_0 == detail@,
        },
{
}

} // verus!
