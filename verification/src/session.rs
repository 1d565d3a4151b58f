//! One update as a state machine.
//!
//! The session decides; whoever drives it performs one [`Action`] at a time and
//! answers with a [`Reply`]. Every destructive request is sent at most once.

use vstd::prelude::*;

use crate::artifact::{ImageView, ImgArtifact};
use crate::assembler::{AssemblerView, FrameAssembler};
use crate::can;
use crate::can::{CanMessage, MessageView};
use crate::clock;
use crate::clock::Duration;
use crate::engine;
use crate::engine::{
    check_cancel, require_success, validate_options, with_recovery, AssertedTarget, AssertedView,
    CancellationToken, EventView, FlashError, FlashEvent, FlashFault, FlashOptions, FlashOutcome,
    FlashStage, RX_BASE, TX_BASE,
};
use crate::identity;
use crate::identity::{IapIdentity, IapView};
use crate::policy::{
    PolicyError, PolicyFault, PreparedView, ReadyToFlash, SupportPolicy, SupportView,
    READY_TTL_NANOS,
};
use crate::text;
use crate::wire;
use crate::wire::{Frame, FrameError, FrameView, FunctionCode, MAX_DATA_LEN};

verus! {

// ---------------------------------------------------------------------------
// Requests
// ---------------------------------------------------------------------------

/// The requests of an update, in order. Segments are numbered from zero.
#[derive(Debug, Clone, Copy, PartialEq, Eq, Structural)]
pub enum Exchange {
    Reset,
    EnterIap,
    StartDownload,
    Segment(usize),
    FinalDownload,
    Verify,
}

impl Exchange {
    /// The stage that the request belongs to.
    pub open spec fn stage_spec(self) -> FlashStage {
        match self {
            Exchange::Reset => FlashStage::Resetting,
            Exchange::EnterIap => FlashStage::EnteringBootloader,
            Exchange::StartDownload => FlashStage::StartingDownload,
            Exchange::Segment(_) => FlashStage::Transferring,
            Exchange::FinalDownload => FlashStage::Finalizing,
            Exchange::Verify => FlashStage::Verifying,
        }
    }

    /// The function code of the request; segments alternate between two.
    pub open spec fn function_spec(self) -> FunctionCode {
        match self {
            Exchange::Reset => FunctionCode::ResetRequest,
            Exchange::EnterIap => FunctionCode::EnterIapRequest,
            Exchange::StartDownload => FunctionCode::StartDownloadRequest,
            Exchange::Segment(index) => if index % 2 == 0 {
                FunctionCode::SegmentARequest
            } else {
                FunctionCode::SegmentBRequest
            },
            Exchange::FinalDownload => FunctionCode::FinalDownloadRequest,
            Exchange::Verify => FunctionCode::VerifyRequest,
        }
    }

    /// Whether the request may cost the device its application, so that an
    /// ambiguous outcome calls for recovery.
    pub open spec fn destructive(self) -> bool {
        !(self is Reset || self is EnterIap)
    }

    /// Whether the request follows an accepted StartDownload, which erases.
    pub open spec fn committed(self) -> bool {
        self.destructive() && !(self is StartDownload)
    }

    /// How long to wait for the acknowledgement.
    pub open spec fn timeout_spec(self, options: FlashOptions) -> Duration {
        match self {
            Exchange::Reset => options.reset_timeout,
            Exchange::EnterIap => options.knock_interval,
            Exchange::StartDownload => options.start_timeout,
            Exchange::Segment(_) => options.segment_timeout,
            Exchange::FinalDownload => options.final_timeout,
            Exchange::Verify => options.verify_timeout,
        }
    }

    /// How often the request may be sent. Only Reset is ever repeated for want
    /// of an answer.
    pub open spec fn attempts_spec(self, options: FlashOptions) -> u8 {
        if self is Reset {
            options.reset_attempts
        } else {
            1
        }
    }

    fn stage(self) -> (stage: FlashStage)
        ensures
            stage == self.stage_spec(),
    {
        match self {
            Exchange::Reset => FlashStage::Resetting,
            Exchange::EnterIap => FlashStage::EnteringBootloader,
            Exchange::StartDownload => FlashStage::StartingDownload,
            Exchange::Segment(_) => FlashStage::Transferring,
            Exchange::FinalDownload => FlashStage::Finalizing,
            Exchange::Verify => FlashStage::Verifying,
        }
    }

    fn function(self) -> (function: FunctionCode)
        ensures
            function == self.function_spec(),
    {
        match self {
            Exchange::Reset => FunctionCode::ResetRequest,
            Exchange::EnterIap => FunctionCode::EnterIapRequest,
            Exchange::StartDownload => FunctionCode::StartDownloadRequest,
            Exchange::Segment(index) => if index % 2 == 0 {
                FunctionCode::SegmentARequest
            } else {
                FunctionCode::SegmentBRequest
            },
            Exchange::FinalDownload => FunctionCode::FinalDownloadRequest,
            Exchange::Verify => FunctionCode::VerifyRequest,
        }
    }

    fn is_destructive(self) -> (destructive: bool)
        ensures
            destructive == self.destructive(),
    {
        match self {
            Exchange::Reset | Exchange::EnterIap => false,
            _ => true,
        }
    }

    fn is_committed(self) -> (committed: bool)
        ensures
            committed == self.committed(),
    {
        match self {
            Exchange::Reset | Exchange::EnterIap | Exchange::StartDownload => false,
            _ => true,
        }
    }

    fn timeout(self, options: &FlashOptions) -> (timeout: Duration)
        ensures
            timeout == self.timeout_spec(*options),
    {
        match self {
            Exchange::Reset => options.reset_timeout,
            Exchange::EnterIap => options.knock_interval,
            Exchange::StartDownload => options.start_timeout,
            Exchange::Segment(_) => options.segment_timeout,
            Exchange::FinalDownload => options.final_timeout,
            Exchange::Verify => options.verify_timeout,
        }
    }

    fn attempts(self, options: &FlashOptions) -> (attempts: u8)
        ensures
            attempts == self.attempts_spec(*options),
    {
        match self {
            Exchange::Reset => options.reset_attempts,
            _ => 1,
        }
    }
}

/// Number of segments of a binary.
pub open spec fn segments(size: nat) -> nat {
    (size + 255) / 256
}

/// Where segment `index` ends.
pub open spec fn segment_end(size: nat, index: nat) -> nat {
    if 256 * index + 256 <= size {
        256 * index + 256
    } else {
        size
    }
}

/// Segment `index` of a binary: 256 bytes, or what is left at the end.
pub open spec fn segment(bin: Seq<u8>, index: nat) -> Seq<u8> {
    bin.subrange(256 * index as int, segment_end(bin.len(), index) as int)
}

// ---------------------------------------------------------------------------
// Actions, replies and observations
// ---------------------------------------------------------------------------

/// What the driver is to do next.
#[derive(Debug)]
pub enum Action {
    /// Receive messages with exactly this standard identifier from now on.
    Subscribe { id: u16 },
    /// Send one Classic data message.
    Transmit { id: u16, data: Vec<u8> },
    /// Let this time pass.
    Pause(Duration),
    /// Wait for the next message, but no longer than this.
    Listen(Duration),
    /// Tell the caller.
    Report(FlashEvent),
    /// Nothing more: this is how the update ended.
    Finish(Result<FlashOutcome, FlashError>),
}

/// What an action says.
pub enum ActionView {
    Subscribe { id: u16 },
    Transmit { id: u16, data: Seq<u8> },
    Pause(Duration),
    Listen(Duration),
    Report(EventView),
    Finish(Result<IapView, FlashFault>),
}

impl View for Action {
    type V = ActionView;

    open spec fn view(&self) -> ActionView {
        match *self {
            Action::Subscribe { id } => ActionView::Subscribe { id },
            Action::Transmit { id, data } => ActionView::Transmit { id, data: data@ },
            Action::Pause(span) => ActionView::Pause(span),
            Action::Listen(span) => ActionView::Listen(span),
            Action::Report(event) => ActionView::Report(event@),
            Action::Finish(result) => match result {
                Ok(outcome) => ActionView::Finish(Ok(outcome@)),
                Err(error) => ActionView::Finish(Err(error@)),
            },
        }
    }
}

/// How an action went.
#[derive(Debug)]
pub enum Reply {
    /// It was done.
    Done,
    /// The transport failed, with this description.
    Failed(String),
    /// The transport did not accept the message as one, with this description.
    Refused(String),
    /// Nothing came in time.
    TimedOut,
    /// This came.
    Received(CanMessage),
}

/// What a reply says.
pub enum ReplyView {
    Done,
    Failed(Seq<char>),
    Refused(Seq<char>),
    TimedOut,
    Received(MessageView),
}

impl View for Reply {
    type V = ReplyView;

    open spec fn view(&self) -> ReplyView {
        match *self {
            Reply::Done => ReplyView::Done,
            Reply::Failed(detail) => ReplyView::Failed(detail@),
            Reply::Refused(detail) => ReplyView::Refused(detail@),
            Reply::TimedOut => ReplyView::TimedOut,
            Reply::Received(message) => ReplyView::Received(message@),
        }
    }
}

/// What is observed when a reply is handled.
#[derive(Debug, Clone, Copy)]
pub struct Reading {
    /// The reading of a monotonic clock.
    pub now: Duration,
    /// Whether cancellation was asked for.
    pub cancelled: bool,
    /// The age of the capability that the session started with.
    pub age: Duration,
}

// ---------------------------------------------------------------------------
// The machine
// ---------------------------------------------------------------------------

/// Where a session stands: which action it waits for.
#[derive(Debug, Clone, Copy, PartialEq, Eq, Structural)]
pub enum Phase {
    /// Not started.
    Idle,
    /// For the subscription.
    Subscribing,
    /// For message number `piece` of a request to be sent.
    Sending { exchange: Exchange, attempt: u8, piece: usize },
    /// For the pause after `piece` messages of a request.
    Pacing { exchange: Exchange, attempt: u8, piece: usize },
    /// For the report that a request was sent.
    Announcing { exchange: Exchange, attempt: u8 },
    /// For an answer.
    Listening { exchange: Exchange, attempt: u8, deadline: Duration },
    /// For the report that knocking starts.
    KnockAnnouncing,
    /// For the quiet time before the first knock.
    KnockWaiting,
    /// For the report that the bootloader's identity was verified.
    IdentityAnnouncing,
    /// For the report of that identity.
    IdentityReporting,
    /// For the report that this segment was written.
    ProgressReporting { index: usize },
    /// Ended.
    Over,
}

/// What is to be written, and for which device.
pub struct JobView {
    /// The device ID that the bootloader has to give.
    pub device_id: u32,
    pub image: ImageView,
}

/// A session.
pub struct SessionView {
    pub node_id: u8,
    pub options: FlashOptions,
    /// The capability, until it is redeemed.
    pub ready: Option<PreparedView>,
    /// What is to be written, once that is authorized.
    pub job: Option<JobView>,
    pub phase: Phase,
    pub assembler: AssemblerView,
    /// When knocking ends.
    pub knock_deadline: Duration,
    /// What the bootloader said of itself, once verified.
    pub identity: Option<IapView>,
}

/// A state and the action that leads there.
pub type Turn = (SessionView, ActionView);

/// What a redeemed capability lets be written.
pub open spec fn job_of(prepared: PreparedView) -> Option<JobView> {
    match prepared.target.target.support {
        SupportView::Enabled(policy) => Some(
            JobView { device_id: policy.device_id, image: prepared.image },
        ),
        SupportView::Disabled { .. } => None,
    }
}

/// The first frame of `results` with this function from this node.
pub open spec fn first_match(
    results: Seq<Result<FrameView, FrameError>>,
    node_id: u8,
    function: FunctionCode,
) -> Option<FrameView>
    decreases results.len(),
{
    if results.len() == 0 {
        None
    } else {
        match results[0] {
            Ok(frame) => if frame.node_id == node_id && frame.function == function {
                Some(frame)
            } else {
                first_match(results.skip(1), node_id, function)
            },
            Err(_) => first_match(results.skip(1), node_id, function),
        }
    }
}

/// Why subscribing failed.
pub open spec fn subscribe_detail(id: u16, error: Seq<char>) -> Seq<char> {
    "subscribing to exact ACK ID 0x"@ + text::hex3(id as int) + ": "@ + error
}

/// Why sending message number `piece` failed.
pub open spec fn send_detail(piece: usize, error: Seq<char>) -> Seq<char> {
    "sending COBS chunk "@ + text::decimal((piece + 1) as nat)
        + " (the request outcome is ambiguous): "@ + error
}

/// Why a message could not be built.
pub open spec fn build_detail(error: Seq<char>) -> Seq<char> {
    "constructing Classic CAN frame: "@ + error
}

/// Why receiving failed.
pub open spec fn receive_detail(error: Seq<char>) -> Seq<char> {
    "receiving ACK: "@ + error
}

impl SessionView {
    /// The stage that errors before the first request belong to.
    pub open spec fn opening_stage(self) -> FlashStage {
        if self.ready is Some {
            FlashStage::Resetting
        } else {
            FlashStage::EnteringBootloader
        }
    }

    /// The payload of a request.
    pub open spec fn payload(self, exchange: Exchange) -> Seq<u8> {
        match exchange {
            Exchange::StartDownload => self.job->0.image.tag(),
            Exchange::Verify => self.job->0.image.tag(),
            Exchange::Segment(index) => segment(self.job->0.image.bin(), index as nat),
            _ => Seq::empty(),
        }
    }

    /// A request to the session's node.
    pub open spec fn request(self, exchange: Exchange) -> FrameView {
        FrameView {
            node_id: self.node_id,
            function: exchange.function_spec(),
            data: self.payload(exchange),
        }
    }

    /// The answer that a request waits for.
    pub open spec fn ack(self, exchange: Exchange) -> FunctionCode {
        wire::ack_of(exchange.function_spec())->0
    }

    /// The CAN identifier of requests to the session's node.
    pub open spec fn tx_id(self) -> u16 {
        (TX_BASE + self.node_id) as u16
    }

    /// The CAN identifier of the node's answers.
    pub open spec fn rx_id(self) -> u16 {
        (RX_BASE + self.node_id) as u16
    }

    /// End the session with an error.
    pub open spec fn fail(self, fault: FlashFault) -> Turn {
        (SessionView { phase: Phase::Over, ..self }, ActionView::Finish(Err(fault)))
    }

    /// Report something.
    pub open spec fn report(self, phase: Phase, event: EventView) -> Turn {
        (SessionView { phase, ..self }, ActionView::Report(event))
    }

    /// Send message number `piece` of a request.
    pub open spec fn transmit(self, exchange: Exchange, attempt: u8, piece: usize) -> Turn {
        (
            SessionView { phase: Phase::Sending { exchange, attempt, piece }, ..self },
            ActionView::Transmit {
                id: self.tx_id(),
                data: can::piece(self.request(exchange).encoded(), piece as nat),
            },
        )
    }

    /// Send a request, with no memory of earlier answers.
    pub open spec fn open_exchange(self, exchange: Exchange, attempt: u8) -> Turn {
        SessionView { assembler: AssemblerView::clean(), ..self }.transmit(exchange, attempt, 0)
    }

    /// Send a request for the first time, unless cancelled.
    pub open spec fn begin(self, exchange: Exchange, reading: Reading) -> Turn {
        if reading.cancelled {
            self.fail(
                FlashFault::Cancelled {
                    stage: exchange.stage_spec(),
                    recovery_required: exchange.committed(),
                },
            )
        } else {
            self.open_exchange(exchange, 0)
        }
    }

    /// Ask for the bootloader, with no memory of earlier answers.
    pub open spec fn start_knocking(self) -> Turn {
        SessionView { assembler: AssemblerView::clean(), ..self }.report(
            Phase::KnockAnnouncing,
            EventView::Stage(FlashStage::EnteringBootloader),
        )
    }

    /// Knock once, unless cancelled.
    pub open spec fn knock(self, reading: Reading) -> Turn {
        if reading.cancelled {
            self.fail(
                FlashFault::Cancelled {
                    stage: FlashStage::EnteringBootloader,
                    recovery_required: false,
                },
            )
        } else {
            self.transmit(Exchange::EnterIap, 0, 0)
        }
    }

    /// Go on after `piece` messages of a request.
    pub open spec fn proceed(
        self,
        exchange: Exchange,
        attempt: u8,
        piece: usize,
        reading: Reading,
    ) -> Turn {
        if piece < can::pieces(self.request(exchange).encoded().len()) {
            self.transmit(exchange, attempt, piece)
        } else if exchange is EnterIap {
            self.listen_after_knock(reading)
        } else {
            self.report(
                Phase::Announcing { exchange, attempt },
                EventView::Stage(exchange.stage_spec()),
            )
        }
    }

    /// Wait for an answer until `deadline`.
    pub open spec fn listen(
        self,
        exchange: Exchange,
        attempt: u8,
        deadline: Duration,
        reading: Reading,
    ) -> Turn {
        if reading.now.nanos >= deadline.nanos {
            self.unanswered(exchange, attempt, reading)
        } else {
            (
                SessionView { phase: Phase::Listening { exchange, attempt, deadline }, ..self },
                ActionView::Listen(clock::until(deadline, reading.now)),
            )
        }
    }

    /// Wait for the answer to a knock: one interval, or what is left of the
    /// knocking window.
    pub open spec fn listen_after_knock(self, reading: Reading) -> Turn {
        let span = clock::shorter(
            self.options.knock_interval,
            clock::until(self.knock_deadline, reading.now),
        );
        self.listen(Exchange::EnterIap, 0, clock::later(reading.now, span), reading)
    }

    /// No answer came: knock again within the window, reset again within the
    /// allowed attempts, and end the session otherwise.
    pub open spec fn unanswered(self, exchange: Exchange, attempt: u8, reading: Reading) -> Turn {
        if exchange is EnterIap && reading.now.nanos < self.knock_deadline.nanos {
            self.knock(reading)
        } else if !(exchange is EnterIap) && attempt + 1 < exchange.attempts_spec(self.options) {
            self.open_exchange(exchange, (attempt + 1) as u8)
        } else {
            self.fail(
                FlashFault::AckTimeout {
                    stage: exchange.stage_spec(),
                    recovery_required: exchange.destructive(),
                },
            )
        }
    }

    /// Write segment `index`, or finish the download after the last.
    pub open spec fn write_from(self, index: usize, reading: Reading) -> Turn {
        if index < segments(self.job->0.image.bin().len()) {
            self.begin(Exchange::Segment(index), reading)
        } else {
            self.begin(Exchange::FinalDownload, reading)
        }
    }

    /// The bootloader answered a knock: nothing is written unless it is the
    /// device, and runs the firmware, that the job is for.
    pub open spec fn identified(self, payload: Seq<u8>) -> Turn {
        let job = self.job->0;
        match identity::iap_identity(payload) {
            Err(error) => self.fail(
                FlashFault::InvalidIapIdentity { detail: identity::described(error) },
            ),
            Ok(found) => if found.device_id != job.device_id {
                self.fail(
                    FlashFault::IapDeviceMismatch {
                        expected: job.device_id,
                        actual: found.device_id,
                    },
                )
            } else if found.firmware_id != job.image.firmware_id() {
                self.fail(
                    FlashFault::IapFirmwareMismatch {
                        expected: job.image.firmware_id(),
                        actual: found.firmware_id,
                    },
                )
            } else {
                SessionView { identity: Some(found), ..self }.report(
                    Phase::IdentityAnnouncing,
                    EventView::Stage(FlashStage::IdentityVerified),
                )
            },
        }
    }

    /// The device answered a request.
    pub open spec fn answered(self, exchange: Exchange, ack: FrameView, reading: Reading) -> Turn {
        if exchange is EnterIap {
            self.identified(ack.data)
        } else if ack.data != engine::success() {
            self.fail(
                FlashFault::Rejected {
                    stage: exchange.stage_spec(),
                    payload: ack.data,
                    recovery_required: exchange.committed(),
                },
            )
        } else {
            match exchange {
                Exchange::Reset => if reading.cancelled {
                    self.fail(
                        FlashFault::Cancelled {
                            stage: FlashStage::EnteringBootloader,
                            recovery_required: false,
                        },
                    )
                } else {
                    self.start_knocking()
                },
                Exchange::StartDownload => self.write_from(0, reading),
                Exchange::Segment(index) => {
                    let total = self.job->0.image.bin().len();
                    self.report(
                        Phase::ProgressReporting { index },
                        EventView::Progress { written: segment_end(total, index as nat), total },
                    )
                },
                Exchange::FinalDownload => self.begin(Exchange::Verify, reading),
                _ => (
                    SessionView { phase: Phase::Over, ..self },
                    ActionView::Finish(Ok(self.identity->0)),
                ),
            }
        }
    }

    /// A message came. It counts where it is a Classic data message from the
    /// session's node; the first matching frame that it completes answers.
    pub open spec fn received(
        self,
        exchange: Exchange,
        attempt: u8,
        deadline: Duration,
        message: MessageView,
        reading: Reading,
    ) -> Turn {
        if message.classic_id() != Some(self.rx_id()) {
            self.listen(exchange, attempt, deadline, reading)
        } else {
            let fed = SessionView {
                assembler: self.assembler.after_all(message.data),
                ..self
            };
            let results = self.assembler.results(message.data);
            match first_match(results, self.node_id, self.ack(exchange)) {
                Some(ack) => fed.answered(exchange, ack, reading),
                None => fed.listen(exchange, attempt, deadline, reading),
            }
        }
    }

    /// The subscription stands: the capability is redeemed immediately before
    /// the first request.
    pub open spec fn subscribed(self, reading: Reading) -> Turn {
        match self.ready {
            None => self.start_knocking(),
            Some(prepared) => if reading.cancelled {
                self.fail(
                    FlashFault::Cancelled {
                        stage: FlashStage::Resetting,
                        recovery_required: false,
                    },
                )
            } else if reading.age.nanos > READY_TTL_NANOS {
                SessionView { ready: None, ..self }.fail(
                    FlashFault::Policy(PolicyFault::ReadyExpired),
                )
            } else {
                match job_of(prepared) {
                    None => SessionView { ready: None, ..self }.fail(
                        FlashFault::Policy(PolicyFault::ProfileChanged),
                    ),
                    Some(job) => SessionView { ready: None, job: Some(job), ..self }.open_exchange(
                        Exchange::Reset,
                        0,
                    ),
                }
            },
        }
    }

    /// Whether the session waits for such a reply.
    pub open spec fn expects(self, reply: ReplyView) -> bool {
        match self.phase {
            Phase::Subscribing => reply is Done || reply is Failed,
            Phase::Sending { .. } => reply is Done || reply is Failed || reply is Refused,
            Phase::Listening { .. } => reply is Received || reply is TimedOut || reply is Failed,
            Phase::Over => false,
            _ => reply is Done,
        }
    }

    /// What a reply leads to.
    pub open spec fn step(self, reply: ReplyView, reading: Reading) -> Turn {
        match self.phase {
            Phase::Idle => if reading.cancelled {
                self.fail(
                    FlashFault::Cancelled {
                        stage: self.opening_stage(),
                        recovery_required: false,
                    },
                )
            } else {
                (
                    SessionView { phase: Phase::Subscribing, ..self },
                    ActionView::Subscribe { id: self.rx_id() },
                )
            },
            Phase::Subscribing => match reply {
                ReplyView::Failed(error) => self.fail(
                    FlashFault::Transport {
                        stage: self.opening_stage(),
                        detail: subscribe_detail(self.rx_id(), error),
                        recovery_required: false,
                    },
                ),
                _ => self.subscribed(reading),
            },
            Phase::Sending { exchange, attempt, piece } => match reply {
                ReplyView::Done => if (piece + 1) % (self.options.tx_burst_frames as int) == 0 {
                    (
                        SessionView {
                            phase: Phase::Pacing {
                                exchange,
                                attempt,
                                piece: (piece + 1) as usize,
                            },
                            ..self
                        },
                        ActionView::Pause(self.options.tx_burst_pause),
                    )
                } else {
                    self.proceed(exchange, attempt, (piece + 1) as usize, reading)
                },
                _ => if exchange is EnterIap {
                    self.listen_after_knock(reading)
                } else {
                    self.fail(
                        FlashFault::Transport {
                            stage: exchange.stage_spec(),
                            detail: match reply {
                                ReplyView::Refused(error) => build_detail(error),
                                ReplyView::Failed(error) => send_detail(piece, error),
                                _ => Seq::empty(),
                            },
                            recovery_required: exchange.destructive(),
                        },
                    )
                },
            },
            Phase::Pacing { exchange, attempt, piece } => self.proceed(
                exchange,
                attempt,
                piece,
                reading,
            ),
            Phase::Announcing { exchange, attempt } => self.listen(
                exchange,
                attempt,
                clock::later(reading.now, exchange.timeout_spec(self.options)),
                reading,
            ),
            Phase::Listening { exchange, attempt, deadline } => match reply {
                ReplyView::Received(message) => self.received(
                    exchange,
                    attempt,
                    deadline,
                    message,
                    reading,
                ),
                ReplyView::Failed(error) => self.fail(
                    FlashFault::Transport {
                        stage: exchange.stage_spec(),
                        detail: receive_detail(error),
                        recovery_required: exchange.destructive(),
                    },
                ),
                _ => self.unanswered(exchange, attempt, reading),
            },
            Phase::KnockAnnouncing => (
                SessionView { phase: Phase::KnockWaiting, ..self },
                ActionView::Pause(self.options.knock_start_delay),
            ),
            Phase::KnockWaiting => SessionView {
                knock_deadline: clock::later(reading.now, self.options.knock_window),
                ..self
            }.knock(reading),
            Phase::IdentityAnnouncing => self.report(
                Phase::IdentityReporting,
                EventView::IapIdentity(self.identity->0),
            ),
            Phase::IdentityReporting => self.begin(Exchange::StartDownload, reading),
            Phase::ProgressReporting { index } => self.write_from((index + 1) as usize, reading),
            Phase::Over => (self, ActionView::Pause(Duration { nanos: 0 })),
        }
    }

    /// The exchange that a phase is part of.
    pub open spec fn exchange(self) -> Option<Exchange> {
        match self.phase {
            Phase::Sending { exchange, .. } => Some(exchange),
            Phase::Pacing { exchange, .. } => Some(exchange),
            Phase::Announcing { exchange, .. } => Some(exchange),
            Phase::Listening { exchange, .. } => Some(exchange),
            Phase::ProgressReporting { index } => Some(Exchange::Segment(index)),
            _ => None,
        }
    }

    /// The attempt that a phase is part of.
    pub open spec fn attempt(self) -> u8 {
        match self.phase {
            Phase::Sending { attempt, .. } => attempt,
            Phase::Pacing { attempt, .. } => attempt,
            Phase::Announcing { attempt, .. } => attempt,
            Phase::Listening { attempt, .. } => attempt,
            _ => 0,
        }
    }

    /// The bootloader gave the identity that the job is for.
    pub open spec fn verified(self) -> bool {
        &&& self.job is Some
        &&& self.identity matches Some(found) && found.device_id == self.job->0.device_id
            && found.firmware_id == self.job->0.image.firmware_id()
    }

    /// What holds of every state of a session.
    pub open spec fn sound(self) -> bool {
        &&& wire::addressable(self.node_id)
        &&& engine::options_fault(self.options) is None
        &&& self.ready matches Some(prepared) ==> prepared.sound()
        &&& self.job matches Some(job) ==> job.image.sound()
        // What is to be written is known, or still behind the capability.
        &&& (self.phase is Idle || self.phase is Subscribing) ==> (self.ready is Some) != (
        self.job is Some)
        &&& !(self.phase is Idle || self.phase is Subscribing || self.phase is Over)
            ==> self.job is Some && self.ready is None
        &&& self.exchange() matches Some(exchange) ==> {
            // Nothing is asked of a bootloader that was not verified.
            &&& exchange.destructive() ==> self.verified()
            &&& exchange matches Exchange::Segment(index) ==> index < segments(
                self.job->0.image.bin().len(),
            )
            &&& self.attempt() < exchange.attempts_spec(self.options)
            &&& self.phase matches Phase::Sending { piece, .. } ==> piece < can::pieces(
                self.request(exchange).encoded().len(),
            )
            &&& self.phase matches Phase::Pacing { piece, .. } ==> 1 <= piece <= can::pieces(
                self.request(exchange).encoded().len(),
            )
        }
        &&& (self.phase is IdentityAnnouncing || self.phase is IdentityReporting)
            ==> self.verified()
    }
}

// ---------------------------------------------------------------------------
// The running session
// ---------------------------------------------------------------------------

/// What is to be written, and for which device.
#[derive(Debug)]
struct Job {
    device_id: u32,
    artifact: ImgArtifact,
}

impl View for Job {
    type V = JobView;

    closed spec fn view(&self) -> JobView {
        JobView { device_id: self.device_id, image: self.artifact@ }
    }
}

/// A running update.
#[derive(Debug)]
pub struct FlashSession {
    node_id: u8,
    options: FlashOptions,
    ready: Option<ReadyToFlash>,
    job: Option<Job>,
    phase: Phase,
    assembler: FrameAssembler,
    knock_deadline: Duration,
    identity: Option<IapIdentity>,
    /// The wire bytes of the request that is being sent.
    encoded: Vec<u8>,
}

impl View for FlashSession {
    type V = SessionView;

    closed spec fn view(&self) -> SessionView {
        SessionView {
            node_id: self.node_id,
            options: self.options,
            ready: match self.ready {
                Some(ready) => Some(ready@),
                None => None,
            },
            job: match self.job {
                Some(job) => Some(job@),
                None => None,
            },
            phase: self.phase,
            assembler: self.assembler@,
            knock_deadline: self.knock_deadline,
            identity: match self.identity {
                Some(identity) => Some(identity@),
                None => None,
            },
        }
    }
}

/// A session that has not started.
pub open spec fn idle(node_id: u8, options: FlashOptions) -> SessionView {
    SessionView {
        node_id,
        options,
        ready: None,
        job: None,
        phase: Phase::Idle,
        assembler: AssemblerView::clean(),
        knock_deadline: Duration { nanos: 0 },
        identity: None,
    }
}

/// A session that will update the device of a capability.
pub open spec fn flashing(ready: PreparedView, options: FlashOptions) -> SessionView {
    SessionView { ready: Some(ready), ..idle(ready.target.identity.node_id, options) }
}

/// A session that will write what an assertion allows.
pub open spec fn recovering(
    node_id: u8,
    target: AssertedView,
    options: FlashOptions,
) -> SessionView {
    SessionView {
        job: Some(JobView { device_id: target.policy.device_id, image: target.image }),
        ..idle(node_id, options)
    }
}

/// The first frame with this function from this node.
pub(crate) fn take_first_match(
    results: Vec<Result<Frame, FrameError>>,
    node_id: u8,
    function: FunctionCode,
) -> (found: Option<Frame>)
    ensures
        match found {
            Some(frame) => first_match(
                crate::assembler::outcomes(results@),
                node_id,
                function,
            ) == Some(frame@),
            None => first_match(crate::assembler::outcomes(results@), node_id, function) is None,
        },
{
    let mut left = results;
    while left.len() > 0
        invariant
            first_match(crate::assembler::outcomes(results@), node_id, function) == first_match(
                crate::assembler::outcomes(left@),
                node_id,
                function,
            ),
        decreases left@.len(),
    {
        let ghost before = crate::assembler::outcomes(left@);
        let next = left.remove(0);
        assert(crate::assembler::outcomes(left@) =~= before.skip(1));
        if let Ok(frame) = next {
            if frame.node_id() == node_id && frame.function() == function {
                return Some(frame);
            }
        }
    }
    None
}

impl SessionView {
    /// Whether everything that a request needs is at hand.
    pub open spec fn can_request(self, exchange: Exchange) -> bool {
        &&& wire::addressable(self.node_id)
        &&& exchange.destructive() ==> self.job is Some && self.job->0.image.sound()
        &&& exchange matches Exchange::Segment(index) ==> index < segments(
            self.job->0.image.bin().len(),
        )
    }
}

/// Requests are frames that fit, of at least one message.
pub proof fn lemma_request(session: SessionView, exchange: Exchange)
    requires
        session.can_request(exchange),
    ensures
        session.request(exchange).sound(),
        1 <= can::pieces(session.request(exchange).encoded().len()) <= 34,
{
    let request = session.request(exchange);
    if let Exchange::Segment(index) = exchange {
        let bin = session.job->0.image.bin();
        assert(segment(bin, index as nat).len() <= 256);
    }
    wire::encoded_frames_are_delimited(request);
}

impl FlashSession {
    /// What holds of every session between replies.
    pub open spec fn well_formed(&self) -> bool {
        self@.sound() && self.buffered()
    }

    /// The bytes at hand are those of the request that is being sent.
    pub closed spec fn buffered(&self) -> bool {
        match self.phase {
            Phase::Sending { exchange, .. } => self.encoded@ == self@.request(exchange).encoded(),
            Phase::Pacing { exchange, .. } => self.encoded@ == self@.request(exchange).encoded(),
            _ => true,
        }
    }

    /// The reading holds what `cancellation` was read as, and the age that the
    /// clock gave for the capability while the session holds one.
    pub closed spec fn observed(&self, reading: Reading, cancellation: &CancellationToken) -> bool {
        &&& cancellation.reads(reading.cancelled)
        &&& match self.ready {
            Some(ready) => ready.aged(reading.age),
            None => true,
        }
    }

    /// Update the device that `ready` was issued for.
    pub fn flash(ready: ReadyToFlash, options: FlashOptions) -> (result: Result<
        FlashSession,
        FlashError,
    >)
        ensures
            match result {
                Ok(session) => engine::options_fault(options) is None && session.well_formed()
                    && session@ == flashing(ready@, options),
                Err(error) => engine::options_fault(options) == Some(error@),
            },
    {
        match validate_options(&options) {
            Ok(_) => {},
            Err(error) => {
                return Err(error);
            },
        }
        let node_id = ready.node_id();
        Ok(
            FlashSession {
                node_id,
                options,
                ready: Some(ready),
                job: None,
                phase: Phase::Idle,
                assembler: FrameAssembler::new(),
                knock_deadline: Duration::from_nanos(0),
                identity: None,
                encoded: Vec::new(),
            },
        )
    }

    /// Write a device that answers only the IAP protocol.
    ///
    /// Unlike [`FlashSession::flash`] this does not begin with a reset, because
    /// a device in this state is not reliably reachable at all. Measured on
    /// hardware whose application had been erased: it answers only inside the
    /// window that follows its start, keeps acknowledging at the CAN level for a
    /// while after that window closes, and eventually stops acknowledging
    /// altogether, by which point even a reset cannot be transmitted to it.
    /// Callers are expected to have knocked the device into IAP first, which a
    /// scan does and which is sticky once it takes.
    ///
    /// The knock is repeated here anyway. It costs one frame against a device
    /// that is already in IAP, and it is what produces the identity this refuses
    /// to write without.
    pub fn recover(node_id: u8, target: &AssertedTarget, options: FlashOptions) -> (result: Result<
        FlashSession,
        FlashError,
    >)
        ensures
            match result {
                Ok(session) => engine::options_fault(options) is None && wire::addressable(node_id)
                    && session.well_formed() && session@ == recovering(node_id, target@, options),
                Err(error) => match engine::options_fault(options) {
                    Some(fault) => error@ == fault,
                    None => !wire::addressable(node_id) && error@ == FlashFault::InvalidNode(
                        node_id,
                    ),
                },
            },
    {
        match validate_options(&options) {
            Ok(_) => {},
            Err(error) => {
                return Err(error);
            },
        }
        if !(1 <= node_id && node_id <= 127) {
            return Err(FlashError::InvalidNode(node_id));
        }
        Ok(
            FlashSession {
                node_id,
                options,
                ready: None,
                job: Some(
                    Job {
                        device_id: target.policy().device_id(),
                        artifact: target.artifact().clone(),
                    },
                ),
                phase: Phase::Idle,
                assembler: FrameAssembler::new(),
                knock_deadline: Duration::from_nanos(0),
                identity: None,
                encoded: Vec::new(),
            },
        )
    }

    /// Whether the session has ended.
    pub fn is_over(&self) -> (over: bool)
        ensures
            over == (self@.phase is Over),
    {
        match self.phase {
            Phase::Over => true,
            _ => false,
        }
    }

    /// Whether the session waits for such a reply.
    pub fn awaits(&self, reply: &Reply) -> (expected: bool)
        ensures
            expected == self@.expects(reply@),
    {
        match (&self.phase, reply) {
            (Phase::Over, _) => false,
            (Phase::Listening { .. }, Reply::Done) => false,
            (Phase::Listening { .. }, Reply::Refused(_)) => false,
            (Phase::Listening { .. }, _) => true,
            (Phase::Sending { .. }, Reply::Refused(_)) => true,
            (Phase::Sending { .. }, Reply::Failed(_)) => true,
            (Phase::Subscribing, Reply::Failed(_)) => true,
            (_, Reply::Done) => true,
            _ => false,
        }
    }

    fn build(&self, exchange: Exchange) -> (frame: Frame)
        requires
            self@.can_request(exchange),
        ensures
            frame@ == self@.request(exchange),
    {
        proof {
            lemma_request(self@, exchange);
        }
        let data: Vec<u8> = match (exchange, &self.job) {
            (Exchange::StartDownload, Some(job)) => vstd::slice::slice_to_vec(job.artifact.tag()),
            (Exchange::Verify, Some(job)) => vstd::slice::slice_to_vec(job.artifact.tag()),
            (Exchange::Segment(index), Some(job)) => {
                let bin = job.artifact.bin();
                let size: usize = bin.len();
                let start: usize = MAX_DATA_LEN * index;
                let end: usize = if size - start >= MAX_DATA_LEN {
                    start + MAX_DATA_LEN
                } else {
                    size
                };
                vstd::slice::slice_to_vec(vstd::slice::slice_subrange(bin, start, end))
            },
            _ => Vec::new(),
        };
        assert(data@ =~= self@.payload(exchange));
        Frame::request(self.node_id, exchange.function(), data).unwrap()
    }

    fn fail(&mut self, error: FlashError) -> (action: Action)
        ensures
            (final(self)@, action@) == old(self)@.fail(error@),
            final(self).buffered(),
    {
        self.phase = Phase::Over;
        Action::Finish(Err(error))
    }

    fn transmit(&mut self, exchange: Exchange, attempt: u8, piece: usize) -> (action: Action)
        requires
            wire::addressable(old(self)@.node_id),
            old(self).encoded@ == old(self)@.request(exchange).encoded(),
            piece < can::pieces(old(self).encoded@.len()),
        ensures
            (final(self)@, action@) == old(self)@.transmit(exchange, attempt, piece),
            final(self).buffered(),
    {
        self.phase = Phase::Sending { exchange, attempt, piece };
        Action::Transmit {
            id: TX_BASE + self.node_id as u16,
            data: can::cut_piece(self.encoded.as_slice(), piece),
        }
    }

    fn open_exchange(&mut self, exchange: Exchange, attempt: u8) -> (action: Action)
        requires
            old(self)@.can_request(exchange),
        ensures
            (final(self)@, action@) == old(self)@.open_exchange(exchange, attempt),
            final(self).buffered(),
    {
        proof {
            lemma_request(self@, exchange);
        }
        self.assembler.reset();
        let request = self.build(exchange);
        self.encoded = request.encode();
        self.transmit(exchange, attempt, 0)
    }

    fn begin(&mut self, exchange: Exchange, reading: Reading) -> (action: Action)
        requires
            old(self)@.can_request(exchange),
        ensures
            (final(self)@, action@) == old(self)@.begin(exchange, reading),
            final(self).buffered(),
    {
        match check_cancel(reading.cancelled, exchange.stage(), exchange.is_committed()) {
            Ok(_) => self.open_exchange(exchange, 0),
            Err(error) => self.fail(error),
        }
    }

    fn start_knocking(&mut self) -> (action: Action)
        ensures
            (final(self)@, action@) == old(self)@.start_knocking(),
            final(self).buffered(),
    {
        self.assembler.reset();
        self.phase = Phase::KnockAnnouncing;
        Action::Report(FlashEvent::Stage(FlashStage::EnteringBootloader))
    }

    fn knock(&mut self, reading: Reading) -> (action: Action)
        requires
            wire::addressable(old(self)@.node_id),
        ensures
            (final(self)@, action@) == old(self)@.knock(reading),
            final(self).buffered(),
    {
        proof {
            lemma_request(self@, Exchange::EnterIap);
        }
        match check_cancel(reading.cancelled, FlashStage::EnteringBootloader, false) {
            Ok(_) => {
                let request = self.build(Exchange::EnterIap);
                self.encoded = request.encode();
                self.transmit(Exchange::EnterIap, 0, 0)
            },
            Err(error) => self.fail(error),
        }
    }

    fn unanswered(&mut self, exchange: Exchange, attempt: u8, reading: Reading) -> (action: Action)
        requires
            old(self)@.can_request(exchange),
            attempt < exchange.attempts_spec(old(self)@.options),
        ensures
            (final(self)@, action@) == old(self)@.unanswered(exchange, attempt, reading),
            final(self).buffered(),
    {
        let retry = match exchange {
            Exchange::EnterIap => {
                if reading.now.nanos < self.knock_deadline.nanos {
                    return self.knock(reading);
                }
                false
            },
            _ => attempt + 1 < exchange.attempts(&self.options),
        };
        if retry {
            return self.open_exchange(exchange, attempt + 1);
        }
        let error = FlashError::AckTimeout { stage: exchange.stage(), recovery_required: false };
        self.fail(with_recovery(error, exchange.is_destructive()))
    }

    fn listen(
        &mut self,
        exchange: Exchange,
        attempt: u8,
        deadline: Duration,
        reading: Reading,
    ) -> (action: Action)
        requires
            old(self)@.can_request(exchange),
            attempt < exchange.attempts_spec(old(self)@.options),
        ensures
            (final(self)@, action@) == old(self)@.listen(exchange, attempt, deadline, reading),
            final(self).buffered(),
    {
        if reading.now.nanos >= deadline.nanos {
            return self.unanswered(exchange, attempt, reading);
        }
        self.phase = Phase::Listening { exchange, attempt, deadline };
        Action::Listen(deadline.remaining(reading.now))
    }

    fn listen_after_knock(&mut self, reading: Reading) -> (action: Action)
        requires
            wire::addressable(old(self)@.node_id),
        ensures
            (final(self)@, action@) == old(self)@.listen_after_knock(reading),
            final(self).buffered(),
    {
        let left = self.knock_deadline.remaining(reading.now);
        let span = self.options.knock_interval.at_most(left);
        self.listen(Exchange::EnterIap, 0, reading.now.plus(span), reading)
    }

    fn proceed(
        &mut self,
        exchange: Exchange,
        attempt: u8,
        piece: usize,
        reading: Reading,
    ) -> (action: Action)
        requires
            wire::addressable(old(self)@.node_id),
            old(self).encoded@ == old(self)@.request(exchange).encoded(),
            piece <= can::pieces(old(self).encoded@.len()),
        ensures
            (final(self)@, action@) == old(self)@.proceed(exchange, attempt, piece, reading),
            final(self).buffered(),
    {
        let length: usize = self.encoded.len();
        if piece < length / 8 || (piece == length / 8 && length % 8 != 0) {
            return self.transmit(exchange, attempt, piece);
        }
        if let Exchange::EnterIap = exchange {
            return self.listen_after_knock(reading);
        }
        self.phase = Phase::Announcing { exchange, attempt };
        Action::Report(FlashEvent::Stage(exchange.stage()))
    }

    fn write_from(&mut self, index: usize, reading: Reading) -> (action: Action)
        requires
            old(self)@.can_request(Exchange::FinalDownload),
        ensures
            (final(self)@, action@) == old(self)@.write_from(index, reading),
            final(self).buffered(),
    {
        let size: usize = match &self.job {
            Some(job) => job.artifact.bin().len(),
            None => 0,
        };
        if index < size / MAX_DATA_LEN || (index == size / MAX_DATA_LEN && size % MAX_DATA_LEN
            != 0) {
            self.begin(Exchange::Segment(index), reading)
        } else {
            self.begin(Exchange::FinalDownload, reading)
        }
    }

    fn identified(&mut self, payload: &[u8]) -> (action: Action)
        requires
            old(self)@.job is Some,
        ensures
            (final(self)@, action@) == old(self)@.identified(payload@),
            final(self).buffered(),
    {
        let (device_id, firmware_id) = match &self.job {
            Some(job) => (job.device_id, job.artifact.firmware_id()),
            None => (0, 0),
        };
        match IapIdentity::parse(payload) {
            Err(error) => self.fail(FlashError::InvalidIapIdentity { detail: error.message() }),
            Ok(found) => if found.device_id() != device_id {
                self.fail(
                    FlashError::IapDeviceMismatch {
                        expected: device_id,
                        actual: found.device_id(),
                    },
                )
            } else if found.firmware_id() != firmware_id {
                self.fail(
                    FlashError::IapFirmwareMismatch {
                        expected: firmware_id,
                        actual: found.firmware_id(),
                    },
                )
            } else {
                self.identity = Some(found);
                self.phase = Phase::IdentityAnnouncing;
                Action::Report(FlashEvent::Stage(FlashStage::IdentityVerified))
            },
        }
    }

    fn answered(&mut self, exchange: Exchange, ack: &Frame, reading: Reading) -> (action: Action)
        requires
            old(self)@.can_request(exchange),
            old(self)@.job is Some,
            exchange.destructive() ==> old(self)@.verified(),
        ensures
            (final(self)@, action@) == old(self)@.answered(exchange, ack@, reading),
            final(self).buffered(),
    {
        if let Exchange::EnterIap = exchange {
            return self.identified(ack.data());
        }
        match require_success(ack, exchange.stage(), exchange.is_committed()) {
            Ok(_) => {},
            Err(error) => {
                return self.fail(error);
            },
        }
        match exchange {
            Exchange::Reset => match check_cancel(
                reading.cancelled,
                FlashStage::EnteringBootloader,
                false,
            ) {
                Ok(_) => self.start_knocking(),
                Err(error) => self.fail(error),
            },
            Exchange::StartDownload => self.write_from(0, reading),
            Exchange::Segment(index) => {
                let total: usize = match &self.job {
                    Some(job) => job.artifact.bin().len(),
                    None => 0,
                };
                let start: usize = MAX_DATA_LEN * index;
                let written: usize = if total - start >= MAX_DATA_LEN {
                    start + MAX_DATA_LEN
                } else {
                    total
                };
                self.phase = Phase::ProgressReporting { index };
                Action::Report(FlashEvent::Progress { written, total })
            },
            Exchange::FinalDownload => self.begin(Exchange::Verify, reading),
            _ => {
                let identity = self.identity.unwrap();
                self.phase = Phase::Over;
                Action::Finish(Ok(FlashOutcome::of(identity)))
            },
        }
    }

    fn received(
        &mut self,
        exchange: Exchange,
        attempt: u8,
        deadline: Duration,
        message: &CanMessage,
        reading: Reading,
    ) -> (action: Action)
        requires
            old(self)@.can_request(exchange),
            old(self)@.job is Some,
            exchange.destructive() ==> old(self)@.verified(),
            attempt < exchange.attempts_spec(old(self)@.options),
        ensures
            (final(self)@, action@) == old(self)@.received(
                exchange,
                attempt,
                deadline,
                message@,
                reading,
            ),
            final(self).buffered(),
    {
        let wanted: u16 = RX_BASE + self.node_id as u16;
        let from_node = match message.classic_id() {
            Some(id) => id == wanted,
            None => false,
        };
        if !from_node {
            return self.listen(exchange, attempt, deadline, reading);
        }
        let expected = exchange.function().expected_ack().unwrap();
        let results = self.assembler.feed(message.data.as_slice());
        match take_first_match(results, self.node_id, expected) {
            Some(ack) => self.answered(exchange, &ack, reading),
            None => self.listen(exchange, attempt, deadline, reading),
        }
    }

    fn subscribed(&mut self, reading: Reading) -> (action: Action)
        requires
            wire::addressable(old(self)@.node_id),
            old(self)@.ready matches Some(prepared) ==> prepared.sound(),
        ensures
            (final(self)@, action@) == old(self)@.subscribed(reading),
            final(self).buffered(),
    {
        if self.ready.is_none() {
            return self.start_knocking();
        }
        match check_cancel(reading.cancelled, FlashStage::Resetting, false) {
            Ok(_) => {},
            Err(error) => {
                return self.fail(error);
            },
        }
        let ready = self.ready.take().unwrap();
        let prepared = match ready.redeemed_at(reading.age) {
            Ok(prepared) => prepared,
            Err(error) => {
                return self.fail(FlashError::Policy(error));
            },
        };
        let device_id: u32 = match prepared.target().target().support() {
            SupportPolicy::Enabled(policy) => policy.device_id(),
            SupportPolicy::Disabled { .. } => {
                return self.fail(FlashError::Policy(PolicyError::ProfileChanged));
            },
        };
        self.job = Some(Job { device_id, artifact: prepared.artifact().clone() });
        self.open_exchange(Exchange::Reset, 0)
    }

    /// Handle the reply to the last action, and say what to do next. The first
    /// call, with `Reply::Done`, starts the session.
    pub fn step(&mut self, reply: Reply, reading: Reading) -> (action: Action)
        requires
            old(self).well_formed(),
            old(self)@.expects(reply@),
        ensures
            final(self).well_formed(),
            (final(self)@, action@) == old(self)@.step(reply@, reading),
    {
        proof {
            steps_keep_sound(self@, reply@, reading);
            if let Some(exchange) = self@.exchange() {
                lemma_request(self@, exchange);
            }
        }
        match self.phase {
            Phase::Idle => {
                let stage = if self.ready.is_some() {
                    FlashStage::Resetting
                } else {
                    FlashStage::EnteringBootloader
                };
                match check_cancel(reading.cancelled, stage, false) {
                    Ok(_) => {
                        self.phase = Phase::Subscribing;
                        Action::Subscribe { id: RX_BASE + self.node_id as u16 }
                    },
                    Err(error) => self.fail(error),
                }
            },
            Phase::Subscribing => match reply {
                Reply::Failed(error) => {
                    let stage = if self.ready.is_some() {
                        FlashStage::Resetting
                    } else {
                        FlashStage::EnteringBootloader
                    };
                    let id: u16 = RX_BASE + self.node_id as u16;
                    let mut detail = String::new();
                    detail.append("subscribing to exact ACK ID 0x");
                    text::push_hex3(&mut detail, id);
                    detail.append(": ");
                    detail.append(error.as_str());
                    assert(detail@ =~= subscribe_detail(id, error@));
                    self.fail(FlashError::Transport { stage, detail, recovery_required: false })
                },
                _ => self.subscribed(reading),
            },
            Phase::Sending { exchange, attempt, piece } => {
                let mut detail = String::new();
                match reply {
                    Reply::Done => {
                        if (piece + 1) % self.options.tx_burst_frames == 0 {
                            self.phase = Phase::Pacing { exchange, attempt, piece: piece + 1 };
                            return Action::Pause(self.options.tx_burst_pause);
                        }
                        return self.proceed(exchange, attempt, piece + 1, reading);
                    },
                    Reply::Refused(error) => {
                        detail.append("constructing Classic CAN frame: ");
                        detail.append(error.as_str());
                        assert(detail@ =~= build_detail(error@));
                    },
                    Reply::Failed(error) => {
                        detail.append("sending COBS chunk ");
                        text::push_decimal(&mut detail, piece + 1);
                        detail.append(" (the request outcome is ambiguous): ");
                        detail.append(error.as_str());
                        assert(detail@ =~= send_detail(piece, error@));
                    },
                    _ => {},
                }
                if let Exchange::EnterIap = exchange {
                    return self.listen_after_knock(reading);
                }
                self.fail(
                    FlashError::Transport {
                        stage: exchange.stage(),
                        detail,
                        recovery_required: exchange.is_destructive(),
                    },
                )
            },
            Phase::Pacing { exchange, attempt, piece } => self.proceed(
                exchange,
                attempt,
                piece,
                reading,
            ),
            Phase::Announcing { exchange, attempt } => {
                let deadline = reading.now.plus(exchange.timeout(&self.options));
                self.listen(exchange, attempt, deadline, reading)
            },
            Phase::Listening { exchange, attempt, deadline } => match reply {
                Reply::Received(message) => self.received(
                    exchange,
                    attempt,
                    deadline,
                    &message,
                    reading,
                ),
                Reply::Failed(error) => {
                    let mut detail = String::new();
                    detail.append("receiving ACK: ");
                    detail.append(error.as_str());
                    assert(detail@ =~= receive_detail(error@));
                    let failure = FlashError::Transport {
                        stage: exchange.stage(),
                        detail,
                        recovery_required: false,
                    };
                    self.fail(with_recovery(failure, exchange.is_destructive()))
                },
                _ => self.unanswered(exchange, attempt, reading),
            },
            Phase::KnockAnnouncing => {
                self.phase = Phase::KnockWaiting;
                Action::Pause(self.options.knock_start_delay)
            },
            Phase::KnockWaiting => {
                self.knock_deadline = reading.now.plus(self.options.knock_window);
                self.knock(reading)
            },
            Phase::IdentityAnnouncing => {
                let identity = self.identity.unwrap();
                self.phase = Phase::IdentityReporting;
                Action::Report(FlashEvent::IapIdentity(identity))
            },
            Phase::IdentityReporting => self.begin(Exchange::StartDownload, reading),
            Phase::ProgressReporting { index } => self.write_from(index + 1, reading),
            Phase::Over => Action::Pause(Duration::from_nanos(0)),
        }
    }

    /// Handle the reply to the last action at the clock reading `now`, with the
    /// cancellation flag and the capability's age as they are at this moment.
    pub fn advance(
        &mut self,
        reply: Reply,
        now: Duration,
        cancellation: &CancellationToken,
    ) -> (action: Action)
        requires
            old(self).well_formed(),
            old(self)@.expects(reply@),
        ensures
            final(self).well_formed(),
            exists|reading: Reading|
                reading.now == now && old(self).observed(reading, cancellation) && (
                final(self)@,
                action@,
                ) == #[trigger] old(self)@.step(reply@, reading),
    {
        let age = match &self.ready {
            Some(ready) => ready.age(),
            None => Duration::from_nanos(0),
        };
        let reading = Reading { now, cancelled: cancellation.is_cancelled(), age };
        self.step(reply, reading)
    }
}

// ---------------------------------------------------------------------------
// What every state keeps
// ---------------------------------------------------------------------------

impl SessionView {
    /// What holds once the job is known.
    pub open spec fn armed(self) -> bool {
        &&& wire::addressable(self.node_id)
        &&& engine::options_fault(self.options) is None
        &&& self.ready is None
        &&& self.job matches Some(job) && job.image.sound()
    }

    /// Whether a request may be sent.
    pub open spec fn may_send(self, exchange: Exchange, attempt: u8) -> bool {
        &&& self.armed()
        &&& self.can_request(exchange)
        &&& exchange.destructive() ==> self.verified()
        &&& attempt < exchange.attempts_spec(self.options)
    }
}

proof fn lemma_open_sound(session: SessionView, exchange: Exchange, attempt: u8)
    requires
        session.may_send(exchange, attempt),
    ensures
        session.transmit(exchange, attempt, 0).0.sound(),
        session.open_exchange(exchange, attempt).0.sound(),
{
    lemma_request(session, exchange);
}

proof fn lemma_begin_sound(session: SessionView, exchange: Exchange, reading: Reading)
    requires
        session.may_send(exchange, 0),
    ensures
        session.begin(exchange, reading).0.sound(),
{
    lemma_open_sound(session, exchange, 0);
}

proof fn lemma_unanswered_sound(
    session: SessionView,
    exchange: Exchange,
    attempt: u8,
    reading: Reading,
)
    requires
        session.may_send(exchange, attempt),
    ensures
        session.unanswered(exchange, attempt, reading).0.sound(),
{
    lemma_open_sound(session, Exchange::EnterIap, 0);
    if attempt + 1 < exchange.attempts_spec(session.options) {
        lemma_open_sound(session, exchange, (attempt + 1) as u8);
    }
}

proof fn lemma_listen_sound(
    session: SessionView,
    exchange: Exchange,
    attempt: u8,
    deadline: Duration,
    reading: Reading,
)
    requires
        session.may_send(exchange, attempt),
    ensures
        session.listen(exchange, attempt, deadline, reading).0.sound(),
{
    lemma_unanswered_sound(session, exchange, attempt, reading);
}

proof fn lemma_after_knock_sound(session: SessionView, reading: Reading)
    requires
        session.armed(),
    ensures
        session.listen_after_knock(reading).0.sound(),
{
    let span = clock::shorter(
        session.options.knock_interval,
        clock::until(session.knock_deadline, reading.now),
    );
    lemma_listen_sound(
        session,
        Exchange::EnterIap,
        0,
        clock::later(reading.now, span),
        reading,
    );
}

proof fn lemma_proceed_sound(
    session: SessionView,
    exchange: Exchange,
    attempt: u8,
    piece: usize,
    reading: Reading,
)
    requires
        session.may_send(exchange, attempt),
    ensures
        session.proceed(exchange, attempt, piece, reading).0.sound(),
{
    lemma_after_knock_sound(session, reading);
}

proof fn lemma_write_from_sound(session: SessionView, index: usize, reading: Reading)
    requires
        session.armed(),
        session.verified(),
    ensures
        session.write_from(index, reading).0.sound(),
{
    if index < segments(session.job->0.image.bin().len()) {
        lemma_begin_sound(session, Exchange::Segment(index), reading);
    } else {
        lemma_begin_sound(session, Exchange::FinalDownload, reading);
    }
}

proof fn lemma_answered_sound(
    session: SessionView,
    exchange: Exchange,
    ack: FrameView,
    reading: Reading,
)
    requires
        session.may_send(exchange, 0),
    ensures
        session.answered(exchange, ack, reading).0.sound(),
{
    match exchange {
        Exchange::StartDownload => lemma_write_from_sound(session, 0, reading),
        Exchange::FinalDownload => lemma_begin_sound(session, Exchange::Verify, reading),
        _ => {},
    }
}

proof fn lemma_received_sound(
    session: SessionView,
    exchange: Exchange,
    attempt: u8,
    deadline: Duration,
    message: MessageView,
    reading: Reading,
)
    requires
        session.may_send(exchange, attempt),
    ensures
        session.received(exchange, attempt, deadline, message, reading).0.sound(),
{
    let fed = SessionView { assembler: session.assembler.after_all(message.data), ..session };
    let results = session.assembler.results(message.data);
    lemma_listen_sound(session, exchange, attempt, deadline, reading);
    lemma_listen_sound(fed, exchange, attempt, deadline, reading);
    if let Some(ack) = first_match(results, session.node_id, session.ack(exchange)) {
        lemma_answered_sound(fed, exchange, ack, reading);
    }
}

proof fn lemma_subscribed_sound(session: SessionView, reading: Reading)
    requires
        session.sound(),
        session.phase is Subscribing,
    ensures
        session.subscribed(reading).0.sound(),
{
    if let Some(prepared) = session.ready {
        if let Some(job) = job_of(prepared) {
            let armed = SessionView { ready: None, job: Some(job), ..session };
            lemma_open_sound(armed, Exchange::Reset, 0);
        }
    }
}

/// Every reply that a session waits for leads to a state in which everything
/// holds that holds of every state.
pub proof fn steps_keep_sound(session: SessionView, reply: ReplyView, reading: Reading)
    requires
        session.sound(),
        session.expects(reply),
    ensures
        session.step(reply, reading).0.sound(),
{
    match session.phase {
        Phase::Subscribing => lemma_subscribed_sound(session, reading),
        Phase::Sending { exchange, attempt, piece } => {
            lemma_request(session, exchange);
            lemma_proceed_sound(session, exchange, attempt, (piece + 1) as usize, reading);
            lemma_after_knock_sound(session, reading);
        },
        Phase::Pacing { exchange, attempt, piece } => lemma_proceed_sound(
            session,
            exchange,
            attempt,
            piece,
            reading,
        ),
        Phase::Announcing { exchange, attempt } => lemma_listen_sound(
            session,
            exchange,
            attempt,
            clock::later(reading.now, exchange.timeout_spec(session.options)),
            reading,
        ),
        Phase::Listening { exchange, attempt, deadline } => {
            lemma_unanswered_sound(session, exchange, attempt, reading);
            if let ReplyView::Received(message) = reply {
                lemma_received_sound(session, exchange, attempt, deadline, message, reading);
            }
        },
        Phase::KnockWaiting => {
            let waited = SessionView {
                knock_deadline: clock::later(reading.now, session.options.knock_window),
                ..session
            };
            lemma_open_sound(waited, Exchange::EnterIap, 0);
        },
        Phase::IdentityReporting => lemma_begin_sound(session, Exchange::StartDownload, reading),
        Phase::ProgressReporting { index } => lemma_write_from_sound(
            session,
            (index + 1) as usize,
            reading,
        ),
        _ => {},
    }
}

/// Actions and replies are seen as what they are.
pub proof fn actions_and_replies_are_seen_as_they_are(action: Action, reply: Reply)
    ensures
        match action {
            Action::Subscribe { id } => action@ is Subscribe && action@->Subscribe_id == id,
            Action::Transmit { id, data } => action@ is Transmit && action@->Transmit_id == id
                && action@->data == data@,
            Action::Pause(span) => action@ is Pause && action@->Pause_0 == span,
            Action::Listen(span) => action@ is Listen && action@->Listen_0 == span,
            Action::Report(event) => action@ is Report && action@->Report_0 == event@,
            Action::Finish(Ok(outcome)) => action@ is Finish && action@->Finish_0 is Ok
                && action@->Finish_0->Ok_0 == outcome@,
            Action::Finish(Err(error)) => action@ is Finish && action@->Finish_0 is Err
                && action@->Finish_0->Err_0 == error@,
        },
        match reply {
            Reply::Done => reply@ is Done,
            Reply::Failed(detail) => reply@ is Failed && reply@->Failed_0 == detail@,
            Reply::Refused(detail) => reply@ is Refused && reply@->Refused_0 == detail@,
            Reply::TimedOut => reply@ is TimedOut,
            Reply::Received(message) => reply@ is Received && reply@->Received_0.id == message.id
                && reply@->Received_0.fd == message.fd && reply@->Received_0.remote
                == message.remote && reply@->Received_0.data == message.data@,
        },
{
}

/// What a session goes by is what was there to observe: whether the caller's own
/// flag was raised, and, while it holds a capability, the age of that one.
pub proof fn sessions_go_by_what_was_observed(
    update: FlashSession,
    reading: Reading,
    cancellation: &CancellationToken,
)
    requires
        update.observed(reading, cancellation),
    ensures
        cancellation.reads(reading.cancelled),
        update@.ready matches Some(prepared) ==> exists|ready: ReadyToFlash|
            ready@ == prepared && #[trigger] ready.aged(reading.age),
{
    if let Some(ready) = update.ready {
        assert(ready.aged(reading.age));
    }
}

} // verus!
