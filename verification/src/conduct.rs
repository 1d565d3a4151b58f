//! What an update does at each turn, said of what goes in and what comes out.

use vstd::prelude::*;

use crate::assembler::AssemblerView;
use crate::can;
use crate::can::{MessageId, MessageView};
use crate::clock::Duration;
use crate::engine::{AssertedView, EventView, FlashFault, FlashOptions, FlashStage};
use crate::guarantees;
use crate::identity;
use crate::policy::{PolicyFault, PreparedView};
use crate::session;
use crate::session::{ActionView, Exchange, Phase, Reading, ReplyView, SessionView};
use crate::text;
use crate::wire;
use crate::wire::{FrameError, FrameView, FunctionCode};

verus! {

/// The stage that a request belongs to, for reports and errors.
pub open spec fn stage_of(exchange: Exchange) -> FlashStage {
    match exchange {
        Exchange::Reset => FlashStage::Resetting,
        Exchange::EnterIap => FlashStage::EnteringBootloader,
        Exchange::StartDownload => FlashStage::StartingDownload,
        Exchange::Segment(_) => FlashStage::Transferring,
        Exchange::FinalDownload => FlashStage::Finalizing,
        Exchange::Verify => FlashStage::Verifying,
    }
}

/// Whether a request may write: if it may have arrived, the device may need
/// recovery.
pub open spec fn may_write(exchange: Exchange) -> bool {
    exchange is StartDownload || exchange is Segment || exchange is FinalDownload
        || exchange is Verify
}

/// Whether a request comes after the erase.
pub open spec fn follows_erase(exchange: Exchange) -> bool {
    exchange is Segment || exchange is FinalDownload || exchange is Verify
}

/// How long a request's acknowledgement is awaited: what the option of its stage
/// says.
pub open spec fn allotted(exchange: Exchange, options: FlashOptions) -> int {
    match exchange {
        Exchange::Reset => options.reset_timeout.nanos as int,
        Exchange::EnterIap => options.knock_interval.nanos as int,
        Exchange::StartDownload => options.start_timeout.nanos as int,
        Exchange::Segment(_) => options.segment_timeout.nanos as int,
        Exchange::FinalDownload => options.final_timeout.nanos as int,
        Exchange::Verify => options.verify_timeout.nanos as int,
    }
}

// ---------------------------------------------------------------------------
// Requests and answers
// ---------------------------------------------------------------------------

/// A request names the session's node and says what it is for: only StartDownload
/// and Verify carry the tag, segments carry their 256 bytes of the binary in turns
/// of two functions, and the others carry nothing. It goes out under 0x780 plus
/// the node and is answered under 0x680 plus the node, by the acknowledgement of
/// its function.
pub proof fn requests_say_what_they_are_for(session: SessionView, exchange: Exchange)
    requires
        session.sound(),
        session.can_request(exchange),
    ensures
        session.request(exchange).node_id == session.node_id,
        session.tx_id() == 0x780 + session.node_id,
        session.rx_id() == 0x680 + session.node_id,
        match exchange {
            Exchange::Reset => session.request(exchange).function is ResetRequest
                && session.request(exchange).data.len() == 0 && session.ack(
                exchange,
            ) is ResetAck,
            Exchange::EnterIap => session.request(exchange).function is EnterIapRequest
                && session.request(exchange).data.len() == 0 && session.ack(
                exchange,
            ) is EnterIapAck,
            Exchange::StartDownload => session.request(exchange).function is StartDownloadRequest
                && session.request(exchange).data == session.job->0.image.raw.subrange(0, 140)
                && session.ack(exchange) is StartDownloadAck,
            Exchange::Segment(index) => {
                let raw = session.job->0.image.raw;
                let from = 140 + 256 * index;
                let to = if from + 256 <= raw.len() {
                    from + 256
                } else {
                    raw.len() as int
                };
                &&& from < raw.len()
                &&& session.request(exchange).data == raw.subrange(from, to)
                &&& index % 2 == 0 ==> session.request(exchange).function is SegmentARequest
                    && session.ack(exchange) is SegmentAAck
                &&& index % 2 == 1 ==> session.request(exchange).function is SegmentBRequest
                    && session.ack(exchange) is SegmentBAck
            },
            Exchange::FinalDownload => session.request(exchange).function is FinalDownloadRequest
                && session.request(exchange).data.len() == 0 && session.ack(
                exchange,
            ) is FinalDownloadAck,
            Exchange::Verify => session.request(exchange).function is VerifyRequest
                && session.request(exchange).data == session.job->0.image.raw.subrange(0, 140)
                && session.ack(exchange) is VerifyAck,
        },
{
    if exchange.destructive() {
        let raw = session.job->0.image.raw;
        assert(session.job->0.image.tag() =~= raw.subrange(0, 140));
        if let Exchange::Segment(index) = exchange {
            let from = 140 + 256 * index;
            let to = if from + 256 <= raw.len() {
                from + 256
            } else {
                raw.len() as int
            };
            assert(session.request(exchange).data =~= raw.subrange(from, to));
        }
    }
}

/// Whether `results` hold, at `index`, a frame with this function from this node.
pub open spec fn fits(
    results: Seq<Result<FrameView, FrameError>>,
    index: int,
    node_id: u8,
    function: FunctionCode,
) -> bool {
    0 <= index < results.len() && (results[index] matches Ok(frame) && frame.node_id == node_id
        && frame.function == function)
}

/// The first frame with the wanted function from the wanted node answers; errors
/// and other frames before it are passed over, and without such a frame there is
/// no answer.
pub proof fn the_first_fitting_frame_answers(
    results: Seq<Result<FrameView, FrameError>>,
    node_id: u8,
    function: FunctionCode,
)
    ensures
        session::first_match(results, node_id, function) is None <==> forall|index: int|
            !fits(results, index, node_id, function),
        session::first_match(results, node_id, function) matches Some(frame) ==> exists|
            index: int,
        |
            #[trigger] fits(results, index, node_id, function) && results[index] == Ok::<
                FrameView,
                FrameError,
            >(frame) && forall|earlier: int|
                0 <= earlier < index ==> !fits(results, earlier, node_id, function),
    decreases results.len(),
{
    if results.len() > 0 {
        let rest = results.skip(1);
        the_first_fitting_frame_answers(rest, node_id, function);
        assert forall|index: int| fits(results, index + 1, node_id, function) == fits(
            rest,
            index,
            node_id,
            function,
        ) || index < 0 by {}
        if fits(results, 0, node_id, function) {
            assert(session::first_match(results, node_id, function) == Some(results[0]->Ok_0));
        } else {
            assert(session::first_match(results, node_id, function) == session::first_match(
                rest,
                node_id,
                function,
            ));
            if let Some(frame) = session::first_match(rest, node_id, function) {
                let at = choose|index: int| #[trigger]
                    fits(rest, index, node_id, function) && rest[index] == Ok::<
                        FrameView,
                        FrameError,
                    >(frame) && forall|earlier: int|
                        0 <= earlier < index ==> !fits(rest, earlier, node_id, function);
                assert(fits(results, at + 1, node_id, function));
                assert forall|earlier: int| 0 <= earlier < at + 1 implies !fits(
                    results,
                    earlier,
                    node_id,
                    function,
                ) by {
                    if earlier > 0 {
                        assert(!fits(rest, earlier - 1, node_id, function));
                        assert(results[earlier] == rest[earlier - 1]);
                    }
                }
            } else {
                assert forall|index: int| !fits(results, index, node_id, function) by {
                    if index > 0 && fits(results, index, node_id, function) {
                        assert(results[index] == rest[index - 1]);
                        assert(fits(rest, index - 1, node_id, function));
                    }
                }
            }
        }
    }
}

// ---------------------------------------------------------------------------
// Time
// ---------------------------------------------------------------------------

/// Once a request was sent and announced, its acknowledgement is awaited for
/// exactly the time that the option of its stage allots, counted from then.
pub proof fn each_request_waits_its_own_time(
    session: SessionView,
    exchange: Exchange,
    attempt: u8,
    reading: Reading,
)
    requires
        session.sound(),
        session.phase == (Phase::Announcing { exchange, attempt }),
        allotted(exchange, session.options) > 0,
        reading.now.nanos + allotted(exchange, session.options) <= u128::MAX,
    ensures
        session.step(ReplyView::Done, reading).1 == ActionView::Listen(
            Duration { nanos: allotted(exchange, session.options) as u128 },
        ),
        session.step(ReplyView::Done, reading).0 == (SessionView {
            phase: Phase::Listening {
                exchange,
                attempt,
                deadline: Duration {
                    nanos: (reading.now.nanos + allotted(exchange, session.options)) as u128,
                },
            },
            ..session
        }),
{
}

/// What is awaited is awaited until the same moment, whatever comes meanwhile:
/// messages that do not answer neither shorten nor prolong it.
pub proof fn deadlines_do_not_move(
    session: SessionView,
    exchange: Exchange,
    attempt: u8,
    deadline: Duration,
    reply: ReplyView,
    reading: Reading,
)
    requires
        session.sound(),
        session.phase == (Phase::Listening { exchange, attempt, deadline }),
        session.expects(reply),
    ensures
        ({
            let (next, action) = session.step(reply, reading);
            &&& next.phase is Listening ==> next.phase == session.phase && action
                == ActionView::Listen(
                Duration { nanos: (deadline.nanos - reading.now.nanos) as u128 },
            ) && reading.now.nanos < deadline.nanos && reply is Received
            &&& action is Listen ==> next.phase is Listening
        }),
{
    if let ReplyView::Received(message) = reply {
        lemma_answered_does_not_listen(session, exchange, message, reading);
    }
}

proof fn lemma_answered_does_not_listen(
    session: SessionView,
    exchange: Exchange,
    message: MessageView,
    reading: Reading,
)
    requires
        session.sound(),
    ensures
        forall|fed: SessionView, ack: FrameView|
            #![trigger fed.answered(exchange, ack, reading)]
            !(fed.answered(exchange, ack, reading).0.phase is Listening) && !(fed.answered(
                exchange,
                ack,
                reading,
            ).1 is Listen),
{
}

/// An update ends for want of an answer only where the time is up: nothing came by
/// the deadline, or what came after it did not answer.
pub proof fn timeouts_are_earned(session: SessionView, reply: ReplyView, reading: Reading)
    requires
        session.sound(),
        session.expects(reply),
        session.step(reply, reading).1 matches ActionView::Finish(Err(FlashFault::AckTimeout {
            ..
        })),
    ensures
        session.exchange() matches Some(exchange) && session.step(reply, reading).1
            == ActionView::Finish(
            Err(
                FlashFault::AckTimeout {
                    stage: stage_of(exchange),
                    recovery_required: may_write(exchange),
                },
            ),
        ),
        match session.phase {
            Phase::Listening { deadline, .. } => reply is TimedOut || reading.now.nanos
                >= deadline.nanos,
            Phase::Announcing { exchange, .. } => allotted(exchange, session.options) == 0
                || reading.now.nanos == u128::MAX,
            _ => session.exchange() == Some(Exchange::EnterIap) && reading.now.nanos
                >= session.knock_deadline.nanos || reading.now.nanos == u128::MAX,
        },
        session.exchange() == Some(Exchange::EnterIap) ==> reading.now.nanos
            >= session.knock_deadline.nanos,
        session.exchange() == Some(Exchange::Reset) ==> session.attempt() + 1
            == session.options.reset_attempts,
{
    if let Phase::Listening { exchange, .. } = session.phase {
        if let ReplyView::Received(message) = reply {
            lemma_answers_are_no_timeouts(exchange, reading);
        }
    }
}

proof fn lemma_answers_are_no_timeouts(exchange: Exchange, reading: Reading)
    ensures
        forall|fed: SessionView, ack: FrameView|
            #![trigger fed.answered(exchange, ack, reading)]
            !(fed.answered(exchange, ack, reading).1 matches ActionView::Finish(
                Err(FlashFault::AckTimeout { .. }),
            )),
{
}

/// An acknowledgement that is complete before the allotted time has passed since
/// the request was announced never leads to a timeout, however many messages it
/// takes.
pub proof fn answers_within_the_allotted_time_count(
    session: SessionView,
    exchange: Exchange,
    attempt: u8,
    announced: Reading,
    ack: FrameView,
    readings: Seq<Reading>,
)
    requires
        session.sound(),
        session.phase == (Phase::Announcing { exchange, attempt }),
        session.assembler == AssemblerView::clean(),
        allotted(exchange, session.options) > 0,
        announced.now.nanos + allotted(exchange, session.options) <= u128::MAX,
        ack.sound(),
        ack.node_id == session.node_id,
        ack.function == session.ack(exchange),
        readings.len() == can::pieces(ack.encoded().len()),
        forall|index: int|
            0 <= index < readings.len() ==> (#[trigger] readings[index]).now.nanos
                < announced.now.nanos + allotted(exchange, session.options),
    ensures
        ({
            let listening = session.step(ReplyView::Done, announced).0;
            let inputs = guarantees::deliveries(listening, ack, readings);
            let last = guarantees::actions(listening, inputs).last();
            &&& guarantees::awaited(listening, inputs)
            &&& !(last matches ActionView::Finish(Err(FlashFault::AckTimeout { .. })))
            &&& ack.data == seq![1u8] && !readings.last().cancelled && !(exchange is EnterIap) ==> !(
            last matches ActionView::Finish(Err(_)))
        }),
{
    each_request_waits_its_own_time(session, exchange, attempt, announced);
    let listening = session.step(ReplyView::Done, announced).0;
    guarantees::timely_answers_count(listening, ack, readings);
    lemma_answers_are_no_timeouts(exchange, readings.last());
}

// ---------------------------------------------------------------------------
// Cancellation
// ---------------------------------------------------------------------------

/// Whether a turn opens a request: its first message goes out, and it is not the
/// Reset that is sent again for want of an answer.
pub open spec fn opens(session: SessionView, next: SessionView, action: ActionView) -> bool {
    &&& action is Transmit
    &&& next.phase matches Phase::Sending { piece, .. } && piece == 0
    &&& !(session.exchange() == Some(Exchange::Reset) && next.exchange() == Some(Exchange::Reset))
}

/// What becomes of a turn if the update is cancelled by then, given what the turn
/// does otherwise. Where it would open a request, any segment included, the update
/// ends instead and says at which stage, and whether the erase has happened; it
/// ends before it subscribes too, and once a Reset is acknowledged. Any other turn
/// is the same.
pub open spec fn heeds_cancellation(
    session: SessionView,
    reply: ReplyView,
    now: Duration,
    age: Duration,
) -> bool {
    let (next, action) = session.step(reply, Reading { now, cancelled: false, age });
    let (halted, last) = session.step(reply, Reading { now, cancelled: true, age });
    let knocks = action == ActionView::Report(EventView::Stage(FlashStage::EnteringBootloader));
    &&& opens(session, next, action) ==> halted.phase is Over && last == ActionView::Finish(
        Err(
            FlashFault::Cancelled {
                stage: stage_of(next.exchange()->0),
                recovery_required: follows_erase(next.exchange()->0),
            },
        ),
    )
    &&& !opens(session, halted, last)
    &&& session.phase is Idle ==> halted.phase is Over && last == ActionView::Finish(
        Err(
            FlashFault::Cancelled {
                stage: if session.ready is Some {
                    FlashStage::Resetting
                } else {
                    FlashStage::EnteringBootloader
                },
                recovery_required: false,
            },
        ),
    )
    &&& session.exchange() == Some(Exchange::Reset) && knocks ==> halted.phase is Over && last
        == ActionView::Finish(
        Err(
            FlashFault::Cancelled {
                stage: FlashStage::EnteringBootloader,
                recovery_required: false,
            },
        ),
    )
    &&& session.phase is Subscribing && session.ready is Some && reply is Done ==> halted.phase
        is Over && last == ActionView::Finish(
        Err(FlashFault::Cancelled { stage: FlashStage::Resetting, recovery_required: false }),
    )
    &&& !opens(session, next, action) && !(session.phase is Idle) && !(session.phase
        is Subscribing && session.ready is Some && reply is Done) && !(session.exchange() == Some(
        Exchange::Reset,
    ) && knocks) ==> (halted, last) == (next, action)
}

/// Cancellation takes effect at every boundary between requests, at every segment
/// too, and nowhere else: a request that was begun is finished.
pub proof fn cancellation_takes_effect_at_every_request(
    session: SessionView,
    reply: ReplyView,
    now: Duration,
    age: Duration,
)
    requires
        session.sound(),
        session.expects(reply),
    ensures
        heeds_cancellation(session, reply, now, age),
{
    if session.phase is Listening {
        lemma_listeners_heed(session, reply, now, age);
    } else if session.phase is Sending || session.phase is Pacing {
        lemma_senders_heed(session, reply, now, age);
    } else {
        lemma_others_heed(session, reply, now, age);
    }
}

proof fn lemma_listeners_heed(
    session: SessionView,
    reply: ReplyView,
    now: Duration,
    age: Duration,
)
    requires
        session.sound(),
        session.expects(reply),
        session.phase is Listening,
    ensures
        heeds_cancellation(session, reply, now, age),
{
    let going = Reading { now, cancelled: false, age };
    let stopped = Reading { now, cancelled: true, age };
    if let Phase::Listening { exchange, attempt, deadline } = session.phase {
        if let ReplyView::Received(message) = reply {
            let fed = SessionView {
                assembler: session.assembler.after_all(message.data),
                ..session
            };
            let results = session.assembler.results(message.data);
            if message.classic_id() == Some(session.rx_id()) {
                if let Some(ack) = session::first_match(
                    results,
                    session.node_id,
                    session.ack(exchange),
                ) {
                    assert(session.step(reply, going) == fed.answered(exchange, ack, going));
                    assert(session.step(reply, stopped) == fed.answered(exchange, ack, stopped));
                }
            }
        }
    }
}

proof fn lemma_senders_heed(session: SessionView, reply: ReplyView, now: Duration, age: Duration)
    requires
        session.sound(),
        session.expects(reply),
        session.phase is Sending || session.phase is Pacing,
    ensures
        heeds_cancellation(session, reply, now, age),
{
    session::lemma_request(session, session.exchange()->0);
}

proof fn lemma_others_heed(session: SessionView, reply: ReplyView, now: Duration, age: Duration)
    requires
        session.sound(),
        session.expects(reply),
        !(session.phase is Listening || session.phase is Sending || session.phase is Pacing),
    ensures
        heeds_cancellation(session, reply, now, age),
{
}

// ---------------------------------------------------------------------------
// What follows what
// ---------------------------------------------------------------------------

/// Whether a message brings the session the answer `ack` to the request that it
/// waits for: a Classic data message under 0x680 plus the node, with which the
/// first fitting frame becomes complete.
pub open spec fn brings(session: SessionView, message: MessageView, ack: FrameView) -> bool {
    &&& session.phase is Listening
    &&& !message.fd && !message.remote
    &&& message.id == MessageId::Standard((0x680 + session.node_id) as u16)
    &&& session::first_match(
        session.assembler.results(message.data),
        session.node_id,
        session.ack(session.exchange()->0),
    ) == Some(ack)
}

/// A message under another identifier, or not a Classic data message, changes
/// nothing while there is time left.
pub proof fn strangers_are_not_heard(
    session: SessionView,
    exchange: Exchange,
    attempt: u8,
    deadline: Duration,
    message: MessageView,
    reading: Reading,
)
    requires
        session.sound(),
        session.phase == (Phase::Listening { exchange, attempt, deadline }),
        message.fd || message.remote || message.id != MessageId::Standard(
            (0x680 + session.node_id) as u16,
        ),
        reading.now.nanos < deadline.nanos,
    ensures
        session.step(ReplyView::Received(message), reading) == (
            session,
            ActionView::Listen(
                Duration { nanos: (deadline.nanos - reading.now.nanos) as u128 },
            ),
        ),
{
}

/// A message of the node that completes no fitting frame is remembered, and the
/// session goes on waiting while there is time left.
pub proof fn partial_answers_are_kept(
    session: SessionView,
    exchange: Exchange,
    attempt: u8,
    deadline: Duration,
    message: MessageView,
    reading: Reading,
)
    requires
        session.sound(),
        session.phase == (Phase::Listening { exchange, attempt, deadline }),
        !message.fd && !message.remote,
        message.id == MessageId::Standard((0x680 + session.node_id) as u16),
        session::first_match(
            session.assembler.results(message.data),
            session.node_id,
            session.ack(exchange),
        ) is None,
        reading.now.nanos < deadline.nanos,
    ensures
        session.step(ReplyView::Received(message), reading) == (
            SessionView { assembler: session.assembler.after_all(message.data), ..session },
            ActionView::Listen(
                Duration { nanos: (deadline.nanos - reading.now.nanos) as u128 },
            ),
        ),
{
}

/// A request counts as accepted if and only if its acknowledgement carries the one
/// byte 1. Anything else ends the update, with the payload in the error; recovery
/// is required once the erase has happened.
pub proof fn anything_but_one_is_a_rejection(
    session: SessionView,
    message: MessageView,
    ack: FrameView,
    reading: Reading,
)
    requires
        session.sound(),
        brings(session, message, ack),
        !(session.exchange()->0 is EnterIap),
    ensures
        ({
            let (next, action) = session.step(ReplyView::Received(message), reading);
            let rejection = ActionView::Finish(
                Err(
                    FlashFault::Rejected {
                        stage: stage_of(session.exchange()->0),
                        payload: ack.data,
                        recovery_required: follows_erase(session.exchange()->0),
                    },
                ),
            );
            &&& action == rejection <==> !(ack.data.len() == 1 && ack.data[0] == 1)
            &&& action == rejection ==> next.phase is Over
        }),
{
    if ack.data.len() == 1 && ack.data[0] == 1 {
        assert(ack.data =~= seq![1u8]);
    }
}

/// What follows an accepted request, unless the update is cancelled: knocking after
/// Reset; the first segment after StartDownload; the report of how much is written
/// after a segment; Verify after FinalDownload; success after Verify.
pub proof fn accepted_requests_lead_on(
    session: SessionView,
    message: MessageView,
    ack: FrameView,
    reading: Reading,
)
    requires
        session.sound(),
        brings(session, message, ack),
        !(session.exchange()->0 is EnterIap),
        ack.data == seq![1u8],
        !reading.cancelled,
    ensures
        ({
            let (next, action) = session.step(ReplyView::Received(message), reading);
            let total = session.job->0.image.raw.len() - 140;
            match session.exchange()->0 {
                Exchange::Reset => next.phase is KnockAnnouncing && action == ActionView::Report(
                    EventView::Stage(FlashStage::EnteringBootloader),
                ) && next.assembler == AssemblerView::clean(),
                Exchange::StartDownload => next.phase == (Phase::Sending {
                    exchange: Exchange::Segment(0),
                    attempt: 0,
                    piece: 0,
                }) && action is Transmit,
                Exchange::Segment(index) => next.phase == (Phase::ProgressReporting { index })
                    && action == ActionView::Report(
                    EventView::Progress {
                        written: (if 256 * index + 256 <= total {
                            256 * index + 256
                        } else {
                            total
                        }) as nat,
                        total: total as nat,
                    },
                ),
                Exchange::FinalDownload => next.phase == (Phase::Sending {
                    exchange: Exchange::Verify,
                    attempt: 0,
                    piece: 0,
                }) && action is Transmit,
                _ => next.phase is Over && action == ActionView::Finish(
                    Ok(session.identity->0),
                ),
            }
        }),
{
    assert(session.job->0.image.bin().len() == session.job->0.image.raw.len() - 140);
}

/// An answer to a knock ends the update unless it is an identity with exactly the
/// device and the firmware that the job is for; the error says what was wrong.
/// Otherwise the identity is reported as verified.
pub proof fn only_the_right_bootloader_is_entered(
    session: SessionView,
    message: MessageView,
    ack: FrameView,
    reading: Reading,
)
    requires
        session.sound(),
        brings(session, message, ack),
        session.exchange() == Some(Exchange::EnterIap),
    ensures
        ({
            let (next, action) = session.step(ReplyView::Received(message), reading);
            let device = session.job->0.device_id;
            let firmware = session.job->0.image.firmware_id();
            match identity::iap_identity(ack.data) {
                Err(error) => action == ActionView::Finish(
                    Err(FlashFault::InvalidIapIdentity { detail: identity::described(error) }),
                ),
                Ok(found) => {
                    &&& found.device_id != device ==> action == ActionView::Finish(
                        Err(
                            FlashFault::IapDeviceMismatch {
                                expected: device,
                                actual: found.device_id,
                            },
                        ),
                    )
                    &&& found.device_id == device && found.firmware_id != firmware ==> action
                        == ActionView::Finish(
                        Err(
                            FlashFault::IapFirmwareMismatch {
                                expected: firmware,
                                actual: found.firmware_id,
                            },
                        ),
                    )
                    &&& found.device_id == device && found.firmware_id == firmware ==> action
                        == ActionView::Report(EventView::Stage(FlashStage::IdentityVerified))
                        && next.identity == Some(found) && next.phase is IdentityAnnouncing
                },
            }
        }),
{
}

/// Once verified, the identity is reported, and StartDownload follows; after a
/// segment was reported the next one follows while there is more of the binary,
/// and FinalDownload after the last. All this unless the update is cancelled.
pub proof fn reports_lead_on(session: SessionView, reading: Reading)
    requires
        session.sound(),
        !reading.cancelled,
    ensures
        ({
            let (next, action) = session.step(ReplyView::Done, reading);
            &&& session.phase is IdentityAnnouncing ==> action == ActionView::Report(
                EventView::IapIdentity(session.identity->0),
            ) && next.phase is IdentityReporting
            &&& session.phase is IdentityReporting ==> next.phase == (Phase::Sending {
                exchange: Exchange::StartDownload,
                attempt: 0,
                piece: 0,
            }) && action is Transmit
            &&& session.phase matches Phase::ProgressReporting { index } ==> action is Transmit
                && next.phase == (Phase::Sending {
                exchange: if 140 + 256 * (index + 1) < session.job->0.image.raw.len() {
                    Exchange::Segment((index + 1) as usize)
                } else {
                    Exchange::FinalDownload
                },
                attempt: 0,
                piece: 0,
            })
        }),
{
    if session.phase is ProgressReporting {
        assert(session.job->0.image.bin().len() == session.job->0.image.raw.len() - 140);
    }
}

// ---------------------------------------------------------------------------
// Sending
// ---------------------------------------------------------------------------

/// A request goes out in messages of eight bytes, in order. After every burst there
/// is a pause of the configured length; after the last message the stage is
/// reported, or, for a knock, the answer awaited.
pub proof fn requests_go_out_in_order(
    session: SessionView,
    exchange: Exchange,
    attempt: u8,
    piece: usize,
    reading: Reading,
)
    requires
        session.sound(),
        session.phase == (Phase::Sending { exchange, attempt, piece }) || session.phase == (
        Phase::Pacing { exchange, attempt, piece }),
    ensures
        ({
            let (next, action) = session.step(ReplyView::Done, reading);
            let sent = if session.phase is Sending {
                piece + 1
            } else {
                piece as int
            };
            let bytes = session.request(exchange).encoded();
            let paused = session.phase is Sending && sent % (session.options.tx_burst_frames as int)
                == 0;
            let upto = if 8 * sent + 8 <= bytes.len() {
                8 * sent + 8
            } else {
                bytes.len() as int
            };
            &&& paused ==> action == ActionView::Pause(session.options.tx_burst_pause)
                && next.phase == (Phase::Pacing { exchange, attempt, piece: sent as usize })
            &&& !paused && 8 * sent < bytes.len() ==> action == (ActionView::Transmit {
                id: (0x780 + session.node_id) as u16,
                data: bytes.subrange(8 * sent, upto),
            }) && next.phase == (Phase::Sending { exchange, attempt, piece: sent as usize })
            &&& !paused && 8 * sent >= bytes.len() && !(exchange is EnterIap) ==> action
                == ActionView::Report(EventView::Stage(stage_of(exchange))) && next.phase == (
            Phase::Announcing { exchange, attempt })
        }),
{
    session::lemma_request(session, exchange);
}

/// Every request that is opened starts with its first eight bytes, with no memory
/// of earlier answers but for a knock, whose answers are all the same.
pub proof fn requests_start_at_their_beginning(
    session: SessionView,
    reply: ReplyView,
    reading: Reading,
)
    requires
        session.sound(),
        session.expects(reply),
    ensures
        ({
            let (next, action) = session.step(reply, reading);
            next.phase matches Phase::Sending { exchange, piece, .. } ==> (action is Transmit && (
            piece == 0 ==> action == (ActionView::Transmit {
                id: (0x780 + session.node_id) as u16,
                data: next.request(exchange).encoded().subrange(0, 8),
            }) && (exchange is EnterIap || next.assembler == AssemblerView::clean())))
        }),
{
    session::steps_keep_sound(session, reply, reading);
    let (next, action) = session.step(reply, reading);
    if let Phase::Sending { exchange, piece, .. } = next.phase {
        session::lemma_request(next, exchange);
        wire::encoded_frames_are_delimited(next.request(exchange));
    }
}

/// A message that cannot be sent ends the update, except for a knock: a knock that
/// was not sent is waited on like one that was. The error says which message it was
/// and why, and asks for recovery where the request may write.
pub proof fn failures_to_send_are_told(
    session: SessionView,
    exchange: Exchange,
    attempt: u8,
    piece: usize,
    error: Seq<char>,
    reading: Reading,
)
    requires
        session.sound(),
        session.phase == (Phase::Sending { exchange, attempt, piece }),
        !(exchange is EnterIap),
    ensures
        session.step(ReplyView::Failed(error), reading).1 == ActionView::Finish(
            Err(
                FlashFault::Transport {
                    stage: stage_of(exchange),
                    detail: "sending COBS chunk "@ + text::decimal((piece + 1) as nat)
                        + " (the request outcome is ambiguous): "@ + error,
                    recovery_required: may_write(exchange),
                },
            ),
        ),
        session.step(ReplyView::Refused(error), reading).1 == ActionView::Finish(
            Err(
                FlashFault::Transport {
                    stage: stage_of(exchange),
                    detail: "constructing Classic CAN frame: "@ + error,
                    recovery_required: may_write(exchange),
                },
            ),
        ),
{
}

/// A receiver that fails ends the update, with the reason; recovery is required
/// where the request may write.
pub proof fn failures_to_receive_are_told(
    session: SessionView,
    exchange: Exchange,
    attempt: u8,
    deadline: Duration,
    error: Seq<char>,
    reading: Reading,
)
    requires
        session.sound(),
        session.phase == (Phase::Listening { exchange, attempt, deadline }),
    ensures
        session.step(ReplyView::Failed(error), reading).1 == ActionView::Finish(
            Err(
                FlashFault::Transport {
                    stage: stage_of(exchange),
                    detail: "receiving ACK: "@ + error,
                    recovery_required: may_write(exchange),
                },
            ),
        ),
{
}

/// Where no answer came, only a Reset is sent again, as often as the options say;
/// any other request ends the update.
pub proof fn only_resets_are_repeated(
    session: SessionView,
    exchange: Exchange,
    attempt: u8,
    deadline: Duration,
    reading: Reading,
)
    requires
        session.sound(),
        session.phase == (Phase::Listening { exchange, attempt, deadline }),
        !(exchange is EnterIap),
    ensures
        ({
            let (next, action) = session.step(ReplyView::TimedOut, reading);
            let again = exchange is Reset && attempt + 1 < session.options.reset_attempts;
            &&& again ==> next.phase == (Phase::Sending {
                exchange: Exchange::Reset,
                attempt: (attempt + 1) as u8,
                piece: 0,
            }) && action is Transmit
            &&& !again ==> action == ActionView::Finish(
                Err(
                    FlashFault::AckTimeout {
                        stage: stage_of(exchange),
                        recovery_required: may_write(exchange),
                    },
                ),
            )
        }),
{
}

// ---------------------------------------------------------------------------
// Knocking
// ---------------------------------------------------------------------------

/// Knocking starts after the configured delay and lasts for the configured window,
/// counted from the first knock. Each knock is waited on for the configured
/// interval, or for what is left of the window; while the window lasts an
/// unanswered knock is followed by another, and after it the update ends, with
/// nothing written.
pub proof fn knocking_fills_the_window(session: SessionView, reading: Reading)
    requires
        session.sound(),
        !reading.cancelled,
        reading.now.nanos + session.options.knock_window.nanos <= u128::MAX,
        reading.now.nanos + session.options.knock_interval.nanos <= u128::MAX,
    ensures
        ({
            let (next, action) = session.step(ReplyView::Done, reading);
            let left = if session.knock_deadline.nanos > reading.now.nanos {
                session.knock_deadline.nanos - reading.now.nanos
            } else {
                0
            };
            let wait = if session.options.knock_interval.nanos <= left {
                session.options.knock_interval.nanos as int
            } else {
                left
            };
            let length = session.request(Exchange::EnterIap).encoded().len();
            &&& session.phase is KnockAnnouncing ==> action == ActionView::Pause(
                session.options.knock_start_delay,
            ) && next.phase is KnockWaiting
            &&& session.phase is KnockWaiting ==> next.knock_deadline.nanos == reading.now.nanos
                + session.options.knock_window.nanos && next.phase == (Phase::Sending {
                exchange: Exchange::EnterIap,
                attempt: 0,
                piece: 0,
            }) && action is Transmit
            &&& (session.phase matches Phase::Pacing { exchange, piece, .. } && exchange is EnterIap
                && 8 * piece >= length && left > 0) ==> action == ActionView::Listen(
                Duration { nanos: wait as u128 },
            ) && next.phase == (Phase::Listening {
                exchange: Exchange::EnterIap,
                attempt: 0,
                deadline: Duration { nanos: (reading.now.nanos + wait) as u128 },
            })
            &&& (session.phase matches Phase::Sending { exchange, piece, .. } && exchange is EnterIap
                && 8 * (piece + 1) >= length && left > 0 && (piece + 1) % (
            session.options.tx_burst_frames as int) != 0) ==> action == ActionView::Listen(
                Duration { nanos: wait as u128 },
            )
        }),
        forall|reply: ReplyView|
            session.exchange() == Some(Exchange::EnterIap) && session.phase is Sending && (
            reply is Failed || reply is Refused) && session.knock_deadline.nanos
                > reading.now.nanos ==> {
                let (next, action) = #[trigger] session.step(reply, reading);
                let left = session.knock_deadline.nanos - reading.now.nanos;
                let wait = if session.options.knock_interval.nanos <= left {
                    session.options.knock_interval.nanos as int
                } else {
                    left
                };
                action == ActionView::Listen(Duration { nanos: wait as u128 }) && next.phase == (
                Phase::Listening {
                    exchange: Exchange::EnterIap,
                    attempt: 0,
                    deadline: Duration { nanos: (reading.now.nanos + wait) as u128 },
                })
            },
        session.phase matches Phase::Listening { exchange, .. } && exchange is EnterIap ==> {
            let (next, action) = session.step(ReplyView::TimedOut, reading);
            &&& reading.now.nanos < session.knock_deadline.nanos ==> action is Transmit
                && next.phase == (Phase::Sending {
                exchange: Exchange::EnterIap,
                attempt: 0,
                piece: 0,
            }) && next.knock_deadline == session.knock_deadline
            &&& reading.now.nanos >= session.knock_deadline.nanos ==> action == ActionView::Finish(
                Err(
                    FlashFault::AckTimeout {
                        stage: FlashStage::EnteringBootloader,
                        recovery_required: false,
                    },
                ),
            )
        },
{
    if session.phase is Sending {
        session::lemma_request(session, session.exchange()->0);
    }
}

// ---------------------------------------------------------------------------
// Opening
// ---------------------------------------------------------------------------

/// An update first subscribes to its node's answers. With a capability that is at
/// most two seconds old by then it sends the Reset, and with an older one it ends;
/// without one, in recovery, it goes on to knock. Where subscribing fails it ends,
/// with the identifier and the reason.
pub proof fn updates_open_with_a_fresh_capability(
    session: SessionView,
    error: Seq<char>,
    reading: Reading,
)
    requires
        session.sound(),
        !reading.cancelled,
    ensures
        session.phase is Idle ==> session.step(ReplyView::Done, reading).1 == (
        ActionView::Subscribe { id: (0x680 + session.node_id) as u16 }) && session.step(
            ReplyView::Done,
            reading,
        ).0.phase is Subscribing,
        session.phase is Subscribing && session.ready is Some && reading.age.nanos
            <= 2_000_000_000 ==> {
            let (next, action) = session.step(ReplyView::Done, reading);
            action is Transmit && next.phase == (Phase::Sending {
                exchange: Exchange::Reset,
                attempt: 0,
                piece: 0,
            }) && next.job == session.goal() && next.ready is None
        },
        session.phase is Subscribing && session.ready is Some && reading.age.nanos
            > 2_000_000_000 ==> session.step(ReplyView::Done, reading).1 == ActionView::Finish(
            Err(FlashFault::Policy(PolicyFault::ReadyExpired)),
        ),
        session.phase is Subscribing && session.ready is None ==> {
            let (next, action) = session.step(ReplyView::Done, reading);
            action == ActionView::Report(EventView::Stage(FlashStage::EnteringBootloader))
                && next.phase is KnockAnnouncing && next.assembler == AssemblerView::clean()
        },
        session.phase is Subscribing ==> session.step(ReplyView::Failed(error), reading).1
            == ActionView::Finish(
            Err(
                FlashFault::Transport {
                    stage: if session.ready is Some {
                        FlashStage::Resetting
                    } else {
                        FlashStage::EnteringBootloader
                    },
                    detail: "subscribing to exact ACK ID 0x"@ + text::hex3(
                        0x680 + session.node_id,
                    ) + ": "@ + error,
                    recovery_required: false,
                },
            ),
        ),
{
}

/// The job of a capability is the image that was bound, for the device that the
/// entry's policy names, and that of an assertion likewise.
pub proof fn jobs_are_what_was_authorized(prepared: PreparedView)
    requires
        prepared.sound(),
    ensures
        session::job_of(prepared) matches Some(job) && job.image == prepared.image && job.device_id
            == prepared.image.device_id(),
{
}

/// A session starts idle, for exactly what was permitted: the node of the
/// capability or the one that was named, and the image and the device that go with
/// it.
pub proof fn updates_are_for_what_was_permitted(
    prepared: PreparedView,
    asserted: AssertedView,
    node_id: u8,
    options: FlashOptions,
)
    requires
        prepared.sound(),
        asserted.sound(),
    ensures
        ({
            let start = session::flashing(prepared, options);
            &&& start.phase is Idle && start.options == options
            &&& start.node_id == prepared.target.identity.node_id
            &&& start.ready == Some(prepared) && start.job is None && start.identity is None
            &&& start.assembler == AssemblerView::clean()
            &&& start.goal() matches Some(job) && job.image == prepared.image
        }),
        ({
            let start = session::recovering(node_id, asserted, options);
            &&& start.phase is Idle && start.options == options
            &&& start.node_id == node_id
            &&& start.ready is None && start.identity is None
            &&& start.assembler == AssemblerView::clean()
            &&& start.job matches Some(job) && job.image == asserted.image && job.device_id
                == asserted.image.device_id() && job.device_id == asserted.policy.device_id
        }),
{
}

// ---------------------------------------------------------------------------
// Turns
// ---------------------------------------------------------------------------

/// What can come of an action, and nothing else, is what the session then waits
/// for: a subscription is done or fails; a message is sent, fails or is refused; a
/// pause and a report are done; listening brings a message, a timeout or a failure;
/// and after the end there is nothing.
pub proof fn replies_fit_actions(session: SessionView, reply: ReplyView, reading: Reading)
    requires
        session.sound(),
        session.expects(reply),
    ensures
        session.phase is Idle ==> reply is Done,
        ({
            let (next, action) = session.step(reply, reading);
            forall|coming: ReplyView| #[trigger]
                next.expects(coming) <==> match action {
                    ActionView::Subscribe { .. } => coming is Done || coming is Failed,
                    ActionView::Transmit { .. } => coming is Done || coming is Failed
                        || coming is Refused,
                    ActionView::Pause(_) => coming is Done,
                    ActionView::Report(_) => coming is Done,
                    ActionView::Listen(_) => coming is Received || coming is TimedOut
                        || coming is Failed,
                    ActionView::Finish(_) => false,
                }
        }),
{
    if let Phase::Listening { exchange, .. } = session.phase {
        if let ReplyView::Received(message) = reply {
            lemma_answers_fit(exchange, reading);
        }
    }
}

proof fn lemma_answers_fit(exchange: Exchange, reading: Reading)
    ensures
        forall|fed: SessionView, ack: FrameView|
            #![trigger fed.answered(exchange, ack, reading)]
            ({
                let (next, action) = fed.answered(exchange, ack, reading);
                ||| action is Transmit && next.phase is Sending
                ||| action is Finish && next.phase is Over
                ||| action is Report && (next.phase is KnockAnnouncing
                    || next.phase is IdentityAnnouncing || next.phase is ProgressReporting)
            }),
{
}

/// A turn changes no more than it says: the node and the options stay, what is to be
/// written stays, the identity is set by the answer to a knock alone, the end of
/// knocking is set by the first knock alone, and what is remembered of a frame is
/// what the node's messages add to it, until a request is opened; knocks keep it.
pub proof fn turns_change_nothing_else(session: SessionView, reply: ReplyView, reading: Reading)
    requires
        session.sound(),
        session.expects(reply),
    ensures
        ({
            let next = session.step(reply, reading).0;
            &&& next.node_id == session.node_id
            &&& next.options == session.options
            &&& !(next.phase is Over) ==> next.goal() == session.goal()
            &&& session.job is Some ==> next.job == session.job
            &&& next.ready == session.ready || session.phase is Subscribing
            &&& next.identity == session.identity || (session.exchange() == Some(
                Exchange::EnterIap,
            ) && session.phase is Listening && next.phase is IdentityAnnouncing)
            &&& next.knock_deadline == session.knock_deadline || session.phase is KnockWaiting
            &&& {
                ||| next.assembler == session.assembler
                ||| next.assembler == AssemblerView::clean() && (next.phase is KnockAnnouncing || (
                next.phase is Sending && next.exchange() != Some(Exchange::EnterIap)))
                ||| (reply matches ReplyView::Received(message) && next.assembler
                    == session.assembler.after_all(message.data))
            }
        }),
{
    if let Phase::Listening { exchange, .. } = session.phase {
        if let ReplyView::Received(message) = reply {
            lemma_answers_change_little(exchange, reading);
        }
    }
}

proof fn lemma_answers_change_little(exchange: Exchange, reading: Reading)
    ensures
        forall|fed: SessionView, ack: FrameView|
            #![trigger fed.answered(exchange, ack, reading)]
            ({
                let next = fed.answered(exchange, ack, reading).0;
                &&& next.node_id == fed.node_id
                &&& next.options == fed.options
                &&& next.job == fed.job
                &&& next.ready == fed.ready
                &&& next.identity == fed.identity || (exchange is EnterIap
                    && next.phase is IdentityAnnouncing)
                &&& next.knock_deadline == fed.knock_deadline
                &&& next.assembler == fed.assembler || (next.assembler == AssemblerView::clean()
                    && (next.phase is KnockAnnouncing || (next.phase is Sending
                    && next.exchange() != Some(Exchange::EnterIap))))
            }),
{
}

/// Where there is no time to wait, or no time left, a turn ends as if the wait had
/// ended without an answer: after a request whose option allots nothing, after a
/// message at or past the deadline that did not answer, and after a knock at or past
/// the end of the window. What such a message adds to a frame is kept.
pub proof fn waits_without_time_end_at_once(
    session: SessionView,
    reply: ReplyView,
    exchange: Exchange,
    attempt: u8,
    deadline: Duration,
    reading: Reading,
)
    requires
        session.sound(),
        session.expects(reply),
    ensures
        session.phase == (Phase::Announcing { exchange, attempt }) && allotted(
            exchange,
            session.options,
        ) == 0 ==> session.step(reply, reading) == (SessionView {
            phase: Phase::Listening { exchange, attempt, deadline: reading.now },
            ..session
        }).step(ReplyView::TimedOut, reading),
        session.phase == (Phase::Announcing { exchange, attempt }) && reading.now.nanos + allotted(
            exchange,
            session.options,
        ) > u128::MAX && reading.now.nanos < u128::MAX ==> session.step(reply, reading).0.phase
            == (Phase::Listening { exchange, attempt, deadline: Duration { nanos: u128::MAX } }),
        session.phase == (Phase::Listening { exchange, attempt, deadline }) && reading.now.nanos
            >= deadline.nanos ==> (reply matches ReplyView::Received(message) ==> {
            let own = !message.fd && !message.remote && message.id == MessageId::Standard(
                (0x680 + session.node_id) as u16,
            );
            let fed = SessionView {
                assembler: session.assembler.after_all(message.data),
                ..session
            };
            let answer = session::first_match(
                session.assembler.results(message.data),
                session.node_id,
                session.ack(exchange),
            );
            &&& !own ==> session.step(reply, reading) == session.step(ReplyView::TimedOut, reading)
            &&& own && answer is None ==> session.step(reply, reading) == fed.step(
                ReplyView::TimedOut,
                reading,
            )
        }),
        session.phase is Sending && session.exchange() == Some(Exchange::EnterIap) && (
        reply is Failed || reply is Refused) && reading.now.nanos >= session.knock_deadline.nanos
            ==> session.step(reply, reading) == (SessionView {
            phase: Phase::Listening { exchange: Exchange::EnterIap, attempt: 0, deadline },
            ..session
        }).step(ReplyView::TimedOut, reading),
{
}

} // verus!
