//! What holds of whole updates, whatever the device, the bus and the caller do.
//!
//! A session is fed any replies that it waits for, at any times; the guarantees
//! speak of the actions that come out.

use vstd::prelude::*;

use crate::assembler;
use crate::assembler::AssemblerView;
use crate::can;
use crate::can::{MessageId, MessageView};
use crate::clock;
use crate::clock::Duration;
use crate::engine;
use crate::engine::{AssertedView, EventView, FlashFault, FlashOptions, FlashStage};
use crate::identity;
use crate::identity::{IapView, IdentityError};
use crate::policy::{PreparedView, READY_TTL_NANOS};
use crate::session;
use crate::session::{ActionView, Exchange, JobView, Phase, Reading, ReplyView, SessionView, Turn};
use crate::wire;
use crate::wire::{FrameError, FrameView, FunctionCode};

verus! {

// ---------------------------------------------------------------------------
// The plan
// ---------------------------------------------------------------------------

/// Request `index` of those that write an image: StartDownload with the tag,
/// the segments of the binary, FinalDownload, and Verify with the tag.
pub open spec fn planned(node_id: u8, job: JobView, index: int) -> FrameView {
    let bin = job.image.bin();
    let count = session::segments(bin.len());
    if index == 0 {
        FrameView { node_id, function: FunctionCode::StartDownloadRequest, data: job.image.tag() }
    } else if index <= count {
        FrameView {
            node_id,
            function: if (index - 1) % 2 == 0 {
                FunctionCode::SegmentARequest
            } else {
                FunctionCode::SegmentBRequest
            },
            data: session::segment(bin, (index - 1) as nat),
        }
    } else if index == count + 1 {
        FrameView { node_id, function: FunctionCode::FinalDownloadRequest, data: Seq::empty() }
    } else {
        FrameView { node_id, function: FunctionCode::VerifyRequest, data: job.image.tag() }
    }
}

/// The requests that write an image, in order.
pub open spec fn plan(node_id: u8, job: JobView) -> Seq<FrameView> {
    Seq::new(
        session::segments(job.image.bin().len()) + 3,
        |index: int| planned(node_id, job, index),
    )
}

/// The first `count` segments of a binary, joined.
pub open spec fn joined(bin: Seq<u8>, count: nat) -> Seq<u8>
    decreases count,
{
    if count == 0 {
        Seq::empty()
    } else {
        joined(bin, (count - 1) as nat) + session::segment(bin, (count - 1) as nat)
    }
}

/// The segments of a binary are the binary: in order, without gap or overlap,
/// none empty and none too long for a request.
pub proof fn segments_cover(bin: Seq<u8>)
    ensures
        joined(bin, session::segments(bin.len())) == bin,
        forall|index: nat|
            index < session::segments(bin.len()) ==> 1 <= (#[trigger] session::segment(
                bin,
                index,
            )).len() <= 256,
{
    lemma_joined(bin, session::segments(bin.len()));
    assert(bin.take(bin.len() as int) =~= bin);
}

proof fn lemma_joined(bin: Seq<u8>, count: nat)
    requires
        count <= session::segments(bin.len()),
    ensures
        joined(bin, count) == bin.take(
            if 256 * count <= bin.len() {
                256 * count as int
            } else {
                bin.len() as int
            },
        ),
    decreases count,
{
    if count > 0 {
        lemma_joined(bin, (count - 1) as nat);
    }
    assert(joined(bin, count) =~= bin.take(
        if 256 * count <= bin.len() {
            256 * count as int
        } else {
            bin.len() as int
        },
    ));
}

/// Every request of the plan is a frame that fits.
proof fn lemma_plan_is_sound(node_id: u8, job: JobView, index: int)
    requires
        wire::addressable(node_id),
        job.image.sound(),
        0 <= index < plan(node_id, job).len(),
    ensures
        planned(node_id, job, index).sound(),
{
    let bin = job.image.bin();
    segments_cover(bin);
    if 1 <= index <= session::segments(bin.len()) {
        assert(session::segment(bin, (index - 1) as nat).len() <= 256);
    }
}

/// A device that reads the wire bytes of the plan finds the plan.
pub proof fn the_plan_is_readable(node_id: u8, job: JobView)
    requires
        wire::addressable(node_id),
        job.image.sound(),
    ensures
        AssemblerView::clean().results(assembler::stream(plan(node_id, job))) == plan(
            node_id,
            job,
        ).map_values(|frame: FrameView| Ok::<FrameView, FrameError>(frame)),
{
    let whole = plan(node_id, job);
    let bytes = assembler::stream(whole);
    let start = Seq::<u8>::empty().push(0);
    let clean = AssemblerView::clean();
    assert forall|index: int| 0 <= index < whole.len() implies (
    #[trigger] whole[index]).sound() by {
        lemma_plan_is_sound(node_id, job, index);
    }
    assembler::stream_is_reassembled(clean, Seq::empty(), whole);
    assembler::feeding_is_incremental(clean, start, bytes);
    assembler::delimiter_resynchronizes(clean, Seq::empty());
    let known = whole.map_values(|frame: FrameView| Ok::<FrameView, FrameError>(frame));
    let first = clean.results(start);
    assert(known =~= (first + known).skip(first.len() as int));
    assert(clean.results(bytes) =~= (first + clean.results(bytes)).skip(first.len() as int));
}

/// Where a request stands in the plan.
spec fn position(job: JobView, exchange: Exchange) -> int {
    let count = session::segments(job.image.bin().len()) as int;
    match exchange {
        Exchange::Segment(index) => index + 1,
        Exchange::FinalDownload => count + 1,
        Exchange::Verify => count + 2,
        _ => 0,
    }
}

/// The wire bytes of the first `count` requests of the plan.
spec fn upto(node_id: u8, job: JobView, count: int) -> Seq<u8> {
    assembler::stream(plan(node_id, job).take(count))
}

proof fn lemma_upto(node_id: u8, job: JobView, count: int)
    requires
        0 <= count < plan(node_id, job).len(),
    ensures
        upto(node_id, job, count + 1) == upto(node_id, job, count) + planned(
            node_id,
            job,
            count,
        ).encoded(),
{
    let whole = plan(node_id, job);
    assert(whole.take(count + 1).drop_last() =~= whole.take(count));
    assert(whole.take(count + 1).last() == planned(node_id, job, count));
}

/// The beginning of the plan is a beginning of its wire bytes.
proof fn lemma_upto_is_prefix(node_id: u8, job: JobView, count: int)
    requires
        0 <= count <= plan(node_id, job).len(),
    ensures
        upto(node_id, job, count).is_prefix_of(assembler::stream(plan(node_id, job))),
    decreases plan(node_id, job).len() - count,
{
    let whole = plan(node_id, job);
    if count == whole.len() {
        assert(whole.take(count) =~= whole);
    } else {
        lemma_upto(node_id, job, count);
        lemma_upto_is_prefix(node_id, job, count + 1);
        let longer = upto(node_id, job, count + 1);
        let bytes = assembler::stream(whole);
        assert(upto(node_id, job, count) =~= longer.take(upto(node_id, job, count).len() as int));
        assert(longer =~= bytes.take(longer.len() as int));
        assert(upto(node_id, job, count) =~= bytes.take(upto(node_id, job, count).len() as int));
    }
}

/// A request of a session is the one that stands at its place in the plan.
proof fn lemma_planned(session: SessionView, exchange: Exchange)
    requires
        session.can_request(exchange),
        exchange.destructive(),
    ensures
        0 <= position(session.job->0, exchange) < plan(session.node_id, session.job->0).len(),
        session.request(exchange) == planned(
            session.node_id,
            session.job->0,
            position(session.job->0, exchange),
        ),
        session.request(exchange).encoded().len() >= 8,
{
    session::lemma_request(session, exchange);
    wire::encoded_frames_are_delimited(session.request(exchange));
}

/// The bytes in the first `count` messages of a request.
spec fn taken(bytes: Seq<u8>, count: int) -> Seq<u8> {
    bytes.take(
        if 8 * count <= bytes.len() {
            8 * count
        } else {
            bytes.len() as int
        },
    )
}

proof fn lemma_taken(bytes: Seq<u8>, count: int)
    requires
        0 <= count,
    ensures
        count < can::pieces(bytes.len()) ==> taken(bytes, count) + can::piece(bytes, count as nat)
            == taken(bytes, count + 1),
        count >= can::pieces(bytes.len()) ==> taken(bytes, count) == bytes,
        taken(bytes, 0) == Seq::<u8>::empty(),
{
    if count < can::pieces(bytes.len()) {
        assert(taken(bytes, count) + can::piece(bytes, count as nat) =~= taken(bytes, count + 1));
    } else {
        assert(taken(bytes, count) =~= bytes);
    }
    assert(taken(bytes, 0) =~= Seq::<u8>::empty());
}

// ---------------------------------------------------------------------------
// One step
// ---------------------------------------------------------------------------

impl SessionView {
    /// What is to be written, or would be once the capability is redeemed.
    pub open spec fn goal(self) -> Option<JobView> {
        match self.job {
            Some(job) => Some(job),
            None => match self.ready {
                Some(prepared) => session::job_of(prepared),
                None => None,
            },
        }
    }

    /// What was handed over of the plan before the exchange of a request.
    spec fn before(self, exchange: Exchange) -> Seq<u8> {
        if exchange.destructive() {
            upto(self.node_id, self.job->0, position(self.job->0, exchange))
        } else {
            Seq::empty()
        }
    }

    /// What was handed over of the plan once a request was sent.
    spec fn past(self, exchange: Exchange) -> Seq<u8> {
        if exchange.destructive() {
            upto(self.node_id, self.job->0, position(self.job->0, exchange) + 1)
        } else {
            Seq::empty()
        }
    }

    /// What was handed over of the plan within a request, after `count` messages.
    spec fn within(self, exchange: Exchange, count: int) -> Seq<u8> {
        if exchange.destructive() {
            self.before(exchange) + taken(self.request(exchange).encoded(), count)
        } else {
            Seq::empty()
        }
    }

    /// What a session that has not ended has handed over of the plan.
    spec fn progress(self) -> Seq<u8> {
        match self.phase {
            Phase::Sending { exchange, piece, .. } => self.within(exchange, piece + 1),
            Phase::Pacing { exchange, piece, .. } => self.within(exchange, piece as int),
            Phase::Announcing { exchange, .. } => self.past(exchange),
            Phase::Listening { exchange, .. } => self.past(exchange),
            Phase::ProgressReporting { index } => self.past(Exchange::Segment(index)),
            _ => Seq::empty(),
        }
    }

    /// An identity is at hand exactly from its verification on.
    spec fn settled(self) -> bool {
        (self.identity is Some) == match self.exchange() {
            Some(exchange) => exchange.destructive(),
            None => self.phase is IdentityAnnouncing || self.phase is IdentityReporting,
        }
    }

    /// What may come of a session that has handed over `from` of the plan.
    spec fn leads_to(self, turn: Turn, from: Seq<u8>) -> bool {
        let (next, action) = turn;
        &&& next.node_id == self.node_id
        &&& next.options == self.options
        &&& next.phase is Over <==> action is Finish
        &&& !(next.phase is Over) ==> {
            &&& next.goal() == self.goal()
            &&& next.settled()
            &&& next.progress() == if action is Transmit && self.identity is Some {
                from + action->Transmit_data
            } else {
                from
            }
        }
        &&& action matches ActionView::Transmit { id, data } ==> {
            &&& id == self.tx_id()
            &&& 1 <= data.len() <= 8
            &&& self.identity is None ==> data == self.request(Exchange::Reset).encoded() || data
                == self.request(Exchange::EnterIap).encoded()
        }
        &&& !(next.phase is Over) ==> ((action == ActionView::Report(
            EventView::Stage(FlashStage::IdentityVerified),
        )) <==> (self.identity is None && next.identity is Some))
        &&& !(next.phase is Over) ==> if self.identity is Some {
            next.identity == self.identity && !(next.phase is IdentityAnnouncing)
        } else {
            next.identity is Some ==> next.phase is IdentityAnnouncing
        }
        &&& action matches ActionView::Report(EventView::IapIdentity(found)) ==> self.identity
            == Some(found)
        &&& action matches ActionView::Finish(Ok(found)) ==> {
            &&& self.verified()
            &&& self.identity == Some(found)
            &&& from == assembler::stream(plan(self.node_id, self.job->0))
        }
        &&& action matches ActionView::Finish(Err(fault)) ==> {
            &&& fault.needs_recovery() <==> from.len() > 0 && !(fault matches FlashFault::Rejected {
                stage,
                ..
            } && stage == FlashStage::StartingDownload)
            &&& fault is Cancelled ==> from.len() == 0 || exists|count: int|
                0 <= count <= plan(self.node_id, self.job->0).len() && from == #[trigger] upto(
                    self.node_id,
                    self.job->0,
                    count,
                )
        }
    }
}

/// The requests before the plan fit in one message each.
proof fn lemma_whole(session: SessionView, exchange: Exchange)
    requires
        session.can_request(exchange),
        !exchange.destructive(),
    ensures
        can::pieces(session.request(exchange).encoded().len()) == 1,
        can::piece(session.request(exchange).encoded(), 0) == session.request(exchange).encoded(),
{
    let request = session.request(exchange);
    wire::encoded_frames_are_delimited(request);
    assert(can::piece(request.encoded(), 0) =~= request.encoded());
}

proof fn lemma_transmit(session: SessionView, exchange: Exchange, attempt: u8, piece: usize)
    requires
        session.may_send(exchange, attempt),
        session.identity is Some == exchange.destructive(),
        piece < can::pieces(session.request(exchange).encoded().len()),
    ensures
        session.leads_to(
            session.transmit(exchange, attempt, piece),
            session.within(exchange, piece as int),
        ),
{
    let encoded = session.request(exchange).encoded();
    can::pieces_cover(encoded, piece as nat);
    if exchange.destructive() {
        lemma_taken(encoded, piece as int);
        assert(session.within(exchange, piece as int) + can::piece(encoded, piece as nat)
            =~= session.within(exchange, piece + 1));
    } else {
        lemma_whole(session, exchange);
    }
}

/// Nothing of a request was handed over before its first message.
proof fn lemma_within(session: SessionView, exchange: Exchange)
    requires
        session.can_request(exchange),
    ensures
        session.within(exchange, 0) == session.before(exchange),
        session.within(
            exchange,
            can::pieces(session.request(exchange).encoded().len()) as int,
        ) == session.past(exchange),
        exchange.destructive() ==> session.past(exchange).len() > 0,
        exchange.committed() ==> session.before(exchange).len() > 0,
        exchange is StartDownload ==> session.before(exchange).len() == 0,
{
    let encoded = session.request(exchange).encoded();
    lemma_taken(encoded, 0);
    lemma_taken(encoded, can::pieces(encoded.len()) as int);
    if exchange.destructive() {
        let job = session.job->0;
        let place = position(job, exchange);
        lemma_planned(session, exchange);
        lemma_upto(session.node_id, job, place);
        assert(session.within(exchange, 0) =~= session.before(exchange));
        if place > 0 {
            lemma_upto(session.node_id, job, place - 1);
            lemma_plan_is_sound(session.node_id, job, place - 1);
            wire::encoded_frames_are_delimited(planned(session.node_id, job, place - 1));
        }
    }
}

proof fn lemma_begin(session: SessionView, exchange: Exchange, reading: Reading)
    requires
        session.may_send(exchange, 0),
        session.identity is Some == exchange.destructive(),
    ensures
        session.leads_to(session.begin(exchange, reading), session.before(exchange)),
{
    session::lemma_request(session, exchange);
    lemma_within(session, exchange);
    let clean = SessionView { assembler: AssemblerView::clean(), ..session };
    lemma_transmit(clean, exchange, 0, 0);
    if exchange.destructive() {
        lemma_planned(session, exchange);
        assert(session.before(exchange) == upto(
            session.node_id,
            session.job->0,
            position(session.job->0, exchange),
        ));
    }
}

proof fn lemma_unanswered(
    session: SessionView,
    exchange: Exchange,
    attempt: u8,
    reading: Reading,
)
    requires
        session.may_send(exchange, attempt),
        session.identity is Some == exchange.destructive(),
    ensures
        session.leads_to(session.unanswered(exchange, attempt, reading), session.past(exchange)),
{
    lemma_within(session, exchange);
    if exchange is EnterIap {
        session::lemma_request(session, exchange);
        lemma_transmit(session, exchange, 0, 0);
    } else if exchange is Reset {
        session::lemma_request(session, exchange);
        if attempt + 1 < exchange.attempts_spec(session.options) {
            let clean = SessionView { assembler: AssemblerView::clean(), ..session };
            lemma_transmit(clean, exchange, (attempt + 1) as u8, 0);
        }
    }
}

proof fn lemma_listen(
    session: SessionView,
    exchange: Exchange,
    attempt: u8,
    deadline: Duration,
    reading: Reading,
)
    requires
        session.may_send(exchange, attempt),
        session.identity is Some == exchange.destructive(),
    ensures
        session.leads_to(
            session.listen(exchange, attempt, deadline, reading),
            session.past(exchange),
        ),
{
    lemma_unanswered(session, exchange, attempt, reading);
}

proof fn lemma_after_knock(session: SessionView, reading: Reading)
    requires
        session.armed(),
        session.identity is None,
    ensures
        session.leads_to(session.listen_after_knock(reading), Seq::empty()),
{
    let span = clock::shorter(
        session.options.knock_interval,
        clock::until(session.knock_deadline, reading.now),
    );
    lemma_listen(session, Exchange::EnterIap, 0, clock::later(reading.now, span), reading);
}

proof fn lemma_proceed(
    session: SessionView,
    exchange: Exchange,
    attempt: u8,
    piece: usize,
    reading: Reading,
)
    requires
        session.may_send(exchange, attempt),
        session.identity is Some == exchange.destructive(),
        1 <= piece <= can::pieces(session.request(exchange).encoded().len()),
    ensures
        session.leads_to(
            session.proceed(exchange, attempt, piece, reading),
            session.within(exchange, piece as int),
        ),
{
    lemma_within(session, exchange);
    if piece < can::pieces(session.request(exchange).encoded().len()) {
        lemma_transmit(session, exchange, attempt, piece);
    } else if exchange is EnterIap {
        lemma_after_knock(session, reading);
    }
}

proof fn lemma_write_from(session: SessionView, index: usize, reading: Reading)
    requires
        session.armed(),
        session.verified(),
        index <= session::segments(session.job->0.image.bin().len()),
    ensures
        session.leads_to(
            session.write_from(index, reading),
            upto(session.node_id, session.job->0, index + 1),
        ),
{
    if index < session::segments(session.job->0.image.bin().len()) {
        lemma_begin(session, Exchange::Segment(index), reading);
    } else {
        lemma_begin(session, Exchange::FinalDownload, reading);
    }
}

proof fn lemma_answered(
    session: SessionView,
    exchange: Exchange,
    ack: FrameView,
    reading: Reading,
)
    requires
        session.may_send(exchange, 0),
        session.identity is Some == exchange.destructive(),
    ensures
        session.leads_to(session.answered(exchange, ack, reading), session.past(exchange)),
{
    lemma_within(session, exchange);
    match exchange {
        Exchange::StartDownload => lemma_write_from(session, 0, reading),
        Exchange::FinalDownload => {
            lemma_begin(session, Exchange::Verify, reading);
        },
        Exchange::Verify => {
            let whole = plan(session.node_id, session.job->0);
            assert(whole.take(whole.len() as int) =~= whole);
        },
        _ => {},
    }
}

proof fn lemma_subscribed(session: SessionView, reading: Reading)
    requires
        session.sound(),
        session.settled(),
        session.phase is Subscribing,
    ensures
        session.leads_to(session.subscribed(reading), Seq::empty()),
{
    if let Some(prepared) = session.ready {
        if let Some(job) = session::job_of(prepared) {
            let armed = SessionView {
                ready: None,
                job: Some(job),
                assembler: AssemblerView::clean(),
                ..session
            };
            session::lemma_request(armed, Exchange::Reset);
            lemma_transmit(armed, Exchange::Reset, 0, 0);
        }
    }
}

proof fn lemma_received(session: SessionView, message: MessageView, reading: Reading)
    requires
        session.sound(),
        session.settled(),
        session.phase is Listening,
    ensures
        session.leads_to(
            session.step(ReplyView::Received(message), reading),
            session.progress(),
        ),
{
    if let Phase::Listening { exchange, attempt, deadline } = session.phase {
        let fed = SessionView { assembler: session.assembler.after_all(message.data), ..session };
        let results = session.assembler.results(message.data);
        lemma_listen(session, exchange, attempt, deadline, reading);
        lemma_listen(fed, exchange, attempt, deadline, reading);
        if let Some(ack) = session::first_match(results, session.node_id, session.ack(exchange)) {
            lemma_answered(fed, exchange, ack, reading);
        }
    }
}

proof fn lemma_step(session: SessionView, reply: ReplyView, reading: Reading)
    requires
        session.sound(),
        session.settled(),
        session.expects(reply),
    ensures
        session.leads_to(session.step(reply, reading), session.progress()),
{
    match session.phase {
        Phase::Subscribing => lemma_subscribed(session, reading),
        Phase::Sending { exchange, attempt, piece } => {
            session::lemma_request(session, exchange);
            lemma_within(session, exchange);
            if exchange is EnterIap {
                lemma_after_knock(session, reading);
            }
            lemma_proceed(session, exchange, attempt, (piece + 1) as usize, reading);
            if exchange.destructive() {
                lemma_planned(session, exchange);
            }
        },
        Phase::Pacing { exchange, attempt, piece } => lemma_proceed(
            session,
            exchange,
            attempt,
            piece,
            reading,
        ),
        Phase::Announcing { exchange, attempt } => lemma_listen(
            session,
            exchange,
            attempt,
            clock::later(reading.now, exchange.timeout_spec(session.options)),
            reading,
        ),
        Phase::Listening { exchange, attempt, deadline } => {
            lemma_within(session, exchange);
            lemma_unanswered(session, exchange, attempt, reading);
            if let ReplyView::Received(message) = reply {
                lemma_received(session, message, reading);
            }
        },
        Phase::KnockWaiting => {
            let waited = SessionView {
                knock_deadline: clock::later(reading.now, session.options.knock_window),
                ..session
            };
            session::lemma_request(waited, Exchange::EnterIap);
            lemma_transmit(waited, Exchange::EnterIap, 0, 0);
        },
        Phase::IdentityReporting => {
            lemma_within(session, Exchange::StartDownload);
            lemma_begin(session, Exchange::StartDownload, reading);
        },
        Phase::ProgressReporting { index } => lemma_write_from(
            session,
            (index + 1) as usize,
            reading,
        ),
        _ => {},
    }
}

// ---------------------------------------------------------------------------
// Whole updates
// ---------------------------------------------------------------------------

/// One reply, and what was observed when it was handled.
pub struct Input {
    pub reply: ReplyView,
    pub reading: Reading,
}

/// Where inputs lead.
pub open spec fn state(start: SessionView, inputs: Seq<Input>) -> SessionView
    decreases inputs.len(),
{
    if inputs.len() == 0 {
        start
    } else {
        state(start, inputs.drop_last()).step(inputs.last().reply, inputs.last().reading).0
    }
}

/// Whether every input is one that the session waits for.
pub open spec fn awaited(start: SessionView, inputs: Seq<Input>) -> bool
    decreases inputs.len(),
{
    inputs.len() == 0 || awaited(start, inputs.drop_last()) && state(
        start,
        inputs.drop_last(),
    ).expects(inputs.last().reply)
}

/// What the session asks for, input by input.
pub open spec fn actions(start: SessionView, inputs: Seq<Input>) -> Seq<ActionView>
    decreases inputs.len(),
{
    if inputs.len() == 0 {
        Seq::empty()
    } else {
        actions(start, inputs.drop_last()).push(
            state(start, inputs.drop_last()).step(inputs.last().reply, inputs.last().reading).1,
        )
    }
}

/// Whether the bootloader's identity was reported as verified.
pub open spec fn identified(trace: Seq<ActionView>) -> bool {
    trace.contains(ActionView::Report(EventView::Stage(FlashStage::IdentityVerified)))
}

/// The bytes handed over for sending since the identity was verified.
pub open spec fn written(trace: Seq<ActionView>) -> Seq<u8>
    decreases trace.len(),
{
    if trace.len() == 0 {
        Seq::empty()
    } else {
        match trace.last() {
            ActionView::Transmit { data, .. } => if identified(trace.drop_last()) {
                written(trace.drop_last()) + data
            } else {
                written(trace.drop_last())
            },
            _ => written(trace.drop_last()),
        }
    }
}

/// A session that has not started.
pub open spec fn begins(start: SessionView) -> bool {
    start.sound() && start.phase is Idle && start.identity is None
}

/// What a capability or an assertion starts is such a session, and its goal is
/// the image that was authorized.
pub proof fn fresh_sessions_begin(
    ready: PreparedView,
    node_id: u8,
    target: AssertedView,
    options: FlashOptions,
)
    requires
        engine::options_fault(options) is None,
    ensures
        ready.sound() ==> {
            &&& begins(session::flashing(ready, options))
            &&& session::flashing(ready, options).goal() matches Some(job) && job.image
                == ready.image
        },
        target.sound() && wire::addressable(node_id) ==> {
            &&& begins(session::recovering(node_id, target, options))
            &&& session::recovering(node_id, target, options).goal() == Some(
                JobView { device_id: target.policy.device_id, image: target.image },
            )
        },
{
}

proof fn lemma_identified(trace: Seq<ActionView>, action: ActionView)
    ensures
        identified(trace.push(action)) == (identified(trace) || action == ActionView::Report(
            EventView::Stage(FlashStage::IdentityVerified),
        )),
{
    let wanted = ActionView::Report(EventView::Stage(FlashStage::IdentityVerified));
    let longer = trace.push(action);
    if identified(trace) {
        let at = choose|at: int| 0 <= at < trace.len() && trace[at] == wanted;
        assert(longer[at] == wanted);
    }
    if action == wanted {
        assert(longer[trace.len() as int] == wanted);
    }
    if identified(longer) {
        let at = choose|at: int| 0 <= at < longer.len() && longer[at] == wanted;
        if at < trace.len() {
            assert(trace[at] == wanted);
        }
    }
}

/// What holds after any inputs.
proof fn lemma_run(start: SessionView, inputs: Seq<Input>)
    requires
        begins(start),
        awaited(start, inputs),
    ensures
        actions(start, inputs).len() == inputs.len(),
        state(start, inputs).sound(),
        state(start, inputs).node_id == start.node_id,
        state(start, inputs).options == start.options,
        state(start, inputs).phase is Over <==> inputs.len() > 0 && actions(
            start,
            inputs,
        ).last() is Finish,
        !(state(start, inputs).phase is Over) ==> {
            &&& state(start, inputs).settled()
            &&& state(start, inputs).goal() == start.goal()
            &&& identified(actions(start, inputs)) == (state(start, inputs).identity is Some)
            &&& written(actions(start, inputs)) == state(start, inputs).progress()
        },
    decreases inputs.len(),
{
    if inputs.len() > 0 {
        let fewer = inputs.drop_last();
        let last = inputs.last();
        lemma_run(start, fewer);
        let before = state(start, fewer);
        let trace = actions(start, fewer);
        let action = before.step(last.reply, last.reading).1;
        lemma_step(before, last.reply, last.reading);
        session::steps_keep_sound(before, last.reply, last.reading);
        lemma_identified(trace, action);
        assert(trace.push(action).drop_last() =~= trace);
    }
}

/// An update is one run through the plan: what is handed over once the
/// bootloader is verified is a beginning of the plan's wire bytes, so no such
/// request is ever repeated, left out or reordered. Where the update succeeds it
/// is the whole plan, the bootloader is the device, and runs the firmware, that
/// the image is for, and the outcome is the identity that it answered with.
pub proof fn updates_follow_the_plan(start: SessionView, inputs: Seq<Input>)
    requires
        begins(start),
        awaited(start, inputs),
    ensures
        start.goal() is Some,
        written(actions(start, inputs)).is_prefix_of(
            assembler::stream(plan(start.node_id, start.goal()->0)),
        ),
        inputs.len() > 0 ==> (actions(start, inputs).last() matches ActionView::Finish(
            Ok(found),
        ) ==> {
            &&& written(actions(start, inputs)) == assembler::stream(
                plan(start.node_id, start.goal()->0),
            )
            &&& found.device_id == start.goal()->0.device_id
            &&& found.firmware_id == start.goal()->0.image.firmware_id()
            &&& exists|index: int|
                0 <= index < inputs.len() && #[trigger] answers_with(
                    state(start, inputs.take(index)),
                    inputs[index].reply,
                    found,
                )
        }),
{
    lemma_run(start, inputs);
    let end = state(start, inputs);
    if !(end.phase is Over) {
        lemma_progress(end);
    } else {
        let fewer = inputs.drop_last();
        let last = inputs.last();
        let before = state(start, fewer);
        lemma_run(start, fewer);
        lemma_step(before, last.reply, last.reading);
        lemma_progress(before);
        assert(actions(start, inputs).drop_last() =~= actions(start, fewer));
        if let ActionView::Finish(Ok(found)) = actions(start, inputs).last() {
            lemma_origin(start, fewer);
            let index = choose|index: int|
                0 <= index < fewer.len() && #[trigger] answers_with(
                    state(start, fewer.take(index)),
                    fewer[index].reply,
                    found,
                );
            assert(inputs.take(index) =~= fewer.take(index));
            assert(answers_with(state(start, inputs.take(index)), inputs[index].reply, found));
        }
    }
}

/// Whether the reply to a knock completes an answer with this identity.
pub open spec fn answers_with(session: SessionView, reply: ReplyView, found: IapView) -> bool {
    &&& session.exchange() == Some(Exchange::EnterIap)
    &&& session.phase is Listening
    &&& reply matches ReplyView::Received(message)
    &&& message.classic_id() == Some(session.rx_id())
    &&& session::first_match(
        session.assembler.results(message.data),
        session.node_id,
        FunctionCode::EnterIapAck,
    ) matches Some(ack)
    &&& identity::iap_identity(ack.data) == Ok::<IapView, IdentityError>(found)
}

/// An identity comes from an answer.
proof fn lemma_identity_step(session: SessionView, reply: ReplyView, reading: Reading)
    requires
        session.sound(),
        session.settled(),
        session.expects(reply),
        session.identity is None,
    ensures
        ({
            let next = session.step(reply, reading).0;
            next.identity matches Some(found) ==> answers_with(session, reply, found)
        }),
{
}

/// The identity that a running session holds came from an answer.
proof fn lemma_origin(start: SessionView, inputs: Seq<Input>)
    requires
        begins(start),
        awaited(start, inputs),
        !(state(start, inputs).phase is Over),
    ensures
        state(start, inputs).identity matches Some(found) ==> exists|index: int|
            0 <= index < inputs.len() && #[trigger] answers_with(
                state(start, inputs.take(index)),
                inputs[index].reply,
                found,
            ),
    decreases inputs.len(),
{
    if inputs.len() > 0 {
        let fewer = inputs.drop_last();
        let last = inputs.last();
        let before = state(start, fewer);
        lemma_run(start, fewer);
        lemma_step(before, last.reply, last.reading);
        if let Some(found) = state(start, inputs).identity {
            if before.identity is None {
                lemma_identity_step(before, last.reply, last.reading);
                assert(inputs.take(inputs.len() - 1) =~= fewer);
                assert(answers_with(
                    state(start, inputs.take(inputs.len() - 1)),
                    inputs[inputs.len() - 1].reply,
                    found,
                ));
            } else {
                lemma_origin(start, fewer);
                let index = choose|index: int|
                    0 <= index < fewer.len() && #[trigger] answers_with(
                        state(start, fewer.take(index)),
                        fewer[index].reply,
                        found,
                    );
                assert(inputs.take(index) =~= fewer.take(index));
                assert(answers_with(state(start, inputs.take(index)), inputs[index].reply, found));
            }
        }
    }
}

/// What a session has handed over is a beginning of the plan.
proof fn lemma_progress(session: SessionView)
    requires
        session.sound(),
        !(session.phase is Over),
        session.goal() is Some,
    ensures
        session.progress().is_prefix_of(
            assembler::stream(plan(session.node_id, session.goal()->0)),
        ),
{
    let whole = assembler::stream(plan(session.node_id, session.goal()->0));
    assert(Seq::<u8>::empty() =~= whole.take(0));
    if let Some(exchange) = session.exchange() {
        if exchange.destructive() {
            let job = session.job->0;
            let place = position(job, exchange);
            lemma_planned(session, exchange);
            lemma_upto(session.node_id, job, place);
            lemma_upto_is_prefix(session.node_id, job, place + 1);
            let past = session.past(exchange);
            let progress = session.progress();
            assert(progress =~= past.take(progress.len() as int));
            assert(past =~= whole.take(past.len() as int));
            assert(progress =~= whole.take(progress.len() as int));
        }
    }
}

/// Every message goes to the node, and carries one to eight bytes. Until the
/// bootloader is verified each of them is a whole Reset or EnterIap request,
/// neither of which erases anything.
pub proof fn only_harmless_requests_precede_verification(
    start: SessionView,
    inputs: Seq<Input>,
    index: int,
)
    requires
        begins(start),
        awaited(start, inputs),
        0 <= index < inputs.len(),
    ensures
        actions(start, inputs)[index] matches ActionView::Transmit { id, data } ==> {
            &&& id == start.tx_id()
            &&& 1 <= data.len() <= 8
            &&& !identified(actions(start, inputs).take(index)) ==> data == start.request(
                Exchange::Reset,
            ).encoded() || data == start.request(Exchange::EnterIap).encoded()
        },
    decreases inputs.len(),
{
    let fewer = inputs.drop_last();
    let last = inputs.last();
    lemma_run(start, inputs);
    lemma_run(start, fewer);
    let trace = actions(start, fewer);
    if index < fewer.len() {
        only_harmless_requests_precede_verification(start, fewer, index);
        assert(actions(start, inputs).take(index) =~= trace.take(index));
    } else {
        lemma_step(state(start, fewer), last.reply, last.reading);
        assert(actions(start, inputs).take(index) =~= trace);
    }
}

/// The report of a bootloader that is the device, and runs the firmware, that
/// a job is for.
pub open spec fn confirms(action: ActionView, job: JobView) -> bool {
    action matches ActionView::Report(EventView::IapIdentity(found)) && found.device_id
        == job.device_id && found.firmware_id == job.image.firmware_id()
}

/// Whether such a report was made.
pub open spec fn confirmed(trace: Seq<ActionView>, job: JobView) -> bool {
    exists|index: int| 0 <= index < trace.len() && confirms(#[trigger] trace[index], job)
}

proof fn lemma_confirmed(start: SessionView, inputs: Seq<Input>)
    requires
        begins(start),
        awaited(start, inputs),
    ensures
        ({
            let end = state(start, inputs);
            !(end.phase is Over) && end.identity is Some && !(end.phase is IdentityAnnouncing)
        }) ==> confirmed(actions(start, inputs), start.goal()->0),
    decreases inputs.len(),
{
    lemma_run(start, inputs);
    if inputs.len() > 0 {
        let fewer = inputs.drop_last();
        let last = inputs.last();
        let before = state(start, fewer);
        let trace = actions(start, inputs);
        lemma_run(start, fewer);
        lemma_confirmed(start, fewer);
        lemma_step(before, last.reply, last.reading);
        let job = start.goal()->0;
        if before.phase is IdentityAnnouncing {
            assert(confirms(trace[trace.len() - 1], job));
        } else if confirmed(actions(start, fewer), job) {
            let at = choose|at: int|
                0 <= at < fewer.len() && confirms(#[trigger] actions(start, fewer)[at], job);
            assert(trace[at] == actions(start, fewer)[at]);
        }
    }
}

/// Nothing is written to a bootloader that did not show itself to be the device,
/// and to run the firmware, that the image is for; the caller is told of it.
pub proof fn nothing_is_written_unconfirmed(start: SessionView, inputs: Seq<Input>)
    requires
        begins(start),
        awaited(start, inputs),
        written(actions(start, inputs)).len() > 0,
    ensures
        confirmed(actions(start, inputs), start.goal()->0),
{
    lemma_run(start, inputs);
    lemma_confirmed(start, inputs);
    if state(start, inputs).phase is Over {
        let fewer = inputs.drop_last();
        let job = start.goal()->0;
        lemma_run(start, fewer);
        lemma_confirmed(start, fewer);
        lemma_step(state(start, fewer), inputs.last().reply, inputs.last().reading);
        assert(actions(start, inputs).drop_last() =~= actions(start, fewer));
        let at = choose|at: int|
            0 <= at < fewer.len() && confirms(#[trigger] actions(start, fewer)[at], job);
        assert(actions(start, inputs)[at] == actions(start, fewer)[at]);
    }
}

/// A failed update says that recovery is required exactly where something was
/// handed over for writing, except that a definite rejection of StartDownload
/// comes before anything is erased.
pub proof fn recovery_is_flagged_exactly(start: SessionView, inputs: Seq<Input>)
    requires
        begins(start),
        awaited(start, inputs),
        inputs.len() > 0,
    ensures
        actions(start, inputs).last() matches ActionView::Finish(Err(fault)) ==> (
        fault.needs_recovery() <==> written(actions(start, inputs)).len() > 0 && !(
        fault matches FlashFault::Rejected { stage, .. } && stage == FlashStage::StartingDownload)),
{
    lemma_run(start, inputs);
    let fewer = inputs.drop_last();
    lemma_run(start, fewer);
    lemma_step(state(start, fewer), inputs.last().reply, inputs.last().reading);
    assert(actions(start, inputs).drop_last() =~= actions(start, fewer));
}

/// Cancellation falls between requests: what was handed over by then is a whole
/// number of requests of the plan.
pub proof fn cancellation_never_splits_a_request(start: SessionView, inputs: Seq<Input>)
    requires
        begins(start),
        awaited(start, inputs),
        inputs.len() > 0,
    ensures
        actions(start, inputs).last() matches ActionView::Finish(Err(fault)) ==> (
        fault is Cancelled ==> exists|count: int|
            0 <= count <= plan(start.node_id, start.goal()->0).len() && written(
                actions(start, inputs),
            ) == assembler::stream(#[trigger] plan(start.node_id, start.goal()->0).take(count))),
{
    lemma_run(start, inputs);
    let fewer = inputs.drop_last();
    let before = state(start, fewer);
    lemma_run(start, fewer);
    lemma_step(before, inputs.last().reply, inputs.last().reading);
    assert(actions(start, inputs).drop_last() =~= actions(start, fewer));
    if let ActionView::Finish(Err(FlashFault::Cancelled { .. })) = actions(start, inputs).last() {
        let whole = plan(start.node_id, start.goal()->0);
        let bytes = written(actions(start, inputs));
        if bytes.len() == 0 {
            assert(bytes =~= assembler::stream(whole.take(0)));
        } else {
            let job = before.job->0;
            let count = choose|count: int|
                0 <= count <= plan(before.node_id, job).len() && bytes == #[trigger] upto(
                    before.node_id,
                    job,
                    count,
                );
            assert(bytes == assembler::stream(whole.take(count)));
        }
    }
}

/// An update ends once: nothing is awaited after its end, and nothing but the
/// last action is an end.
pub proof fn updates_end_once(start: SessionView, inputs: Seq<Input>, index: int)
    requires
        begins(start),
        awaited(start, inputs),
        0 <= index < inputs.len(),
        actions(start, inputs)[index] is Finish,
    ensures
        index == inputs.len() - 1,
        forall|reply: ReplyView| !state(start, inputs).expects(reply),
    decreases inputs.len(),
{
    lemma_run(start, inputs);
    if index < inputs.len() - 1 {
        let fewer = inputs.drop_last();
        lemma_run(start, fewer);
        assert(actions(start, inputs)[index] == actions(start, fewer)[index]);
        updates_end_once(start, fewer, index);
        assert(!state(start, fewer).expects(inputs.last().reply));
    }
}

/// Every update subscribes to the node's answers before it sends anything.
pub proof fn nothing_is_sent_unsubscribed(start: SessionView, inputs: Seq<Input>, index: int)
    requires
        begins(start),
        awaited(start, inputs),
        0 <= index < inputs.len(),
        actions(start, inputs)[index] is Transmit,
    ensures
        1 <= index,
        actions(start, inputs)[0] == (ActionView::Subscribe { id: start.rx_id() }),
    decreases inputs.len(),
{
    let fewer = inputs.drop_last();
    lemma_run(start, inputs);
    lemma_run(start, fewer);
    if index < fewer.len() {
        assert(actions(start, inputs)[index] == actions(start, fewer)[index]);
        nothing_is_sent_unsubscribed(start, fewer, index);
    } else if inputs.len() == 1 {
        assert(state(start, fewer) == start);
    } else {
        lemma_subscribes(start, fewer);
    }
}

/// An update that is still running has subscribed.
proof fn lemma_subscribes(start: SessionView, inputs: Seq<Input>)
    requires
        begins(start),
        awaited(start, inputs),
        inputs.len() > 0,
        !(state(start, inputs).phase is Over),
    ensures
        actions(start, inputs)[0] == (ActionView::Subscribe { id: start.rx_id() }),
    decreases inputs.len(),
{
    let fewer = inputs.drop_last();
    lemma_run(start, fewer);
    if inputs.len() > 1 {
        lemma_subscribes(start, fewer);
    } else {
        assert(state(start, fewer) == start);
    }
}

/// The first two inputs of an update with a capability that is still running.
proof fn lemma_opening(start: SessionView, inputs: Seq<Input>)
    requires
        begins(start),
        start.ready is Some,
        awaited(start, inputs),
        inputs.len() >= 2,
        !(state(start, inputs).phase is Over),
    ensures
        !inputs[0].reading.cancelled,
        inputs[1].reply is Done,
        !inputs[1].reading.cancelled,
        inputs[1].reading.age.nanos <= READY_TTL_NANOS,
        actions(start, inputs)[0] == (ActionView::Subscribe { id: start.rx_id() }),
        actions(start, inputs)[1] == (ActionView::Transmit {
            id: start.tx_id(),
            data: start.request(Exchange::Reset).encoded(),
        }),
    decreases inputs.len(),
{
    let fewer = inputs.drop_last();
    lemma_run(start, fewer);
    if inputs.len() > 2 {
        lemma_opening(start, fewer);
    } else {
        assert(fewer.drop_last().len() == 0);
        assert(state(start, fewer.drop_last()) == start);
        assert(state(start, fewer) == start.step(inputs[0].reply, inputs[0].reading).0);
        lemma_whole(start, Exchange::Reset);
    }
}

/// An update with a capability sends nothing before the subscription stands,
/// nothing if it is cancelled by then, and nothing if the capability is then
/// more than two seconds old. Its first message is the Reset request.
pub proof fn sending_takes_a_fresh_capability(
    start: SessionView,
    inputs: Seq<Input>,
    index: int,
)
    requires
        begins(start),
        start.ready is Some,
        awaited(start, inputs),
        0 <= index < inputs.len(),
        actions(start, inputs)[index] is Transmit,
    ensures
        1 <= index,
        !inputs[0].reading.cancelled,
        inputs[1].reply is Done,
        !inputs[1].reading.cancelled,
        inputs[1].reading.age.nanos <= READY_TTL_NANOS,
        actions(start, inputs)[0] == (ActionView::Subscribe { id: start.rx_id() }),
        actions(start, inputs)[1] == (ActionView::Transmit {
            id: start.tx_id(),
            data: start.request(Exchange::Reset).encoded(),
        }),
    decreases inputs.len(),
{
    let fewer = inputs.drop_last();
    lemma_run(start, inputs);
    lemma_run(start, fewer);
    if index < fewer.len() {
        assert(actions(start, inputs)[index] == actions(start, fewer)[index]);
        sending_takes_a_fresh_capability(start, fewer, index);
    } else if inputs.len() == 1 {
        assert(state(start, fewer) == start);
    } else {
        lemma_opening(start, inputs);
    }
}

/// How many whole Reset requests were handed over before the bootloader was
/// verified.
pub open spec fn resets(trace: Seq<ActionView>, request: Seq<u8>) -> nat
    decreases trace.len(),
{
    if trace.len() == 0 {
        0
    } else {
        let rest = resets(trace.drop_last(), request);
        match trace.last() {
            ActionView::Transmit { data, .. } => if data == request && !identified(
                trace.drop_last(),
            ) {
                rest + 1
            } else {
                rest
            },
            _ => rest,
        }
    }
}

/// The Reset and EnterIap requests differ on the wire.
proof fn lemma_requests_differ(session: SessionView)
    requires
        wire::addressable(session.node_id),
    ensures
        session.request(Exchange::Reset).encoded() != session.request(
            Exchange::EnterIap,
        ).encoded(),
{
    wire::frame_round_trip(session.request(Exchange::Reset));
    wire::frame_round_trip(session.request(Exchange::EnterIap));
}

/// How the attempts at a Reset are counted.
proof fn lemma_reset_step(session: SessionView, reply: ReplyView, reading: Reading)
    requires
        session.sound(),
        session.settled(),
        session.expects(reply),
    ensures
        ({
            let (next, action) = session.step(reply, reading);
            next.exchange() == Some(Exchange::Reset) ==> if session.phase is Subscribing {
                action is Transmit && session.ready is Some && next.attempt() == 0
            } else {
                &&& session.exchange() == Some(Exchange::Reset)
                &&& next.attempt() == session.attempt() + if action is Transmit {
                    1int
                } else {
                    0
                }
            }
        }),
        ({
            let (next, action) = session.step(reply, reading);
            action is Transmit ==> next.phase is Sending
        }),
        ({
            let (next, action) = session.step(reply, reading);
            action matches ActionView::Transmit { data, .. } ==> (session.identity is None ==> (
            next.exchange() == Some(Exchange::Reset) || next.exchange() == Some(
                Exchange::EnterIap,
            )) && data == session.request(next.exchange()->0).encoded())
        }),
{
    lemma_step(session, reply, reading);
    lemma_whole(session, Exchange::Reset);
    lemma_whole(session, Exchange::EnterIap);
}

proof fn lemma_resets(start: SessionView, inputs: Seq<Input>)
    requires
        begins(start),
        awaited(start, inputs),
    ensures
        ({
            let count = resets(
                actions(start, inputs),
                start.request(Exchange::Reset).encoded(),
            );
            let end = state(start, inputs);
            &&& count <= start.options.reset_attempts
            &&& start.ready is None ==> count == 0 && end.exchange() != Some(Exchange::Reset)
            &&& (end.phase is Idle || end.phase is Subscribing) ==> count == 0 && end.ready
                == start.ready
            &&& end.exchange() == Some(Exchange::Reset) ==> count == end.attempt() + 1
        }),
    decreases inputs.len(),
{
    lemma_run(start, inputs);
    if inputs.len() > 0 {
        let fewer = inputs.drop_last();
        let last = inputs.last();
        let before = state(start, fewer);
        lemma_run(start, fewer);
        lemma_resets(start, fewer);
        lemma_reset_step(before, last.reply, last.reading);
        lemma_requests_differ(start);
        assert(actions(start, inputs).drop_last() =~= actions(start, fewer));
        assert(before.request(Exchange::Reset) == start.request(Exchange::Reset));
        assert(before.request(Exchange::EnterIap) == start.request(Exchange::EnterIap));
    }
}

/// The Reset request is sent at most as often as the options allow, and never
/// to a device that is recovered.
pub proof fn resets_are_bounded(start: SessionView, inputs: Seq<Input>)
    requires
        begins(start),
        awaited(start, inputs),
    ensures
        resets(actions(start, inputs), start.request(Exchange::Reset).encoded())
            <= start.options.reset_attempts,
        start.ready is None ==> resets(
            actions(start, inputs),
            start.request(Exchange::Reset).encoded(),
        ) == 0,
{
    lemma_resets(start, inputs);
}

/// Inputs that bring `frame` to a session, message by message.
pub open spec fn deliveries(
    session: SessionView,
    frame: FrameView,
    readings: Seq<Reading>,
) -> Seq<Input> {
    Seq::new(
        readings.len(),
        |index: int|
            Input {
                reply: ReplyView::Received(
                    MessageView {
                        id: MessageId::Standard(session.rx_id()),
                        fd: false,
                        remote: false,
                        data: can::piece(frame.encoded(), index as nat),
                    },
                ),
                reading: readings[index],
            },
    )
}

proof fn lemma_deliveries(session: SessionView, frame: FrameView, readings: Seq<Reading>)
    requires
        session.phase is Listening,
        session.assembler == AssemblerView::clean(),
        frame.sound(),
        readings.len() < can::pieces(frame.encoded().len()),
        forall|index: int|
            0 <= index < readings.len() ==> (#[trigger] readings[index]).now.nanos
                < session.phase->deadline.nanos,
    ensures
        awaited(session, deliveries(session, frame, readings)),
        state(session, deliveries(session, frame, readings)) == (SessionView {
            assembler: AssemblerView {
                encoded: taken(frame.encoded(), readings.len() as int),
                discarding: false,
            },
            ..session
        }),
    decreases readings.len(),
{
    let encoded = frame.encoded();
    wire::encoded_frames_are_delimited(frame);
    if readings.len() == 0 {
        lemma_taken(encoded, 0);
    } else {
        let fewer = readings.drop_last();
        let count = fewer.len() as int;
        let inputs = deliveries(session, frame, readings);
        assert forall|index: int| 0 <= index < fewer.len() implies (
        #[trigger] fewer[index]).now.nanos < session.phase->deadline.nanos by {
            assert(fewer[index] == readings[index]);
        }
        lemma_deliveries(session, frame, fewer);
        assert(inputs.drop_last() =~= deliveries(session, frame, fewer));
        let before = state(session, inputs.drop_last());
        let data = can::piece(encoded, count as nat);
        lemma_taken(encoded, count);
        let sent = taken(encoded, count);
        let longer = taken(encoded, count + 1);
        assert(longer =~= encoded.drop_last().take(longer.len() as int));
        assert(sent =~= encoded.drop_last().take(sent.len() as int));
        assembler::lemma_accumulates(sent);
        assembler::lemma_accumulates(longer);
        assembler::feeding_is_incremental(AssemblerView::clean(), sent, data);
        let results = before.assembler.results(data);
        assert((Seq::<Result<FrameView, FrameError>>::empty() + results).len() == 0);
        assert(results.len() == 0);
        assert(readings.last() == readings[count]);
        assert(inputs.last().reading == readings[count]);
    }
}

/// An acknowledgement that comes in full before the deadline is recognized,
/// however many messages it takes.
pub proof fn timely_answers_count(session: SessionView, ack: FrameView, readings: Seq<Reading>)
    requires
        session.phase is Listening,
        session.assembler == AssemblerView::clean(),
        ack.sound(),
        ack.node_id == session.node_id,
        ack.function == session.ack(session.phase->Listening_exchange),
        readings.len() == can::pieces(ack.encoded().len()),
        forall|index: int|
            0 <= index < readings.len() ==> (#[trigger] readings[index]).now.nanos
                < session.phase->deadline.nanos,
    ensures
        awaited(session, deliveries(session, ack, readings)),
        state(session, deliveries(session, ack, readings)) == session.answered(
            session.phase->Listening_exchange,
            ack,
            readings.last(),
        ).0,
        actions(session, deliveries(session, ack, readings)).last() == session.answered(
            session.phase->Listening_exchange,
            ack,
            readings.last(),
        ).1,
{
    let encoded = ack.encoded();
    wire::encoded_frames_are_delimited(ack);
    let fewer = readings.drop_last();
    let count = fewer.len() as int;
    let inputs = deliveries(session, ack, readings);
    assert forall|index: int| 0 <= index < fewer.len() implies (#[trigger] fewer[index]).now.nanos
        < session.phase->deadline.nanos by {
        assert(fewer[index] == readings[index]);
    }
    lemma_deliveries(session, ack, fewer);
    assert(inputs.drop_last() =~= deliveries(session, ack, fewer));
    let before = state(session, inputs.drop_last());
    let data = can::piece(encoded, count as nat);
    let sent = taken(encoded, count);
    lemma_taken(encoded, count);
    lemma_taken(encoded, count + 1);
    assert(sent =~= encoded.drop_last().take(sent.len() as int));
    assembler::lemma_accumulates(sent);
    assembler::feeding_is_incremental(AssemblerView::clean(), sent, data);
    assembler::frame_is_reassembled(ack);
    let results = before.assembler.results(data);
    assert(results =~= Seq::<Result<FrameView, FrameError>>::empty() + results);
    assert(results == seq![Ok::<FrameView, FrameError>(ack)]);
    assert(results[0] == Ok::<FrameView, FrameError>(ack));
    assert(SessionView { assembler: before.assembler.after_all(data), ..before } == session);
}

} // verus!
