//! Every update that may start can succeed.

use vstd::prelude::*;

use crate::assembler::AssemblerView;
use crate::can;
use crate::clock;
use crate::clock::Duration;
use crate::engine;
use crate::engine::FlashOptions;
use crate::guarantees;
use crate::guarantees::Input;
use crate::identity;
use crate::identity::IapView;
use crate::session;
use crate::session::{ActionView, Exchange, Phase, Reading, ReplyView, SessionView};
use crate::wire;
use crate::wire::FrameView;

verus! {

/// Options that leave some time for every answer.
pub open spec fn patient(options: FlashOptions) -> bool {
    &&& options.knock_window.nanos > 0
    &&& options.reset_timeout.nanos > 0
    &&& options.start_timeout.nanos > 0
    &&& options.segment_timeout.nanos > 0
    &&& options.final_timeout.nanos > 0
    &&& options.verify_timeout.nanos > 0
}

/// Whether some replies make a session end with this identity.
pub open spec fn can_succeed(session: SessionView, found: IapView) -> bool {
    exists|inputs: Seq<Input>| #[trigger]
        guarantees::awaited(session, inputs) && inputs.len() > 0 && guarantees::actions(
            session,
            inputs,
        ).last() == ActionView::Finish(Ok(found))
}

/// A reading at the origin of the clock, with nothing against going on.
spec fn calm() -> Reading {
    Reading { now: Duration { nanos: 0 }, cancelled: false, age: Duration { nanos: 0 } }
}

/// Inputs after inputs.
proof fn lemma_append(session: SessionView, first: Seq<Input>, second: Seq<Input>)
    requires
        guarantees::awaited(session, first),
        guarantees::awaited(guarantees::state(session, first), second),
    ensures
        guarantees::awaited(session, first + second),
        guarantees::state(session, first + second) == guarantees::state(
            guarantees::state(session, first),
            second,
        ),
        second.len() > 0 ==> guarantees::actions(session, first + second).last()
            == guarantees::actions(guarantees::state(session, first), second).last(),
    decreases second.len(),
{
    if second.len() == 0 {
        assert(first + second =~= first);
    } else {
        lemma_append(session, first, second.drop_last());
        assert((first + second).drop_last() =~= first + second.drop_last());
    }
}

/// What can succeed after some inputs can succeed before them.
proof fn lemma_before(session: SessionView, inputs: Seq<Input>, found: IapView)
    requires
        guarantees::awaited(session, inputs),
        can_succeed(guarantees::state(session, inputs), found),
    ensures
        can_succeed(session, found),
{
    let later = guarantees::state(session, inputs);
    let rest = choose|rest: Seq<Input>| #[trigger]
        guarantees::awaited(later, rest) && rest.len() > 0 && guarantees::actions(
            later,
            rest,
        ).last() == ActionView::Finish(Ok(found));
    lemma_append(session, inputs, rest);
    assert(guarantees::awaited(session, inputs + rest));
}

/// What can succeed after an action was done can succeed before it.
proof fn lemma_done(session: SessionView, found: IapView)
    requires
        session.expects(ReplyView::Done),
        can_succeed(session.step(ReplyView::Done, calm()).0, found),
    ensures
        can_succeed(session, found),
{
    let inputs = seq![Input { reply: ReplyView::Done, reading: calm() }];
    assert(inputs.drop_last() =~= Seq::empty());
    assert(guarantees::awaited(session, inputs.drop_last()));
    assert(guarantees::state(session, inputs.drop_last()) == session);
    lemma_before(session, inputs, found);
}

/// Sending the rest of a request leads to what follows it.
proof fn lemma_sending(session: SessionView, found: IapView)
    requires
        session.sound(),
        session.phase matches Phase::Sending { exchange, attempt, piece } && {
            let count = can::pieces(session.request(exchange).encoded().len()) as usize;
            can_succeed(session.proceed(exchange, attempt, count, calm()).0, found)
        },
    ensures
        can_succeed(session, found),
    decreases
            can::pieces(session.request(session.phase->Sending_exchange).encoded().len())
                - session.phase->Sending_piece,
{
    if let Phase::Sending { exchange, attempt, piece } = session.phase {
        session::lemma_request(session, exchange);
        let next = (piece + 1) as usize;
        let after = session.step(ReplyView::Done, calm()).0;
        session::steps_keep_sound(session, ReplyView::Done, calm());
        let onward = session.proceed(exchange, attempt, next, calm()).0;
        if after.phase is Pacing {
            session::steps_keep_sound(after, ReplyView::Done, calm());
            assert(after.step(ReplyView::Done, calm()).0 == onward);
        }
        if next < can::pieces(session.request(exchange).encoded().len()) {
            lemma_sending(onward, found);
        }
        if after.phase is Pacing {
            lemma_done(after, found);
        }
        lemma_done(session, found);
    }
}

/// An answer leads to what follows it.
proof fn lemma_answer(session: SessionView, ack: FrameView, found: IapView)
    requires
        session.phase matches Phase::Listening { exchange, deadline, .. } && {
            &&& deadline.nanos > 0
            &&& ack.function == session.ack(exchange)
            &&& can_succeed(session.answered(exchange, ack, calm()).0, found)
        },
        session.assembler == AssemblerView::clean(),
        ack.sound(),
        ack.node_id == session.node_id,
    ensures
        can_succeed(session, found),
{
    wire::encoded_frames_are_delimited(ack);
    let readings = Seq::new(can::pieces(ack.encoded().len()), |index: int| calm());
    guarantees::timely_answers_count(session, ack, readings);
    lemma_before(session, guarantees::deliveries(session, ack, readings), found);
}

/// The answer that lets an update go on.
spec fn consent(session: SessionView, exchange: Exchange) -> FrameView {
    FrameView {
        node_id: session.node_id,
        function: session.ack(exchange),
        data: engine::success(),
    }
}

/// Whether a session is about to send the first message of a request.
spec fn opens(session: SessionView, exchange: Exchange) -> bool {
    &&& session.sound()
    &&& session.phase == (Phase::Sending { exchange, attempt: 0, piece: 0 })
    &&& session.assembler == AssemblerView::clean()
    &&& patient(session.options)
}

/// A request that is accepted leads to what follows it.
proof fn lemma_accepted(session: SessionView, exchange: Exchange, found: IapView)
    requires
        opens(session, exchange),
        !(exchange is EnterIap),
        !(exchange is Verify),
        can_succeed(session.answered(exchange, consent(session, exchange), calm()).0, found),
    ensures
        can_succeed(session, found),
{
    let ack = consent(session, exchange);
    let deadline = exchange.timeout_spec(session.options);
    let listening = SessionView {
        phase: Phase::Listening { exchange, attempt: 0, deadline },
        ..session
    };
    assert(listening.answered(exchange, ack, calm()).0 == session.answered(
        exchange,
        ack,
        calm(),
    ).0);
    lemma_answer(listening, ack, found);
    lemma_sent(session, exchange, found);
}

/// Listening for the answer comes after a request was sent.
proof fn lemma_sent(session: SessionView, exchange: Exchange, found: IapView)
    requires
        opens(session, exchange),
        !(exchange is EnterIap),
        can_succeed(
            SessionView {
                phase: Phase::Listening {
                    exchange,
                    attempt: 0,
                    deadline: exchange.timeout_spec(session.options),
                },
                ..session
            },
            found,
        ),
    ensures
        can_succeed(session, found),
{
    let deadline = exchange.timeout_spec(session.options);
    let listening = SessionView {
        phase: Phase::Listening { exchange, attempt: 0, deadline },
        ..session
    };
    let announcing = SessionView {
        phase: Phase::Announcing { exchange, attempt: 0 },
        ..session
    };
    assert(clock::later(calm().now, deadline) == deadline);
    assert(announcing.step(ReplyView::Done, calm()).0 == listening);
    lemma_done(announcing, found);
    session::lemma_request(session, exchange);
    lemma_sending(session, found);
}

proof fn lemma_verify(session: SessionView, found: IapView)
    requires
        opens(session, Exchange::Verify),
        session.identity == Some(found),
    ensures
        can_succeed(session, found),
{
    let exchange = Exchange::Verify;
    let ack = consent(session, exchange);
    let deadline = exchange.timeout_spec(session.options);
    let listening = SessionView {
        phase: Phase::Listening { exchange, attempt: 0, deadline },
        ..session
    };
    wire::encoded_frames_are_delimited(ack);
    let readings = Seq::new(can::pieces(ack.encoded().len()), |index: int| calm());
    let inputs = guarantees::deliveries(listening, ack, readings);
    guarantees::timely_answers_count(listening, ack, readings);
    assert(guarantees::awaited(listening, inputs));
    assert(readings.last() == calm());
    lemma_sent(session, exchange, found);
}

proof fn lemma_final(session: SessionView, found: IapView)
    requires
        opens(session, Exchange::FinalDownload),
        session.identity == Some(found),
    ensures
        can_succeed(session, found),
{
    let exchange = Exchange::FinalDownload;
    let next = session.answered(exchange, consent(session, exchange), calm()).0;
    session::lemma_request(session, Exchange::Verify);
    lemma_verify(next, found);
    lemma_accepted(session, exchange, found);
}

proof fn lemma_segment(session: SessionView, index: usize, found: IapView)
    requires
        opens(session, Exchange::Segment(index)),
        session.identity == Some(found),
    ensures
        can_succeed(session, found),
    decreases session::segments(session.job->0.image.bin().len()) - index,
{
    let exchange = Exchange::Segment(index);
    let reported = session.answered(exchange, consent(session, exchange), calm()).0;
    let after = (index + 1) as usize;
    let next = reported.write_from(after, calm()).0;
    if after < session::segments(session.job->0.image.bin().len()) {
        session::lemma_request(session, Exchange::Segment(after));
        lemma_segment(next, after, found);
    } else {
        session::lemma_request(session, Exchange::FinalDownload);
        lemma_final(next, found);
    }
    assert(reported.step(ReplyView::Done, calm()).0 == next);
    lemma_done(reported, found);
    lemma_accepted(session, exchange, found);
}

proof fn lemma_start(session: SessionView, found: IapView)
    requires
        opens(session, Exchange::StartDownload),
        session.identity == Some(found),
    ensures
        can_succeed(session, found),
{
    let exchange = Exchange::StartDownload;
    let next = session.answered(exchange, consent(session, exchange), calm()).0;
    session::lemma_request(session, Exchange::Segment(0));
    lemma_segment(next, 0, found);
    lemma_accepted(session, exchange, found);
}

/// Knocking leads to a bootloader that answers with `payload`.
proof fn lemma_knocking(session: SessionView, payload: Seq<u8>, found: IapView)
    requires
        session.sound(),
        session.phase is KnockAnnouncing,
        session.identity is None,
        session.assembler == AssemblerView::clean(),
        patient(session.options),
        identity::iap_identity(payload) == Ok::<IapView, identity::IdentityError>(found),
        found.device_id == session.job->0.device_id,
        found.firmware_id == session.job->0.image.firmware_id(),
    ensures
        can_succeed(session, found),
{
    let exchange = Exchange::EnterIap;
    let waiting = session.step(ReplyView::Done, calm()).0;
    let knocked = waiting.step(ReplyView::Done, calm()).0;
    session::lemma_request(session, exchange);
    let span = clock::shorter(session.options.knock_interval, session.options.knock_window);
    let listening = SessionView {
        phase: Phase::Listening { exchange, attempt: 0, deadline: span },
        ..knocked
    };
    assert(clock::until(knocked.knock_deadline, calm().now) == session.options.knock_window);
    assert(knocked.listen_after_knock(calm()).0 == listening);
    let ack = FrameView { node_id: session.node_id, function: session.ack(exchange), data: payload };
    let announced = listening.answered(exchange, ack, calm()).0;
    let reporting = announced.step(ReplyView::Done, calm()).0;
    let started = reporting.step(ReplyView::Done, calm()).0;
    session::lemma_request(announced, Exchange::StartDownload);
    lemma_start(started, found);
    lemma_done(reporting, found);
    lemma_done(announced, found);
    lemma_answer(listening, ack, found);
    lemma_sending(knocked, found);
    lemma_done(waiting, found);
    lemma_done(session, found);
}

/// Every update that may start can succeed: where the options leave time to
/// answer, and the bootloader shows itself to be the device, and to run the
/// firmware, that the image is for, some replies lead to success.
pub proof fn updates_can_succeed(start: SessionView, payload: Seq<u8>, found: IapView)
    requires
        guarantees::begins(start),
        start.assembler == AssemblerView::clean(),
        patient(start.options),
        identity::iap_identity(payload) == Ok::<IapView, identity::IdentityError>(found),
        found.device_id == start.goal()->0.device_id,
        found.firmware_id == start.goal()->0.image.firmware_id(),
    ensures
        can_succeed(start, found),
{
    let subscribing = start.step(ReplyView::Done, calm()).0;
    let opened = subscribing.step(ReplyView::Done, calm()).0;
    session::steps_keep_sound(start, ReplyView::Done, calm());
    session::steps_keep_sound(subscribing, ReplyView::Done, calm());
    if start.ready is None {
        lemma_knocking(opened, payload, found);
    } else {
        let exchange = Exchange::Reset;
        let next = opened.answered(exchange, consent(opened, exchange), calm()).0;
        lemma_knocking(next, payload, found);
        lemma_accepted(opened, exchange, found);
    }
    lemma_done(subscribing, found);
    lemma_done(start, found);
}

} // verus!
