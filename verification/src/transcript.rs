//! What a parser is asked and a receiver is sent in the course of a whole response: the laws of
//! the pump. They hold for every parser of payloads.

use crate::delta::{Delta, StopReason};
use crate::error::HttpFault;
use crate::sse::{self, Delivery, Pump, PumpPhase, Step, NEWLINE};
use crate::text;
use vstd::prelude::*;

verus! {

/// A parser of payloads: the event of the turn that a payload stands for, if any. What OpenAI's
/// and Anthropic's payloads stand for are two of them.
pub type Parser = spec_fn(Seq<char>) -> Option<Delta>;

/// How a response ends.
pub enum Ending {
    /// As it should.
    Over,
    /// It breaks off, for this reason.
    Broken(Seq<char>),
    /// The receiver is gone, and the response is not read any further.
    Abandoned,
}

/// The course of a response.
#[verifier::ext_equal]
pub struct Course {
    /// The payloads that the parser is asked about, in order.
    pub asked: Seq<Seq<char>>,
    /// The deltas that are sent to the receiver, in order. It refuses none but the last.
    pub sent: Seq<Delta>,
    /// What the pump returns.
    pub outcome: Result<bool, HttpFault>,
}

/// The payloads of the events of a response, in order. `event` is the payload of the event
/// that is being read where `bytes` begin. If the response is over, the event that its end cuts
/// short counts as well.
pub open spec fn payloads(bytes: Seq<u8>, event: Seq<char>, over: bool) -> Seq<Seq<char>>
    decreases bytes.len(),
{
    match bytes.index_of_first(NEWLINE) {
        Some(end) => {
            proof {
                bytes.index_of_first_ensures(NEWLINE);
            }
            let line = sse::line_text(bytes.take(end + 1));
            let rest = bytes.skip(end + 1);
            if line.len() > 0 {
                payloads(rest, sse::with_line(event, line), over)
            } else {
                seq![event] + payloads(rest, Seq::empty(), over)
            }
        },
        None => if over {
            seq![sse::with_line(event, sse::line_text(bytes))]
        } else {
            Seq::empty()
        },
    }
}

/// The payloads that are not blank, without the white space around them.
pub open spec fn filled(payloads: Seq<Seq<char>>) -> Seq<Seq<char>>
    decreases payloads.len(),
{
    if payloads.len() == 0 {
        Seq::empty()
    } else {
        let data = text::trimmed(payloads.first());
        let rest = filled(payloads.drop_first());
        if data.len() > 0 {
            seq![data] + rest
        } else {
            rest
        }
    }
}

/// The course of a turn with these payloads, for a receiver that takes `capacity` deltas. Each
/// payload is asked about, and what it stands for is sent, up to the first delta that ends the
/// turn or is refused. An error that was taken is followed by the end of the turn as aborted.
/// `otherwise` is what is returned of a turn that is not ended.
pub open spec fn turn(
    parser: Parser,
    payloads: Seq<Seq<char>>,
    capacity: nat,
    otherwise: Result<bool, HttpFault>,
) -> Course
    decreases payloads.len(),
{
    if payloads.len() == 0 {
        Course { asked: Seq::empty(), sent: Seq::empty(), outcome: otherwise }
    } else {
        let data = payloads.first();
        let rest = payloads.drop_first();
        match parser(data) {
            None => after_asking(data, turn(parser, rest, capacity, otherwise)),
            Some(delta) => after_asking(
                data,
                if capacity == 0 || delta is Done {
                    Course { asked: Seq::empty(), sent: seq![delta], outcome: Ok(true) }
                } else if delta is Error {
                    Course {
                        asked: Seq::empty(),
                        sent: seq![delta, Delta::Done(StopReason::Aborted)],
                        outcome: Ok(true),
                    }
                } else {
                    after_sending(delta, turn(parser, rest, (capacity - 1) as nat, otherwise))
                },
            ),
        }
    }
}

/// A course that starts with asking about a payload.
pub open spec fn after_asking(data: Seq<char>, course: Course) -> Course {
    Course { asked: seq![data] + course.asked, ..course }
}

/// A course that starts with sending a delta.
pub open spec fn after_sending(delta: Delta, course: Course) -> Course {
    Course { sent: seq![delta] + course.sent, ..course }
}

/// How many more deltas a receiver takes after it was sent one.
pub open spec fn one_less(capacity: nat) -> nat {
    if capacity > 0 {
        (capacity - 1) as nat
    } else {
        0
    }
}

/// The order in which a pump asks for things between two chunks.
pub open spec fn rank(pump: Pump, step: Step) -> int {
    match step {
        Step::Parse(_) => 3,
        Step::Send(_) => if pump.phase == PumpPhase::Sending(Delivery::Failed) {
            2
        } else {
            1
        },
        _ => 0,
    }
}

/// Parses and sends what the pump asks for until it asks for something else. The receiver takes
/// `capacity` deltas and is gone then. Gives what was asked and sent, the pump, what it asks
/// for, and how much the receiver would still take.
pub open spec fn served(pump: Pump, step: Step, parser: Parser, capacity: nat) -> (
    Seq<Seq<char>>,
    Seq<Delta>,
    Pump,
    Step,
    nat,
)
    decreases pump.buf.len(), rank(pump, step),
{
    match step {
        Step::Parse(data) => {
            proof {
                lemma_resumed_shrinks(pump);
            }
            let (pump, step) = sse::after_parse(pump, parser(data));
            let (asked, sent, pump, step, left) = served(pump, step, parser, capacity);
            (seq![data] + asked, sent, pump, step, left)
        },
        Step::Send(delta) => {
            proof {
                lemma_resumed_shrinks(pump);
            }
            let (pump, step) = sse::after_send(pump, capacity > 0);
            let (asked, sent, pump, step, left) = served(pump, step, parser, one_less(capacity));
            (asked, seq![delta] + sent, pump, step, left)
        },
        _ => (Seq::empty(), Seq::empty(), pump, step, capacity),
    }
}

/// What a pump does when there is nothing more to read.
pub open spec fn after_ending(pump: Pump, ending: Ending) -> (Pump, Step) {
    match ending {
        Ending::Over => sse::after_end(pump),
        Ending::Broken(message) => sse::after_chunk(pump, false, Err(message)),
        Ending::Abandoned => sse::after_chunk(pump, true, Ok(Seq::empty())),
    }
}

/// Drives a pump to its end over a response that arrives in `chunks`, for a receiver that
/// takes `capacity` deltas.
pub open spec fn driven(
    pump: Pump,
    parser: Parser,
    chunks: Seq<Seq<u8>>,
    ending: Ending,
    capacity: nat,
) -> Course
    decreases chunks.len(),
{
    let (pump, step) = if chunks.len() == 0 {
        after_ending(pump, ending)
    } else {
        sse::after_chunk(pump, false, Ok(chunks.first()))
    };
    let (asked, sent, pump, step, left) = served(pump, step, parser, capacity);
    match step {
        Step::Return(outcome) => Course { asked, sent, outcome },
        _ => if chunks.len() == 0 {
            Course { asked, sent, outcome: Ok(false) }
        } else {
            let more = driven(pump, parser, chunks.drop_first(), ending, left);
            Course { asked: asked + more.asked, sent: sent + more.sent, outcome: more.outcome }
        },
    }
}

/// What the pump returns of a turn that was not ended.
pub open spec fn unended(ending: Ending) -> Result<bool, HttpFault> {
    match ending {
        Ending::Over => Ok(false),
        Ending::Broken(message) => Err(HttpFault::Stream(message)),
        Ending::Abandoned => Ok(true),
    }
}

/// The course of a response with these bytes.
pub open spec fn course(parser: Parser, bytes: Seq<u8>, ending: Ending, capacity: nat) -> Course {
    turn(
        parser,
        filled(payloads(bytes, Seq::empty(), ending is Over)),
        capacity,
        unended(ending),
    )
}

/// Going through lines uses up bytes: less is left, or the pump asks for more.
pub proof fn lemma_resumed_shrinks(pump: Pump)
    ensures
        sse::resumed(pump).0.buf.len() <= pump.buf.len(),
        sse::resumed(pump).1 is Parse ==> sse::resumed(pump).0.buf.len() < pump.buf.len(),
        sse::resumed(pump).1 is Parse || sse::resumed(pump).1 is Read,
    decreases pump.buf.len(),
{
    pump.buf.index_of_first_ensures(NEWLINE);
    if let Some(end) = pump.buf.index_of_first(NEWLINE) {
        let line = sse::line_text(pump.buf.take(end + 1));
        let buf = pump.buf.skip(end + 1);
        if line.len() > 0 {
            lemma_resumed_shrinks(Pump { buf, event: sse::with_line(pump.event, line), ..pump });
        } else if text::trimmed(pump.event).len() == 0 {
            lemma_resumed_shrinks(Pump { buf, event: Seq::empty(), ..pump });
        }
    }
}

/// The payloads that a pump has yet to ask about, if it stands at a line and `rest` follows.
spec fn later(pump: Pump, rest: Seq<u8>, ending: Ending) -> Seq<Seq<char>> {
    filled(payloads(pump.buf + rest, pump.event, ending is Over))
}

/// The course that lies ahead of a pump that asks for `step`, if `rest` is yet to be read.
spec fn ahead(
    pump: Pump,
    step: Step,
    rest: Seq<u8>,
    parser: Parser,
    ending: Ending,
    capacity: nat,
) -> Course {
    match step {
        Step::Read => turn(parser, later(pump, rest, ending), capacity, unended(ending)),
        Step::Parse(data) => if pump.phase == (PumpPhase::Parsing { stream_over: true }) {
            turn(parser, seq![data], capacity, Ok(false))
        } else {
            turn(parser, seq![data] + later(pump, rest, ending), capacity, unended(ending))
        },
        Step::Send(delta) => after_sending(
            delta,
            match pump.phase {
                PumpPhase::Sending(Delivery::Partial) if capacity > 0 => turn(
                    parser,
                    later(pump, rest, ending),
                    one_less(capacity),
                    unended(ending),
                ),
                PumpPhase::Sending(Delivery::Trailing) if capacity > 0 => nothing(Ok(false)),
                PumpPhase::Sending(Delivery::Failed) if capacity > 0 => after_sending(
                    Delta::Done(StopReason::Aborted),
                    nothing(Ok(true)),
                ),
                _ => nothing(Ok(true)),
            },
        ),
        Step::Return(outcome) => nothing(outcome),
    }
}

/// A course in which nothing happens any more.
spec fn nothing(outcome: Result<bool, HttpFault>) -> Course {
    Course { asked: Seq::empty(), sent: Seq::empty(), outcome }
}

/// Whether a pump waits for what it asks for, and holds no whole line when it asks to read.
spec fn settled(pump: Pump, step: Step) -> bool {
    sse::waits_for(pump, step) && (step is Read ==> pump.buf.index_of_first(NEWLINE) is None)
}

/// Whether the response of a pump is not read any further.
spec fn closing(pump: Pump) -> bool {
    match pump.phase {
        PumpPhase::Reading => false,
        PumpPhase::Parsing { stream_over } => stream_over,
        PumpPhase::Sending(delivery) => delivery != Delivery::Partial,
        PumpPhase::Returned => true,
    }
}

/// A line that is whole stays the first line when more bytes follow.
proof fn lemma_first_newline(bytes: Seq<u8>, rest: Seq<u8>)
    ensures
        match bytes.index_of_first(NEWLINE) {
            Some(end) => {
                &&& 0 <= end < bytes.len()
                &&& (bytes + rest).index_of_first(NEWLINE) == Some(end)
                &&& (bytes + rest).take(end + 1) == bytes.take(end + 1)
                &&& (bytes + rest).skip(end + 1) == bytes.skip(end + 1) + rest
            },
            None => true,
        },
{
    bytes.index_of_first_ensures(NEWLINE);
    (bytes + rest).index_of_first_ensures(NEWLINE);
    if let Some(end) = bytes.index_of_first(NEWLINE) {
        assert((bytes + rest)[end] == NEWLINE);
        let first = (bytes + rest).index_of_first(NEWLINE)->0;
        assert(first == end) by {
            if first < end {
                assert(bytes[first] == NEWLINE);
            }
        }
        assert((bytes + rest).take(end + 1) =~= bytes.take(end + 1));
        assert((bytes + rest).skip(end + 1) =~= bytes.skip(end + 1) + rest);
    }
}

/// The first payload counts if it is not blank.
proof fn lemma_filled_first(payload: Seq<char>, rest: Seq<Seq<char>>)
    ensures
        filled(seq![payload] + rest) == if text::trimmed(payload).len() > 0 {
            seq![text::trimmed(payload)] + filled(rest)
        } else {
            filled(rest)
        },
{
    assert((seq![payload] + rest).drop_first() =~= rest);
}

/// Going through lines changes nothing of what lies ahead.
proof fn lemma_resumed_ahead(
    pump: Pump,
    rest: Seq<u8>,
    parser: Parser,
    ending: Ending,
    capacity: nat,
)
    ensures
        settled(sse::resumed(pump).0, sse::resumed(pump).1),
        ahead(sse::resumed(pump).0, sse::resumed(pump).1, rest, parser, ending, capacity) == turn(
            parser,
            later(pump, rest, ending),
            capacity,
            unended(ending),
        ),
    decreases pump.buf.len(),
{
    lemma_first_newline(pump.buf, rest);
    if let Some(end) = pump.buf.index_of_first(NEWLINE) {
        let line = sse::line_text(pump.buf.take(end + 1));
        let buf = pump.buf.skip(end + 1);
        if line.len() > 0 {
            let event = sse::with_line(pump.event, line);
            lemma_resumed_ahead(Pump { buf, event, ..pump }, rest, parser, ending, capacity);
        } else {
            let event = Seq::<char>::empty();
            lemma_filled_first(pump.event, payloads(buf + rest, event, ending is Over));
            if text::trimmed(pump.event).len() == 0 {
                lemma_resumed_ahead(Pump { buf, event, ..pump }, rest, parser, ending, capacity);
            }
        }
    }
}

/// What is served between two chunks is what lay ahead, and the rest lies ahead still.
proof fn lemma_served(
    pump: Pump,
    step: Step,
    rest: Seq<u8>,
    parser: Parser,
    ending: Ending,
    capacity: nat,
)
    requires
        settled(pump, step),
    ensures
        ({
            let (asked, sent, after, next, left) = served(pump, step, parser, capacity);
            let more = ahead(after, next, rest, parser, ending, left);
            &&& settled(after, next)
            &&& next is Read || next is Return
            &&& closing(pump) ==> next is Return
            &&& ahead(pump, step, rest, parser, ending, capacity) == (Course {
                asked: asked + more.asked,
                sent: sent + more.sent,
                outcome: more.outcome,
            })
        }),
    decreases pump.buf.len(), rank(pump, step),
{
    lemma_resumed_shrinks(pump);
    match step {
        Step::Parse(data) => {
            let (after, next) = sse::after_parse(pump, parser(data));
            lemma_resumed_ahead(pump, rest, parser, ending, capacity);
            lemma_served(after, next, rest, parser, ending, capacity);
            let questions = if pump.phase == (PumpPhase::Parsing { stream_over: true }) {
                seq![data]
            } else {
                seq![data] + later(pump, rest, ending)
            };
            assert(questions.drop_first() =~= if closing(pump) {
                Seq::empty()
            } else {
                later(pump, rest, ending)
            });
            reveal_with_fuel(turn, 2);
            if let Some(delta) = parser(data) {
                assert(seq![delta] + Seq::empty() =~= seq![delta]);
                let aborted = Delta::Done(StopReason::Aborted);
                assert(seq![delta] + (seq![aborted] + Seq::empty()) =~= seq![delta, aborted]);
            }
            assert(ahead(pump, step, rest, parser, ending, capacity) =~= after_asking(
                data,
                ahead(after, next, rest, parser, ending, capacity),
            ));
        },
        Step::Send(delta) => {
            let (after, next) = sse::after_send(pump, capacity > 0);
            lemma_resumed_ahead(pump, rest, parser, ending, one_less(capacity));
            lemma_served(after, next, rest, parser, ending, one_less(capacity));
            assert(ahead(pump, step, rest, parser, ending, capacity) =~= after_sending(
                delta,
                ahead(after, next, rest, parser, ending, one_less(capacity)),
            ));
        },
        _ => {
            let more = ahead(pump, step, rest, parser, ending, capacity);
            assert(Seq::empty() + more.asked =~= more.asked);
            assert(Seq::empty() + more.sent =~= more.sent);
        },
    }
}

/// A pump that is driven to its end takes the course that lies ahead of it.
proof fn lemma_driven(
    pump: Pump,
    parser: Parser,
    chunks: Seq<Seq<u8>>,
    ending: Ending,
    capacity: nat,
)
    requires
        settled(pump, Step::Read),
    ensures
        driven(pump, parser, chunks, ending, capacity) == ahead(
            pump,
            Step::Read,
            chunks.flatten(),
            parser,
            ending,
            capacity,
        ),
    decreases chunks.len(),
{
    if chunks.len() == 0 {
        let (after, next) = after_ending(pump, ending);
        let rest = Seq::<u8>::empty();
        assert(chunks.flatten() =~= rest);
        assert(pump.buf + rest =~= pump.buf);
        lemma_filled_first(
            sse::with_line(pump.event, sse::line_text(pump.buf)),
            Seq::<Seq<char>>::empty(),
        );
        lemma_served(after, next, rest, parser, ending, capacity);
    } else {
        let chunk = chunks.first();
        let rest = chunks.drop_first().flatten();
        let longer = Pump { buf: pump.buf + chunk, ..pump };
        let (after, next) = sse::resumed(longer);
        lemma_resumed_ahead(longer, rest, parser, ending, capacity);
        lemma_served(after, next, rest, parser, ending, capacity);
        let (asked, sent, after, next, left) = served(after, next, parser, capacity);
        assert(chunks.flatten() =~= chunk + rest);
        assert(longer.buf + rest =~= pump.buf + chunks.flatten());
        if next is Read {
            lemma_driven(after, parser, chunks.drop_first(), ending, left);
        } else {
            assert(asked + Seq::<Seq<char>>::empty() =~= asked);
            assert(sent + Seq::<Delta>::empty() =~= sent);
        }
    }
}

/// Whether a delta ends the turn.
spec fn ends_turn(delta: Delta) -> bool {
    delta is Done || delta is Error
}

/// How a turn ends, for every receiver.
proof fn lemma_turn_ends(
    parser: Parser,
    payloads: Seq<Seq<char>>,
    capacity: nat,
    otherwise: Result<bool, HttpFault>,
)
    ensures
        ({
            let course = turn(parser, payloads, capacity, otherwise);
            let sent = course.sent;
            let ended = sent.len() > capacity || (sent.len() > 0 && sent.last() is Done);
            &&& sent.len() <= capacity + 1
            &&& forall|i: int| 0 <= i < sent.len() && sent[i] is Done ==> i == sent.len() - 1
            &&& forall|i: int|
                0 <= i < sent.len() && i < capacity && sent[i] is Error ==> i == sent.len() - 2
                    && sent.last() == Delta::Done(StopReason::Aborted)
            &&& course.asked.is_prefix_of(payloads)
            &&& ended ==> course.outcome == Ok::<bool, HttpFault>(true)
            &&& !ended ==> course.outcome == otherwise && course.asked == payloads
        }),
    decreases payloads.len(),
{
    if payloads.len() > 0 {
        let data = payloads.first();
        let rest = payloads.drop_first();
        assert(payloads =~= seq![data] + rest);
        let course = turn(parser, payloads, capacity, otherwise);
        match parser(data) {
            None => {
                lemma_turn_ends(parser, rest, capacity, otherwise);
            },
            Some(delta) => {
                if capacity > 0 && !ends_turn(delta) {
                    lemma_turn_ends(parser, rest, one_less(capacity), otherwise);
                    let more = turn(parser, rest, one_less(capacity), otherwise).sent;
                    assert(course.sent == seq![delta] + more);
                    assert forall|i: int| 1 <= i < course.sent.len() implies course.sent[i]
                        == more[i - 1] by {}
                }
            },
        }
    }
}

/// A receiver that takes less is sent the same up to the delta that it refuses.
proof fn lemma_turn_refused(
    parser: Parser,
    payloads: Seq<Seq<char>>,
    less: nat,
    more: nat,
    otherwise: Result<bool, HttpFault>,
)
    requires
        less <= more,
    ensures
        ({
            let refused = turn(parser, payloads, less, otherwise);
            let course = turn(parser, payloads, more, otherwise);
            &&& course.sent.len() <= less ==> refused == course
            &&& course.sent.len() > less ==> refused.sent == course.sent.take(less as int + 1)
            &&& refused.asked.is_prefix_of(course.asked)
        }),
    decreases payloads.len(),
{
    if payloads.len() > 0 {
        let data = payloads.first();
        let rest = payloads.drop_first();
        let refused = turn(parser, payloads, less, otherwise);
        let course = turn(parser, payloads, more, otherwise);
        match parser(data) {
            None => {
                lemma_turn_refused(parser, rest, less, more, otherwise);
            },
            Some(delta) => {
                if less > 0 && !ends_turn(delta) {
                    lemma_turn_refused(parser, rest, one_less(less), one_less(more), otherwise);
                }
                if course.sent.len() > less {
                    assert(refused.sent =~= course.sent.take(less as int + 1));
                }
            },
        }
    }
}

/// A pump asks about the payloads of its response and sends what they stand for, in the order
/// in which they stand in its bytes, up to the end of the turn.
pub proof fn law_stream_gives_its_turn(
    parser: Parser,
    chunks: Seq<Seq<u8>>,
    ending: Ending,
    capacity: nat,
)
    ensures
        driven(sse::fresh(), parser, chunks, ending, capacity) == course(
            parser,
            chunks.flatten(),
            ending,
            capacity,
        ),
{
    let pump = sse::fresh();
    pump.buf.index_of_first_ensures(NEWLINE);
    assert(pump.buf + chunks.flatten() =~= chunks.flatten());
    lemma_driven(pump, parser, chunks, ending, capacity);
}

/// Where a response is cut into chunks makes no difference: neither to what the parser is asked
/// nor to what the receiver is sent nor to what is returned.
pub proof fn law_chunking_makes_no_difference(
    parser: Parser,
    chunks: Seq<Seq<u8>>,
    others: Seq<Seq<u8>>,
    ending: Ending,
    capacity: nat,
)
    requires
        chunks.flatten() == others.flatten(),
    ensures
        driven(sse::fresh(), parser, chunks, ending, capacity) == driven(
            sse::fresh(),
            parser,
            others,
            ending,
            capacity,
        ),
{
    law_stream_gives_its_turn(parser, chunks, ending, capacity);
    law_stream_gives_its_turn(parser, others, ending, capacity);
}

/// If the receiver takes all that it is sent and the response ends as it should, then it is
/// sent the end of the turn at most once and nothing behind it. An error is followed by the end
/// of the turn as aborted and nothing else. What is returned says whether the end was sent.
pub proof fn law_turn_ends_once(parser: Parser, chunks: Seq<Seq<u8>>, capacity: nat)
    requires
        driven(sse::fresh(), parser, chunks, Ending::Over, capacity).sent.len() <= capacity,
    ensures
        ({
            let course = driven(sse::fresh(), parser, chunks, Ending::Over, capacity);
            let sent = course.sent;
            &&& forall|i: int| 0 <= i < sent.len() && sent[i] is Done ==> i == sent.len() - 1
            &&& forall|i: int|
                0 <= i < sent.len() && sent[i] is Error ==> i == sent.len() - 2
                    && sent.last() == Delta::Done(StopReason::Aborted)
            &&& course.outcome == Ok::<bool, HttpFault>(sent.len() > 0 && sent.last() is Done)
        }),
{
    law_stream_gives_its_turn(parser, chunks, Ending::Over, capacity);
    lemma_turn_ends(
        parser,
        filled(payloads(chunks.flatten(), Seq::empty(), true)),
        capacity,
        Ok(false),
    );
}

/// A response that breaks off is an error unless the turn was ended or the receiver refused a
/// delta before. If the receiver is gone the turn counts as ended.
pub proof fn law_unended_turn_tells_why(
    parser: Parser,
    chunks: Seq<Seq<u8>>,
    ending: Ending,
    capacity: nat,
)
    ensures
        ({
            let course = driven(sse::fresh(), parser, chunks, ending, capacity);
            let sent = course.sent;
            let ended = sent.len() > capacity || (sent.len() > 0 && sent.last() is Done);
            course.outcome == if ended {
                Ok(true)
            } else {
                match ending {
                    Ending::Over => Ok(false),
                    Ending::Broken(message) => Err(HttpFault::Stream(message)),
                    Ending::Abandoned => Ok(true),
                }
            }
        }),
{
    law_stream_gives_its_turn(parser, chunks, ending, capacity);
    lemma_turn_ends(
        parser,
        filled(payloads(chunks.flatten(), Seq::empty(), ending is Over)),
        capacity,
        unended(ending),
    );
}

/// The parser is asked about each payload that is not blank once, in order, and about all of
/// them unless the turn is ended or the receiver refuses a delta.
pub proof fn law_payloads_are_parsed_once(
    parser: Parser,
    chunks: Seq<Seq<u8>>,
    ending: Ending,
    capacity: nat,
)
    ensures
        ({
            let course = driven(sse::fresh(), parser, chunks, ending, capacity);
            let sent = course.sent;
            let ended = sent.len() > capacity || (sent.len() > 0 && sent.last() is Done);
            let all = filled(payloads(chunks.flatten(), Seq::empty(), ending is Over));
            &&& course.asked.is_prefix_of(all)
            &&& !ended ==> course.asked == all
        }),
{
    law_stream_gives_its_turn(parser, chunks, ending, capacity);
    lemma_turn_ends(
        parser,
        filled(payloads(chunks.flatten(), Seq::empty(), ending is Over)),
        capacity,
        unended(ending),
    );
}

/// Once the receiver refuses a delta nothing more is sent, and the turn counts as ended. Up to
/// there it is sent what a receiver that takes more is sent.
pub proof fn law_refusal_ends_the_turn(
    parser: Parser,
    chunks: Seq<Seq<u8>>,
    ending: Ending,
    less: nat,
    more: nat,
)
    requires
        less <= more,
    ensures
        ({
            let refused = driven(sse::fresh(), parser, chunks, ending, less);
            let course = driven(sse::fresh(), parser, chunks, ending, more);
            &&& course.sent.len() <= less ==> refused == course
            &&& course.sent.len() > less ==> refused.sent == course.sent.take(less as int + 1)
                && refused.outcome == Ok::<bool, HttpFault>(true)
            &&& refused.asked.is_prefix_of(course.asked)
        }),
{
    law_stream_gives_its_turn(parser, chunks, ending, less);
    law_stream_gives_its_turn(parser, chunks, ending, more);
    let all = filled(payloads(chunks.flatten(), Seq::empty(), ending is Over));
    lemma_turn_refused(parser, all, less, more, unended(ending));
    lemma_turn_ends(parser, all, less, unended(ending));
}

/// What a parser gives of the payloads that it is asked about, in order.
spec fn given(parser: Parser, asked: Seq<Seq<char>>) -> Seq<Delta> {
    asked.map_values(parser).filter(|event: Option<Delta>| event is Some).map_values(
        |event: Option<Delta>| event->0,
    )
}

proof fn lemma_given_first(parser: Parser, data: Seq<char>, rest: Seq<Seq<char>>)
    ensures
        given(parser, seq![data] + rest) == match parser(data) {
            Some(delta) => seq![delta] + given(parser, rest),
            None => given(parser, rest),
        },
        given(parser, Seq::empty()) == Seq::<Delta>::empty(),
{
    let told = |event: Option<Delta>| event is Some;
    let said = |event: Option<Delta>| event->0;
    let first = seq![parser(data)];
    let more = rest.map_values(parser);
    assert((seq![data] + rest).map_values(parser) =~= first + more);
    Seq::filter_distributes_over_add(first, more, told);
    reveal_with_fuel(Seq::filter, 2);
    assert(first.drop_last() =~= Seq::empty());
    assert(first.filter(told) =~= if parser(data) is Some {
        first
    } else {
        Seq::empty()
    });
    assert(given(parser, seq![data] + rest) =~= match parser(data) {
        Some(delta) => seq![delta] + given(parser, rest),
        None => given(parser, rest),
    });
    assert(Seq::<Seq<char>>::empty().map_values(parser) =~= Seq::empty());
    assert(given(parser, Seq::empty()) =~= Seq::<Delta>::empty());
}

/// What is sent in a turn is what the parser gave, and the end of the turn as aborted behind an
/// error that was taken.
proof fn lemma_turn_sends_what_is_given(
    parser: Parser,
    payloads: Seq<Seq<char>>,
    capacity: nat,
    otherwise: Result<bool, HttpFault>,
)
    ensures
        ({
            let course = turn(parser, payloads, capacity, otherwise);
            let all = given(parser, course.asked);
            &&& course.sent == if all.len() > 0 && all.last() is Error && all.len() <= capacity {
                all.push(Delta::Done(StopReason::Aborted))
            } else {
                all
            }
            &&& forall|i: int|
                #![trigger course.asked[i]]
                0 <= i < course.asked.len() - 1 ==> (parser(course.asked[i]) matches Some(delta)
                    ==> !ends_turn(delta))
        }),
    decreases payloads.len(),
{
    let course = turn(parser, payloads, capacity, otherwise);
    if payloads.len() == 0 {
        lemma_given_first(parser, Seq::empty(), Seq::empty());
    } else {
        let data = payloads.first();
        let rest = payloads.drop_first();
        let none = Seq::<Seq<char>>::empty();
        lemma_given_first(parser, data, none);
        match parser(data) {
            None => {
                let more = turn(parser, rest, capacity, otherwise);
                lemma_turn_sends_what_is_given(parser, rest, capacity, otherwise);
                lemma_given_first(parser, data, more.asked);
                assert forall|i: int|
                    #![trigger course.asked[i]]
                    1 <= i < course.asked.len() implies course.asked[i] == more.asked[i - 1] by {}
            },
            Some(delta) => {
                if capacity > 0 && !ends_turn(delta) {
                    let more = turn(parser, rest, one_less(capacity), otherwise);
                    lemma_turn_sends_what_is_given(parser, rest, one_less(capacity), otherwise);
                    lemma_given_first(parser, data, more.asked);
                    assert forall|i: int|
                        #![trigger course.asked[i]]
                        1 <= i < course.asked.len() implies course.asked[i] == more.asked[i
                        - 1] by {}
                    let all = given(parser, course.asked);
                    let later = given(parser, more.asked);
                    assert(all == seq![delta] + later);
                    assert(later.len() > 0 ==> all.last() == later.last());
                    assert(course.sent == seq![delta] + more.sent);
                    let aborted = Delta::Done(StopReason::Aborted);
                    assert(seq![delta] + later.push(aborted) =~= all.push(aborted));
                } else {
                    assert(seq![data] + none =~= seq![data]);
                    assert(seq![delta] + Seq::empty() =~= seq![delta]);
                    assert(course.sent =~= if delta is Error && capacity > 0 {
                        seq![delta].push(Delta::Done(StopReason::Aborted))
                    } else {
                        seq![delta]
                    });
                }
            },
        }
    }
}

/// The payloads that count are those that are not blank, free of white space.
proof fn lemma_filled(payloads: Seq<Seq<char>>)
    ensures
        filled(payloads) == payloads.map_values(|payload: Seq<char>| text::trimmed(payload)).filter(
            |data: Seq<char>| data.len() > 0,
        ),
    decreases payloads.len(),
{
    let bare = |payload: Seq<char>| text::trimmed(payload);
    let counts = |data: Seq<char>| data.len() > 0;
    reveal_with_fuel(Seq::filter, 2);
    if payloads.len() == 0 {
        assert(payloads.map_values(bare) =~= Seq::empty());
    } else {
        let rest = payloads.drop_first();
        let first = seq![text::trimmed(payloads.first())];
        lemma_filled(rest);
        assert(payloads.map_values(bare) =~= first + rest.map_values(bare));
        Seq::filter_distributes_over_add(first, rest.map_values(bare), counts);
        assert(first.drop_last() =~= Seq::empty());
        assert(first.filter(counts) =~= if first[0].len() > 0 {
            first
        } else {
            Seq::empty()
        });
        assert(Seq::empty() + filled(rest) =~= filled(rest));
    }
}

/// The receiver is sent what the parser gives of the payloads that it is asked about, each in
/// its turn, be it text, thinking, an end or an error, and nothing else; but behind an error that
/// it has taken it is sent the end of the turn as aborted.
pub proof fn law_what_the_parser_gives_is_sent(
    parser: Parser,
    chunks: Seq<Seq<u8>>,
    ending: Ending,
    capacity: nat,
)
    ensures
        ({
            let course = driven(sse::fresh(), parser, chunks, ending, capacity);
            let all = course.asked.map_values(parser).filter(
                |event: Option<Delta>| event is Some,
            ).map_values(|event: Option<Delta>| event->0);
            course.sent == if all.len() > 0 && all.last() is Error && all.len() <= capacity {
                all.push(Delta::Done(StopReason::Aborted))
            } else {
                all
            }
        }),
{
    law_stream_gives_its_turn(parser, chunks, ending, capacity);
    lemma_turn_sends_what_is_given(
        parser,
        filled(payloads(chunks.flatten(), Seq::empty(), ending is Over)),
        capacity,
        unended(ending),
    );
}

/// No event is lost: whatever the parser gives of a payload that it is asked about, of whatever
/// kind, is among what the receiver is sent.
pub proof fn law_no_event_is_lost(
    parser: Parser,
    chunks: Seq<Seq<u8>>,
    ending: Ending,
    capacity: nat,
    i: int,
)
    requires
        0 <= i < driven(sse::fresh(), parser, chunks, ending, capacity).asked.len(),
    ensures
        ({
            let course = driven(sse::fresh(), parser, chunks, ending, capacity);
            parser(course.asked[i]) matches Some(delta) ==> course.sent.contains(delta)
        }),
{
    let course = driven(sse::fresh(), parser, chunks, ending, capacity);
    law_what_the_parser_gives_is_sent(parser, chunks, ending, capacity);
    if let Some(delta) = parser(course.asked[i]) {
        let told = |event: Option<Delta>| event is Some;
        let said = |event: Option<Delta>| event->0;
        let events = course.asked.map_values(parser);
        assert(events[i] == Some(delta));
        events.lemma_filter_contains(told, i);
        let j = choose|j: int|
            0 <= j < events.filter(told).len() && events.filter(told)[j] == events[i];
        let all = events.filter(told).map_values(said);
        assert(all[j] == delta);
        assert(course.sent[j] == delta);
    }
}

/// The parser is asked about the payloads of the stream that are not blank, each without the
/// white space around it, in order; about all of them, unless one stands for the end of the turn
/// or for an error, or the receiver refuses what one stands for, and that one is the last.
pub proof fn law_parser_is_asked_about_the_payloads(
    parser: Parser,
    chunks: Seq<Seq<u8>>,
    ending: Ending,
    capacity: nat,
)
    ensures
        ({
            let course = driven(sse::fresh(), parser, chunks, ending, capacity);
            let asked = course.asked;
            let all = payloads(chunks.flatten(), Seq::empty(), ending is Over).map_values(
                |payload: Seq<char>| text::trimmed(payload),
            ).filter(|data: Seq<char>| data.len() > 0);
            &&& asked.is_prefix_of(all)
            &&& forall|i: int|
                #![trigger asked[i]]
                0 <= i < asked.len() - 1 ==> (parser(asked[i]) matches Some(delta) ==> !(delta
                    is Done || delta is Error))
            &&& course.sent.len() <= capacity && !(asked.len() > 0 && (parser(asked.last())
                matches Some(delta) && (delta is Done || delta is Error))) ==> asked == all
        }),
{
    let bytes = chunks.flatten();
    let all = filled(payloads(bytes, Seq::empty(), ending is Over));
    law_stream_gives_its_turn(parser, chunks, ending, capacity);
    lemma_filled(payloads(bytes, Seq::empty(), ending is Over));
    lemma_turn_sends_what_is_given(parser, all, capacity, unended(ending));
    lemma_turn_ends(parser, all, capacity, unended(ending));
    lemma_unended_asks_all(parser, all, capacity, unended(ending));
}

/// If the last payload that was asked about ended nothing and nothing was refused, there was no
/// other.
proof fn lemma_unended_asks_all(
    parser: Parser,
    payloads: Seq<Seq<char>>,
    capacity: nat,
    otherwise: Result<bool, HttpFault>,
)
    ensures
        ({
            let course = turn(parser, payloads, capacity, otherwise);
            let asked = course.asked;
            course.sent.len() <= capacity && !(asked.len() > 0 && (parser(asked.last()) matches Some(
                delta,
            ) && ends_turn(delta))) ==> asked == payloads
        }),
    decreases payloads.len(),
{
    if payloads.len() > 0 {
        let data = payloads.first();
        let rest = payloads.drop_first();
        assert(payloads =~= seq![data] + rest);
        let left = match parser(data) {
            None => capacity,
            Some(_) => one_less(capacity),
        };
        let more = turn(parser, rest, left, otherwise);
        lemma_unended_asks_all(parser, rest, left, otherwise);
        assert(more.asked.len() > 0 ==> (seq![data] + more.asked).last() == more.asked.last());
        assert((seq![data] + Seq::<Seq<char>>::empty()).last() == data);
    }
}

} // verus!
