//! The pump of a server-sent-event response: which event of a turn to send when, as bytes
//! arrive and the receiver takes what it is sent or goes away.
//!
//! The pump does no I/O and knows no payloads. Its driver reads a chunk when it is told to read,
//! hands a payload to the parser of the provider when it is told to parse, sends a delta when it
//! is told to send, and tells the pump what came of it.

use crate::delta::{self, ChatDelta, Delta, StopReason};
use crate::error::{BuiltinHttpError, HttpFault};
use crate::lossy::{self, decode_lossy};
use crate::text::{self, strip_prefix, trim_end_char};
use vstd::prelude::*;

verus! {

/// The byte that ends a line.
pub const NEWLINE: u8 = 10;

/// How the lines that carry a payload start.
pub const DATA_FIELD: &'static str = "data:";

/// What is to follow once the receiver has taken a delta.
#[derive(Clone, Copy, Debug, PartialEq, Eq, Structural)]
pub enum Delivery {
    /// The stream goes on.
    Partial,
    /// The stream is over, and no event ended the turn.
    Trailing,
    /// The turn is over.
    Done,
    /// The turn is to be aborted, since the delta was an error.
    Failed,
    /// The turn is over; the delta said that it was aborted.
    Abort,
}

/// What a pump waits for.
#[derive(Clone, Copy, Debug, PartialEq, Eq, Structural)]
pub enum PumpPhase {
    /// A chunk of the response, or its end.
    Reading,
    /// What the payload of an event stands for.
    Parsing {
        /// Whether the response is over.
        stream_over: bool,
    },
    /// What came of sending a delta.
    Sending(Delivery),
    /// Nothing more.
    Returned,
}

/// What the driver of a pump is to do next.
#[derive(Debug, PartialEq, Eq)]
pub enum PumpAction {
    /// Read the next chunk of the response.
    Read,
    /// Parse the payload of an event.
    Parse(String),
    /// Send a delta to the receiver.
    Send(ChatDelta),
    /// Return whether the turn was ended, or why the response broke off.
    Return(Result<bool, BuiltinHttpError>),
}

/// What a `PumpAction` says.
pub enum Step {
    Read,
    Parse(Seq<char>),
    Send(Delta),
    Return(Result<bool, HttpFault>),
}

impl View for PumpAction {
    type V = Step;

    open spec fn view(&self) -> Step {
        match self {
            PumpAction::Read => Step::Read,
            PumpAction::Parse(data) => Step::Parse(data@),
            PumpAction::Send(delta) => Step::Send(delta@),
            PumpAction::Return(Ok(ended)) => Step::Return(Ok(*ended)),
            PumpAction::Return(Err(error)) => Step::Return(Err(error@)),
        }
    }
}

/// The state of a pump.
pub struct Pump {
    /// The bytes behind the last whole line.
    pub buf: Seq<u8>,
    /// The payload of the event that is being read.
    pub event: Seq<char>,
    pub phase: PumpPhase,
}

/// The text of a line, without what ends it.
pub open spec fn line_text(line: Seq<u8>) -> Seq<char> {
    text::without_trailing(text::without_trailing(lossy::decoded(line), '\n'), '\r')
}

/// The payload of an event after one more of its lines. Lines that carry payload are joined by
/// line feeds; other lines carry none.
pub open spec fn with_line(event: Seq<char>, line: Seq<char>) -> Seq<char> {
    if DATA_FIELD@.is_prefix_of(line) {
        let data = text::trimmed_start(line.skip(DATA_FIELD@.len() as int));
        if event.len() > 0 {
            event + "\n"@ + data
        } else {
            data
        }
    } else {
        event
    }
}

/// What follows once the receiver has taken this delta.
pub open spec fn delivery(delta: Delta, stream_over: bool) -> Delivery {
    match delta {
        Delta::Done(_) => Delivery::Done,
        Delta::Error(_) => Delivery::Failed,
        _ => if stream_over {
            Delivery::Trailing
        } else {
            Delivery::Partial
        },
    }
}

/// Goes through the whole lines that the pump holds, up to the first event with a payload that
/// is not blank. A blank line ends an event.
pub open spec fn resumed(pump: Pump) -> (Pump, Step)
    decreases pump.buf.len(),
{
    match pump.buf.index_of_first(NEWLINE) {
        Some(end) => {
            proof {
                pump.buf.index_of_first_ensures(NEWLINE);
            }
            let line = line_text(pump.buf.take(end + 1));
            let buf = pump.buf.skip(end + 1);
            let data = text::trimmed(pump.event);
            if line.len() > 0 {
                resumed(Pump { buf, event: with_line(pump.event, line), ..pump })
            } else if data.len() == 0 {
                resumed(Pump { buf, event: Seq::empty(), ..pump })
            } else {
                (
                    Pump {
                        buf,
                        event: Seq::empty(),
                        phase: PumpPhase::Parsing { stream_over: false },
                    },
                    Step::Parse(data),
                )
            }
        },
        None => (Pump { phase: PumpPhase::Reading, ..pump }, Step::Read),
    }
}

/// The pump and what it asks for once it has nothing more to do.
pub open spec fn returned(pump: Pump, outcome: Result<bool, HttpFault>) -> (Pump, Step) {
    (Pump { phase: PumpPhase::Returned, ..pump }, Step::Return(outcome))
}

/// What a pump does with a chunk. If the receiver is gone the turn is over; if the chunk could
/// not be read the response broke off.
pub open spec fn after_chunk(
    pump: Pump,
    receiver_closed: bool,
    chunk: Result<Seq<u8>, Seq<char>>,
) -> (Pump, Step) {
    if receiver_closed {
        returned(pump, Ok(true))
    } else {
        match chunk {
            Ok(bytes) => resumed(Pump { buf: pump.buf + bytes, ..pump }),
            Err(message) => returned(pump, Err(HttpFault::Stream(message))),
        }
    }
}

/// What a pump does at the end of the response: a last line need not be ended, nor a last
/// event.
pub open spec fn after_end(pump: Pump) -> (Pump, Step) {
    let over = Pump { buf: Seq::empty(), event: Seq::empty(), ..pump };
    let data = text::trimmed(with_line(pump.event, line_text(pump.buf)));
    if data.len() == 0 {
        returned(over, Ok(false))
    } else {
        (Pump { phase: PumpPhase::Parsing { stream_over: true }, ..over }, Step::Parse(data))
    }
}

/// What a pump does once a payload was parsed. A payload may stand for no event of the turn.
pub open spec fn after_parse(pump: Pump, event: Option<Delta>) -> (Pump, Step) {
    let stream_over = pump.phase == (PumpPhase::Parsing { stream_over: true });
    match event {
        Some(delta) => (
            Pump { phase: PumpPhase::Sending(delivery(delta, stream_over)), ..pump },
            Step::Send(delta),
        ),
        None => if stream_over {
            returned(pump, Ok(false))
        } else {
            resumed(pump)
        },
    }
}

/// What a pump does once a delta was taken or refused. A refusal ends the turn.
pub open spec fn after_send(pump: Pump, taken: bool) -> (Pump, Step) {
    match pump.phase {
        PumpPhase::Sending(Delivery::Partial) if taken => resumed(pump),
        PumpPhase::Sending(Delivery::Trailing) if taken => returned(pump, Ok(false)),
        PumpPhase::Sending(Delivery::Failed) if taken => (
            Pump { phase: PumpPhase::Sending(Delivery::Abort), ..pump },
            Step::Send(Delta::Done(StopReason::Aborted)),
        ),
        _ => returned(pump, Ok(true)),
    }
}

/// Whether a pump waits for what it asks for: for a chunk after it asked to read, for what a
/// payload stands for after it asked to parse it, for what came of a delta after it asked to
/// send it, and for nothing once it has returned.
pub open spec fn waits_for(pump: Pump, step: Step) -> bool {
    match step {
        Step::Read => pump.phase == PumpPhase::Reading,
        Step::Parse(_) => pump.phase is Parsing,
        Step::Send(_) => pump.phase is Sending,
        Step::Return(_) => pump.phase == PumpPhase::Returned,
    }
}

/// Pumps the events of one response.
pub struct SsePump {
    buf: Vec<u8>,
    event_data: String,
    phase: PumpPhase,
}

impl View for SsePump {
    type V = Pump;

    closed spec fn view(&self) -> Pump {
        Pump { buf: self.buf@, event: self.event_data@, phase: self.phase }
    }
}

/// The pump of a response of which nothing was read yet.
pub open spec fn fresh() -> Pump {
    Pump { buf: Seq::empty(), event: Seq::empty(), phase: PumpPhase::Reading }
}

/// What follows once the receiver has taken this delta.
fn delivery_of(delta: &ChatDelta, stream_over: bool) -> (after: Delivery)
    ensures
        after == delivery(delta@, stream_over),
{
    match delta {
        ChatDelta::Done { .. } => Delivery::Done,
        ChatDelta::Error(_) => Delivery::Failed,
        _ => if stream_over {
            Delivery::Trailing
        } else {
            Delivery::Partial
        },
    }
}

/// The position of the first line feed.
fn find_newline(buf: &Vec<u8>) -> (position: Option<usize>)
    ensures
        match position {
            Some(end) => end < buf.len() && buf@.index_of_first(NEWLINE) == Some(end as int),
            None => buf@.index_of_first(NEWLINE) is None,
        },
{
    let mut i: usize = 0;
    while i < buf.len()
        invariant
            i <= buf@.len(),
            forall|j: int| 0 <= j < i ==> buf@[j] != NEWLINE,
        decreases buf@.len() - i,
    {
        if buf[i] == NEWLINE {
            proof {
                buf@.index_of_first_ensures(NEWLINE);
            }
            return Some(i);
        }
        i += 1;
    }
    proof {
        buf@.index_of_first_ensures(NEWLINE);
    }
    None
}

impl SsePump {
    /// A pump for a response of which nothing was read yet.
    pub fn new() -> (pump: SsePump)
        ensures
            pump@ == fresh(),
            pump@.phase == PumpPhase::Reading,
            pump@.buf.len() == 0,
            pump@.event.len() == 0,
    {
        SsePump { buf: Vec::new(), event_data: String::new(), phase: PumpPhase::Reading }
    }

    /// What the pump waits for.
    pub fn phase(&self) -> (phase: PumpPhase)
        ensures
            phase == self@.phase,
    {
        self.phase
    }

    /// Takes one more line of the event that is being read.
    fn take_line(&mut self, line: &str)
        ensures
            final(self)@ == (Pump { event: with_line(old(self)@.event, line@), ..old(self)@ }),
    {
        if let Some(data) = strip_prefix(line, DATA_FIELD) {
            if !self.event_data.as_str().is_empty() {
                self.event_data.append("\n");
            } else {
                assert(self.event_data@ =~= Seq::<char>::empty());
            }
            self.event_data.append(data.trim_start());
            assert(self@.event =~= with_line(old(self)@.event, line@));
        }
    }

    /// Ends the event that is being read, and gives its payload if that is not blank.
    fn take_event(&mut self) -> (data: Option<String>)
        ensures
            match data {
                Some(data) => data@.len() > 0 && data@ == text::trimmed(old(self)@.event),
                None => text::trimmed(old(self)@.event).len() == 0,
            },
            final(self)@ == (Pump { event: Seq::empty(), ..old(self)@ }),
    {
        let data = self.event_data.as_str().trim();
        let taken = if data.is_empty() {
            None
        } else {
            Some(data.to_owned())
        };
        self.event_data = String::new();
        taken
    }

    /// Goes through the whole lines that the pump holds.
    fn resume(&mut self) -> (action: PumpAction)
        ensures
            (final(self)@, action@) == resumed(old(self)@),
            waits_for(final(self)@, action@),
    {
        loop
            invariant
                resumed(self@) == resumed(old(self)@),
            decreases self@.buf.len(),
        {
            let end = match find_newline(&self.buf) {
                Some(end) => end,
                None => {
                    self.phase = PumpPhase::Reading;
                    return PumpAction::Read;
                },
            };
            let ghost before = self@;
            let rest = self.buf.split_off(end + 1);
            let line = decode_lossy(self.buf.as_slice());
            self.buf = rest;
            proof {
                assert(before.buf.subrange(0, end + 1) =~= before.buf.take(end + 1));
                assert(self@.buf =~= before.buf.skip(end + 1));
            }
            let line = trim_end_char(trim_end_char(line.as_str(), '\n'), '\r');
            if line.is_empty() {
                if let Some(data) = self.take_event() {
                    self.phase = PumpPhase::Parsing { stream_over: false };
                    return PumpAction::Parse(data);
                }
            } else {
                self.take_line(line);
            }
        }
    }

    /// Hands the pump a chunk of the response, or the reason why none could be read.
    pub fn on_chunk(
        &mut self,
        receiver_closed: bool,
        chunk: Result<Vec<u8>, String>,
    ) -> (action: PumpAction)
        requires
            old(self)@.phase == PumpPhase::Reading,
        ensures
            (final(self)@, action@) == after_chunk(
                old(self)@,
                receiver_closed,
                match chunk {
                    Ok(bytes) => Ok(bytes@),
                    Err(message) => Err(message@),
                },
            ),
            waits_for(final(self)@, action@),
            receiver_closed ==> action@ == Step::Return(Ok(true)),
            !receiver_closed ==> (chunk matches Err(message) ==> action@ == Step::Return(
                Err(HttpFault::Stream(message@)),
            )),
    {
        if receiver_closed {
            self.phase = PumpPhase::Returned;
            return PumpAction::Return(Ok(true));
        }
        match chunk {
            Ok(bytes) => {
                let mut bytes = bytes;
                self.buf.append(&mut bytes);
                self.resume()
            },
            Err(message) => {
                self.phase = PumpPhase::Returned;
                PumpAction::Return(Err(BuiltinHttpError::SseStream { message }))
            },
        }
    }

    /// Tells the pump that the response is over.
    pub fn on_end(&mut self) -> (action: PumpAction)
        requires
            old(self)@.phase == PumpPhase::Reading,
        ensures
            (final(self)@, action@) == after_end(old(self)@),
            waits_for(final(self)@, action@),
    {
        let line = decode_lossy(self.buf.as_slice());
        let line = trim_end_char(trim_end_char(line.as_str(), '\n'), '\r');
        self.take_line(line);
        self.buf = Vec::new();
        match self.take_event() {
            Some(data) => {
                self.phase = PumpPhase::Parsing { stream_over: true };
                PumpAction::Parse(data)
            },
            None => {
                self.phase = PumpPhase::Returned;
                PumpAction::Return(Ok(false))
            },
        }
    }

    /// Tells the pump which event of the turn the payload stands for, if any.
    pub fn on_parse(&mut self, event: Option<ChatDelta>) -> (action: PumpAction)
        requires
            old(self)@.phase is Parsing,
        ensures
            (final(self)@, action@) == after_parse(old(self)@, delta::viewed(event)),
            waits_for(final(self)@, action@),
            event matches Some(delta) ==> action@ == Step::Send(delta@),
    {
        let stream_over = matches!(self.phase, PumpPhase::Parsing { stream_over: true });
        match event {
            Some(delta) => {
                self.phase = PumpPhase::Sending(delivery_of(&delta, stream_over));
                PumpAction::Send(delta)
            },
            None => if stream_over {
                self.phase = PumpPhase::Returned;
                PumpAction::Return(Ok(false))
            } else {
                self.resume()
            },
        }
    }

    /// Tells the pump whether the receiver took the delta.
    pub fn on_send(&mut self, taken: bool) -> (action: PumpAction)
        requires
            old(self)@.phase is Sending,
        ensures
            (final(self)@, action@) == after_send(old(self)@, taken),
            waits_for(final(self)@, action@),
            !taken ==> action@ == Step::Return(Ok(true)),
    {
        if taken {
            match self.phase {
                PumpPhase::Sending(Delivery::Partial) => {
                    return self.resume();
                },
                PumpPhase::Sending(Delivery::Trailing) => {
                    self.phase = PumpPhase::Returned;
                    return PumpAction::Return(Ok(false));
                },
                PumpPhase::Sending(Delivery::Failed) => {
                    self.phase = PumpPhase::Sending(Delivery::Abort);
                    return PumpAction::Send(
                        ChatDelta::Done { stop_reason: StopReason::Aborted },
                    );
                },
                _ => {},
            }
        }
        self.phase = PumpPhase::Returned;
        PumpAction::Return(Ok(true))
    }
}

/// What a pump waited for makes no difference to the lines that it goes through.
proof fn lemma_resumed_phase(pump: Pump, phase: PumpPhase)
    ensures
        resumed(Pump { phase, ..pump }) == resumed(pump),
    decreases pump.buf.len(),
{
    pump.buf.index_of_first_ensures(NEWLINE);
    if let Some(end) = pump.buf.index_of_first(NEWLINE) {
        let line = line_text(pump.buf.take(end + 1));
        let buf = pump.buf.skip(end + 1);
        if line.len() > 0 {
            lemma_resumed_phase(Pump { buf, event: with_line(pump.event, line), ..pump }, phase);
        } else if text::trimmed(pump.event).len() == 0 {
            lemma_resumed_phase(Pump { buf, event: Seq::empty(), ..pump }, phase);
        }
    }
}

/// What a payload stands for is sent, whatever its kind. What follows when the receiver takes it
/// depends on its kind: behind an end the turn is over, behind an error it is ended as aborted,
/// and behind text or thinking it goes on, or is over unended where the response is. A delta that
/// is refused ends the turn.
pub proof fn law_parsed_event_is_sent(pump: Pump, delta: Delta)
    requires
        pump.phase is Parsing,
    ensures
        ({
            let (sending, step) = after_parse(pump, Some(delta));
            let (taken, next) = after_send(sending, true);
            &&& step == Step::Send(delta)
            &&& sending.buf == pump.buf && sending.event == pump.event
            &&& after_send(sending, false).1 == Step::Return(Ok(true))
            &&& delta is Done ==> next == Step::Return(Ok(true))
            &&& delta is Error ==> next == Step::Send(Delta::Done(StopReason::Aborted))
                && after_send(taken, true).1 == Step::Return(Ok(true)) && after_send(
                taken,
                false,
            ).1 == Step::Return(Ok(true))
            &&& delta is Text || delta is Thinking ==> (taken, next) == after_parse(pump, None)
        }),
{
    let sending = after_parse(pump, Some(delta)).0;
    lemma_resumed_phase(pump, sending.phase);
}

/// A payload that stands for nothing is passed over: where the response is over the turn is over
/// unended, and where it is not the pump goes on as if the payload had not been there.
pub proof fn law_empty_payload_is_passed_over(pump: Pump)
    ensures
        pump.phase == (PumpPhase::Parsing { stream_over: true }) ==> after_parse(pump, None).1
            == Step::Return(Ok(false)),
        pump.phase == (PumpPhase::Parsing { stream_over: false }) ==> after_parse(pump, None)
            == after_chunk(pump, false, Ok(Seq::empty())),
{
    assert(pump.buf + Seq::empty() =~= pump.buf);
}

/// Once the receiver is gone the turn is over, whatever arrives; and a response that breaks off
/// is told with the reason.
pub proof fn law_closed_receiver_and_broken_response(
    pump: Pump,
    chunk: Result<Seq<u8>, Seq<char>>,
    message: Seq<char>,
)
    ensures
        after_chunk(pump, true, chunk).1 == Step::Return(Ok(true)),
        after_chunk(pump, false, Err(message)).1 == Step::Return(Err(HttpFault::Stream(message))),
{
}

/// What a pump asks for says what it waits for.
pub proof fn law_pump_waits_for_what_it_asks(pump: Pump, step: Step)
    ensures
        step is Read ==> (waits_for(pump, step) <==> pump.phase == PumpPhase::Reading),
        step is Parse ==> (waits_for(pump, step) <==> pump.phase is Parsing),
        step is Send ==> (waits_for(pump, step) <==> pump.phase is Sending),
        step is Return ==> (waits_for(pump, step) <==> pump.phase == PumpPhase::Returned),
{
}

/// What an action says is what is to be done, and nothing of it is lost.
pub proof fn law_action_says_what_to_do(action: PumpAction)
    ensures
        action is Read ==> action@ == Step::Read,
        action matches PumpAction::Parse(data) ==> action@ == Step::Parse(data@),
        action matches PumpAction::Send(delta) ==> action@ == Step::Send(delta@),
        action matches PumpAction::Return(Ok(ended)) ==> action@ == Step::Return(Ok(ended)),
        action matches PumpAction::Return(Err(error)) ==> action@ == Step::Return(Err(error@)),
{
}

} // verus!
