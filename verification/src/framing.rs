//! How events are written to a stream: what was written is read back, and which lines of a
//! stream matter.

use crate::lossy;
use crate::sse::{self, DATA_FIELD, NEWLINE};
use crate::text;
use crate::transcript::{self, Ending, Parser};
use vstd::prelude::*;
use vstd::utf8::*;

verus! {

/// The byte that may stand before the end of a line.
pub const CARRIAGE_RETURN: u8 = 13;

/// An event with this payload, as it is written to a stream.
pub open spec fn written_event(payload: Seq<char>) -> Seq<char> {
    "data: "@ + payload + "\n\n"@
}

/// Writes an event with this payload.
pub fn write_event(script: &mut String, payload: &str)
    ensures
        final(script)@ == old(script)@ + written_event(payload@),
{
    script.append("data: ");
    script.append(payload);
    script.append("\n\n");
    assert(script@ =~= old(script)@ + written_event(payload@));
}

/// The script of a turn that answers with one word: its content, its end, and the end of the
/// stream.
pub fn text_turn() -> (script: String)
    ensures
        script@ == written_event("{\"choices\":[{\"delta\":{\"content\":\"done\"}}]}"@)
            + written_event("{\"choices\":[{\"delta\":{},\"finish_reason\":\"stop\"}]}"@)
            + written_event("[DONE]"@),
{
    let mut script = String::new();
    write_event(&mut script, "{\"choices\":[{\"delta\":{\"content\":\"done\"}}]}");
    write_event(&mut script, "{\"choices\":[{\"delta\":{},\"finish_reason\":\"stop\"}]}");
    write_event(&mut script, "[DONE]");
    assert(script@ =~= written_event(
        "{\"choices\":[{\"delta\":{\"content\":\"done\"}}]}"@,
    ) + written_event("{\"choices\":[{\"delta\":{},\"finish_reason\":\"stop\"}]}"@)
        + written_event("[DONE]"@));
    script
}

proof fn lemma_encode_concat(a: Seq<char>, b: Seq<char>)
    ensures
        encode_utf8(a + b) == encode_utf8(a) + encode_utf8(b),
    decreases a.len(),
{
    if a.len() == 0 {
        assert(a + b =~= b);
        assert(encode_utf8(a) + encode_utf8(b) =~= encode_utf8(b));
    } else {
        lemma_encode_concat(a.drop_first(), b);
        assert((a + b).drop_first() =~= a.drop_first() + b);
        assert(encode_utf8(a + b) =~= encode_utf8(a) + encode_utf8(b));
    }
}

proof fn lemma_newline_scalar(c: char)
    ensures
        c as u32 == 10 ==> c == '\n',
{
}

/// Only a line feed is encoded by the byte of a line feed.
proof fn lemma_no_newline(chars: Seq<char>)
    requires
        !chars.contains('\n'),
    ensures
        !encode_utf8(chars).contains(NEWLINE),
    decreases chars.len(),
{
    if chars.len() > 0 {
        let scalar = chars[0] as u32;
        assert(chars.contains(chars[0]));
        lossy::lemma_high_bytes(scalar);
        let rest = chars.drop_first();
        assert(!rest.contains('\n')) by {
            if rest.contains('\n') {
                let i = choose|i: int| 0 <= i < rest.len() && rest[i] == '\n';
                assert(chars[i + 1] == '\n');
            }
        }
        lemma_no_newline(rest);
        let head = encode_scalar(scalar);
        lemma_newline_scalar(chars[0]);
        assert forall|i: int| 0 <= i < head.len() implies head[i] != NEWLINE by {}
        assert forall|i: int| 0 <= i < encode_utf8(chars).len() implies encode_utf8(chars)[i]
            != NEWLINE by {
            if i < head.len() {
                assert(encode_utf8(chars)[i] == head[i]);
            } else {
                assert(encode_utf8(chars)[i] == encode_utf8(rest)[i - head.len()]);
                assert(encode_utf8(rest).contains(encode_utf8(rest)[i - head.len()]));
            }
        }
    }
}

proof fn lemma_newline_encoded()
    ensures
        encode_utf8("\n"@) == seq![NEWLINE],
{
    reveal_strlit("\n");
    lossy::lemma_high_bytes('\n' as u32);
    let s = "\n"@;
    assert(s.drop_first() =~= Seq::<char>::empty());
    reveal_with_fuel(encode_utf8, 2);
    assert(encode_scalar('\n' as u32) =~= seq![NEWLINE]);
    assert(encode_utf8(s) =~= seq![NEWLINE]);
}

/// A run of carriage returns.
pub open spec fn carriage_returns(count: nat) -> Seq<u8> {
    Seq::new(count, |i: int| CARRIAGE_RETURN)
}

/// Carriage returns behind a text do not change what is left once they are dropped.
proof fn lemma_returned_text(bytes: Seq<u8>, count: nat)
    ensures
        text::without_trailing(lossy::decoded(bytes + carriage_returns(count)), '\r')
            == text::without_trailing(lossy::decoded(bytes), '\r'),
        count > 0 ==> lossy::decoded(bytes + carriage_returns(count)).last() == '\r',
        count > 0 ==> lossy::decoded(bytes + carriage_returns(count)).len() > 0,
    decreases count,
{
    if count == 0 {
        assert(bytes + carriage_returns(count) =~= bytes);
    } else {
        let less = bytes + carriage_returns((count - 1) as nat);
        lemma_returned_text(bytes, (count - 1) as nat);
        lossy::law_ascii_stands_for_itself(less, CARRIAGE_RETURN);
        assert(bytes + carriage_returns(count) =~= less.push(CARRIAGE_RETURN));
        assert(lossy::decoded(less).push('\r').drop_last() =~= lossy::decoded(less));
    }
}

/// What ends a line is no part of its text.
proof fn lemma_line_text(body: Seq<u8>, count: nat)
    requires
        !body.contains(NEWLINE),
    ensures
        sse::line_text(body + carriage_returns(count) + seq![NEWLINE]) == sse::line_text(body),
{
    let returned = body + carriage_returns(count);
    let text = lossy::decoded(returned);
    lossy::lemma_decoded_newline(body);
    lemma_returned_text(body, count);
    assert(returned + seq![NEWLINE] =~= returned.push(NEWLINE));
    lossy::law_ascii_stands_for_itself(returned, NEWLINE);
    assert(text.push('\n').drop_last() =~= text);
    if count == 0 {
        assert(returned =~= body);
    }
    assert(lossy::decoded(body).len() > 0 ==> lossy::decoded(body).contains(
        lossy::decoded(body).last(),
    ));
    reveal_with_fuel(text::without_trailing, 2);
}

/// The text of a line that is encoded is that line.
proof fn lemma_encoded_line(line: Seq<char>)
    requires
        !line.contains('\n'),
        line.len() > 0 ==> line.last() != '\r',
    ensures
        sse::line_text(encode_utf8(line)) == line,
        !encode_utf8(line).contains(NEWLINE),
{
    lemma_no_newline(line);
    encode_utf8_valid_utf8(line);
    encode_utf8_decode_utf8(line);
    lossy::law_valid_text_is_kept(encode_utf8(line));
    if line.len() > 0 {
        assert(line.contains(line.last()));
    }
}

/// Bytes up to a line feed are the first line, and what follows it is read next.
proof fn lemma_line_read(line: Seq<u8>, rest: Seq<u8>)
    requires
        !line.contains(NEWLINE),
    ensures
        ({
            let bytes = line + seq![NEWLINE] + rest;
            &&& bytes.index_of_first(NEWLINE) == Some(line.len() as int)
            &&& bytes.take(line.len() as int + 1) == line + seq![NEWLINE]
            &&& bytes.skip(line.len() as int + 1) == rest
        }),
{
    let bytes = line + seq![NEWLINE] + rest;
    bytes.index_of_first_ensures(NEWLINE);
    assert(bytes[line.len() as int] == NEWLINE);
    assert forall|i: int| 0 <= i < line.len() implies bytes[i] != NEWLINE by {
        assert(bytes[i] == line[i]);
        assert(line.contains(line[i]));
    }
    assert(bytes.take(line.len() as int + 1) =~= line + seq![NEWLINE]);
    assert(bytes.skip(line.len() as int + 1) =~= rest);
}

/// What was written is read back: an event whose payload is one line gives that payload, free
/// of the white space at its start, and the events behind it are read as if it had not been
/// there. A carriage return at the end of the payload would be taken for the end of the line.
pub proof fn law_written_event_is_read_back(payload: Seq<char>, rest: Seq<u8>, over: bool)
    requires
        !payload.contains('\n'),
        payload.len() > 0 ==> payload.last() != '\r',
    ensures
        transcript::payloads(encode_utf8(written_event(payload)) + rest, Seq::empty(), over)
            == seq![text::trimmed_start(payload)] + transcript::payloads(rest, Seq::empty(), over),
{
    let line = "data: "@ + payload;
    let blank = Seq::<char>::empty();
    reveal_strlit("data: ");
    reveal_strlit("data:");
    reveal_strlit("\n");
    reveal_strlit("\n\n");
    assert("\n\n"@ =~= "\n"@ + "\n"@);
    assert(written_event(payload) =~= line + "\n"@ + "\n"@);
    lemma_encode_concat(line + "\n"@, "\n"@);
    lemma_encode_concat(line, "\n"@);
    lemma_newline_encoded();
    assert(!line.contains('\n')) by {
        if line.contains('\n') {
            let i = choose|i: int| 0 <= i < line.len() && line[i] == '\n';
            if i >= 6 {
                assert(payload[i - 6] == '\n');
            }
        }
    }
    if payload.len() > 0 {
        assert(line.last() == payload.last());
    }
    let behind = seq![NEWLINE] + rest;
    let bytes = encode_utf8(written_event(payload)) + rest;
    assert(bytes =~= encode_utf8(line) + seq![NEWLINE] + behind);
    lemma_encoded_line(line);
    lemma_line_text(encode_utf8(line), 0);
    assert(encode_utf8(line) + carriage_returns(0) =~= encode_utf8(line));
    lemma_line_read(encode_utf8(line), behind);
    assert(encode_utf8(blank) + seq![NEWLINE] + rest =~= behind);
    lemma_encoded_line(blank);
    lemma_line_text(encode_utf8(blank), 0);
    assert(encode_utf8(blank) + carriage_returns(0) =~= encode_utf8(blank));
    lemma_line_read(encode_utf8(blank), rest);
    let data = line.skip(5);
    assert(DATA_FIELD@.is_prefix_of(line)) by {
        assert(line.subrange(0, 5) =~= DATA_FIELD@);
    }
    assert(data.drop_first() =~= payload);
    assert(data.first() == ' ');
    assert(text::trimmed_start(data) == text::trimmed_start(payload));
    assert(sse::with_line(blank, line) == text::trimmed_start(payload));
    reveal_with_fuel(transcript::payloads, 3);
}

/// A line of a stream: some bytes, ended by so many carriage returns and a line feed. The bytes
/// need not be text.
pub struct Line {
    pub body: Seq<u8>,
    pub returns: nat,
}

/// Whether a line holds no line feed but the one that ends it.
pub open spec fn one_line(line: Line) -> bool {
    !line.body.contains(NEWLINE)
}

/// A line as it stands in the stream.
pub open spec fn line_bytes(line: Line) -> Seq<u8> {
    line.body + carriage_returns(line.returns) + seq![NEWLINE]
}

/// The text of a line, without what ends it.
pub open spec fn said(line: Line) -> Seq<char> {
    sse::line_text(line.body)
}

/// Whether a line matters: it is blank and ends an event, or it carries payload.
pub open spec fn matters(line: Line) -> bool {
    said(line).len() == 0 || DATA_FIELD@.is_prefix_of(said(line))
}

/// Lines as they stand in the stream, one behind the other.
pub open spec fn written_lines(lines: Seq<Line>) -> Seq<u8>
    decreases lines.len(),
{
    if lines.len() == 0 {
        Seq::empty()
    } else {
        line_bytes(lines.first()) + written_lines(lines.drop_first())
    }
}

/// The texts of the lines that matter, whatever ends them.
pub open spec fn carried(lines: Seq<Line>) -> Seq<Seq<char>>
    decreases lines.len(),
{
    if lines.len() == 0 {
        Seq::empty()
    } else {
        let rest = carried(lines.drop_first());
        if matters(lines.first()) {
            seq![said(lines.first())] + rest
        } else {
            rest
        }
    }
}

/// The payloads of the events that lines with these texts end, and the payload of the event
/// that is being read behind them.
spec fn read_texts(texts: Seq<Seq<char>>, event: Seq<char>) -> (Seq<Seq<char>>, Seq<char>)
    decreases texts.len(),
{
    if texts.len() == 0 {
        (Seq::empty(), event)
    } else if texts.first().len() > 0 {
        read_texts(texts.drop_first(), sse::with_line(event, texts.first()))
    } else {
        let (ended, event_behind) = read_texts(texts.drop_first(), Seq::empty());
        (seq![event] + ended, event_behind)
    }
}

proof fn lemma_lines_read(lines: Seq<Line>, rest: Seq<u8>, event: Seq<char>, over: bool)
    requires
        forall|i: int| 0 <= i < lines.len() ==> one_line(#[trigger] lines[i]),
    ensures
        transcript::payloads(written_lines(lines) + rest, event, over) == ({
            let (ended, event_behind) = read_texts(carried(lines), event);
            ended + transcript::payloads(rest, event_behind, over)
        }),
    decreases lines.len(),
{
    if lines.len() == 0 {
        assert(written_lines(lines) + rest =~= rest);
        let payloads = transcript::payloads(rest, event, over);
        assert(Seq::empty() + payloads =~= payloads);
    } else {
        let line = lines.first();
        let more = lines.drop_first();
        assert(one_line(lines[0]));
        assert forall|i: int| 0 <= i < more.len() implies one_line(#[trigger] more[i]) by {
            assert(more[i] == lines[i + 1]);
        }
        let behind = written_lines(more) + rest;
        let bytes = written_lines(lines) + rest;
        assert(bytes =~= line_bytes(line) + behind);
        let returned = line.body + carriage_returns(line.returns);
        assert(!returned.contains(NEWLINE)) by {
            if returned.contains(NEWLINE) {
                let i = choose|i: int| 0 <= i < returned.len() && returned[i] == NEWLINE;
                assert(line.body.contains(line.body[i]));
            }
        }
        lemma_line_read(returned, behind);
        lemma_line_text(line.body, line.returns);
        let next = if said(line).len() == 0 {
            Seq::empty()
        } else {
            sse::with_line(event, said(line))
        };
        lemma_lines_read(more, rest, next, over);
        if matters(line) {
            assert(carried(lines).drop_first() =~= carried(more));
        }
        let (ended, event_behind) = read_texts(carried(more), next);
        let last = transcript::payloads(rest, event_behind, over);
        assert(seq![event] + ended + last =~= seq![event] + (ended + last));
    }
}

/// The whole lines of a stream, and the bytes behind them.
pub open spec fn split_lines(bytes: Seq<u8>) -> (Seq<Line>, Seq<u8>)
    decreases bytes.len(),
{
    match bytes.index_of_first(NEWLINE) {
        Some(end) => {
            proof {
                bytes.index_of_first_ensures(NEWLINE);
            }
            let (lines, rest) = split_lines(bytes.skip(end + 1));
            (seq![Line { body: bytes.take(end), returns: 0 }] + lines, rest)
        },
        None => (Seq::empty(), bytes),
    }
}

/// Lines that are ended by one more carriage return each.
pub open spec fn returned_lines(lines: Seq<Line>) -> Seq<Line> {
    lines.map_values(|line: Line| Line { returns: line.returns + 1, ..line })
}

proof fn lemma_returned_lines(lines: Seq<Line>)
    ensures
        carried(returned_lines(lines)) == carried(lines),
    decreases lines.len(),
{
    if lines.len() > 0 {
        lemma_returned_lines(lines.drop_first());
        assert(returned_lines(lines).drop_first() =~= returned_lines(lines.drop_first()));
    }
}

/// Every stream, be it text or not, is its lines and the bytes behind them.
pub proof fn law_stream_is_its_lines(bytes: Seq<u8>)
    ensures
        ({
            let (lines, rest) = split_lines(bytes);
            &&& written_lines(lines) + rest == bytes
            &&& forall|i: int| 0 <= i < lines.len() ==> one_line(#[trigger] lines[i])
            &&& !rest.contains(NEWLINE)
        }),
    decreases bytes.len(),
{
    bytes.index_of_first_ensures(NEWLINE);
    match bytes.index_of_first(NEWLINE) {
        Some(end) => {
            let line = Line { body: bytes.take(end), returns: 0 };
            let behind = bytes.skip(end + 1);
            let (more, rest) = split_lines(behind);
            let lines = seq![line] + more;
            law_stream_is_its_lines(behind);
            assert(one_line(line)) by {
                if line.body.contains(NEWLINE) {
                    let i = choose|i: int| 0 <= i < end && line.body[i] == NEWLINE;
                    assert(bytes[i] == NEWLINE);
                }
            }
            assert forall|i: int| 0 <= i < lines.len() implies one_line(#[trigger] lines[i]) by {
                if i > 0 {
                    assert(lines[i] == more[i - 1]);
                }
            }
            assert(lines.drop_first() =~= more);
            assert(written_lines(lines) + rest =~= line_bytes(line) + behind);
            assert(line_bytes(line) + behind =~= bytes);
        },
        None => {
            assert(Seq::<u8>::empty() + bytes =~= bytes);
        },
    }
}

/// How lines are ended, by line feeds or by carriage returns and line feeds, makes no
/// difference to the payloads of a stream. Nor do lines that are not blank and carry no payload:
/// comments and other fields can be put in before any line or left out. This holds whether or
/// not the lines are text.
pub proof fn law_only_lines_that_matter_are_read(
    lines: Seq<Line>,
    others: Seq<Line>,
    rest: Seq<u8>,
    event: Seq<char>,
    over: bool,
)
    requires
        forall|i: int| 0 <= i < lines.len() ==> one_line(#[trigger] lines[i]),
        forall|i: int| 0 <= i < others.len() ==> one_line(#[trigger] others[i]),
        carried(lines) == carried(others),
    ensures
        transcript::payloads(written_lines(lines) + rest, event, over) == transcript::payloads(
            written_lines(others) + rest,
            event,
            over,
        ),
{
    lemma_lines_read(lines, rest, event, over);
    lemma_lines_read(others, rest, event, over);
}

/// Two streams with the same lines that matter, however these are ended and whatever lines
/// stand between them, take the same course: the parser is asked the same, the receiver is sent
/// the same, and the same is returned.
pub proof fn law_only_lines_that_matter_count(
    parser: Parser,
    lines: Seq<Line>,
    others: Seq<Line>,
    rest: Seq<u8>,
    chunks: Seq<Seq<u8>>,
    other_chunks: Seq<Seq<u8>>,
    ending: Ending,
    capacity: nat,
)
    requires
        forall|i: int| 0 <= i < lines.len() ==> one_line(#[trigger] lines[i]),
        forall|i: int| 0 <= i < others.len() ==> one_line(#[trigger] others[i]),
        carried(lines) == carried(others),
        chunks.flatten() == written_lines(lines) + rest,
        other_chunks.flatten() == written_lines(others) + rest,
    ensures
        transcript::driven(sse::fresh(), parser, chunks, ending, capacity) == transcript::driven(
            sse::fresh(),
            parser,
            other_chunks,
            ending,
            capacity,
        ),
{
    law_only_lines_that_matter_are_read(lines, others, rest, Seq::empty(), ending is Over);
    transcript::law_stream_gives_its_turn(parser, chunks, ending, capacity);
    transcript::law_stream_gives_its_turn(parser, other_chunks, ending, capacity);
}

/// A stream of any bytes takes the same course if every line feed in it is made a carriage
/// return and a line feed.
pub proof fn law_carriage_returns_make_no_difference(
    parser: Parser,
    chunks: Seq<Seq<u8>>,
    other_chunks: Seq<Seq<u8>>,
    ending: Ending,
    capacity: nat,
)
    requires
        ({
            let (lines, rest) = split_lines(chunks.flatten());
            other_chunks.flatten() == written_lines(returned_lines(lines)) + rest
        }),
    ensures
        transcript::driven(sse::fresh(), parser, chunks, ending, capacity) == transcript::driven(
            sse::fresh(),
            parser,
            other_chunks,
            ending,
            capacity,
        ),
{
    let (lines, rest) = split_lines(chunks.flatten());
    let others = returned_lines(lines);
    law_stream_is_its_lines(chunks.flatten());
    lemma_returned_lines(lines);
    assert forall|i: int| 0 <= i < others.len() implies one_line(#[trigger] others[i]) by {
        assert(one_line(lines[i]));
    }
    law_only_lines_that_matter_count(
        parser,
        lines,
        others,
        rest,
        chunks,
        other_chunks,
        ending,
        capacity,
    );
}

/// The text of bytes without a line feed, as the text of a line.
proof fn lemma_said(body: Seq<u8>)
    requires
        !body.contains(NEWLINE),
    ensures
        sse::line_text(body) == text::without_trailing(lossy::decoded(body), '\r'),
{
    let text = lossy::decoded(body);
    lossy::lemma_decoded_newline(body);
    assert(text.len() > 0 ==> text.contains(text.last()));
}

/// What a line of a stream does, whatever follows it. A line that is blank but for carriage
/// returns ends an event, which has the payload that was read before it. One that starts with
/// `data:` puts what stands behind that, without the white space at its start, into the payload,
/// on a line of its own if there is payload already. Every other line does nothing.
pub proof fn law_line_does_one_thing(
    line: Seq<u8>,
    rest: Seq<u8>,
    event: Seq<char>,
    over: bool,
)
    requires
        !line.contains(10u8),
    ensures
        ({
            let stream = line + seq![10u8] + rest;
            let said = text::without_trailing(lossy::decoded(line), '\r');
            let data = text::trimmed_start(said.skip(5));
            &&& said.len() == 0 ==> transcript::payloads(stream, event, over) == seq![event]
                + transcript::payloads(rest, Seq::empty(), over)
            &&& "data:"@.is_prefix_of(said) && event.len() == 0 ==> transcript::payloads(
                stream,
                event,
                over,
            ) == transcript::payloads(rest, data, over)
            &&& "data:"@.is_prefix_of(said) && event.len() > 0 ==> transcript::payloads(
                stream,
                event,
                over,
            ) == transcript::payloads(rest, event + "\n"@ + data, over)
            &&& said.len() > 0 && !"data:"@.is_prefix_of(said) ==> transcript::payloads(
                stream,
                event,
                over,
            ) == transcript::payloads(rest, event, over)
        }),
{
    reveal_strlit("data:");
    lemma_said(line);
    lemma_line_text(line, 0);
    assert(line + carriage_returns(0) =~= line);
    lemma_line_read(line, rest);
}

/// What stands behind the last line feed counts only where the response is over, and then as a
/// line of its event, which is the last event.
pub proof fn law_last_line_counts_at_the_end(line: Seq<u8>, event: Seq<char>)
    requires
        !line.contains(10u8),
    ensures
        ({
            let said = text::without_trailing(lossy::decoded(line), '\r');
            let data = text::trimmed_start(said.skip(5));
            &&& transcript::payloads(line, event, false).len() == 0
            &&& "data:"@.is_prefix_of(said) && event.len() == 0 ==> transcript::payloads(
                line,
                event,
                true,
            ) == seq![data]
            &&& "data:"@.is_prefix_of(said) && event.len() > 0 ==> transcript::payloads(
                line,
                event,
                true,
            ) == seq![event + "\n"@ + data]
            &&& !"data:"@.is_prefix_of(said) ==> transcript::payloads(line, event, true)
                == seq![event]
        }),
{
    reveal_strlit("data:");
    lemma_said(line);
    line.index_of_first_ensures(NEWLINE);
}

/// An event is written as one line of payload and a blank line.
pub proof fn law_event_is_written_as_one_line(payload: Seq<char>)
    ensures
        written_event(payload) == "data: "@ + payload + "\n\n"@,
{
}

/// Every event that was written is read back, in order.
pub proof fn law_written_events_are_read_back(payloads: Seq<Seq<char>>)
    requires
        forall|i: int|
            0 <= i < payloads.len() ==> {
                &&& !(#[trigger] payloads[i]).contains('\n')
                &&& payloads[i].len() > 0 ==> payloads[i].last() != '\r'
            },
    ensures
        transcript::payloads(
            encode_utf8(
                payloads.map_values(
                    |payload: Seq<char>| "data: "@ + payload + "\n\n"@,
                ).flatten(),
            ),
            Seq::empty(),
            false,
        ) == payloads.map_values(|payload: Seq<char>| text::trimmed_start(payload)),
    decreases payloads.len(),
{
    let write = |payload: Seq<char>| "data: "@ + payload + "\n\n"@;
    let read = |payload: Seq<char>| text::trimmed_start(payload);
    let written = payloads.map_values(write);
    if payloads.len() == 0 {
        let bytes = encode_utf8(written.flatten());
        assert(written.flatten() =~= Seq::<char>::empty());
        bytes.index_of_first_ensures(NEWLINE);
        assert(transcript::payloads(bytes, Seq::empty(), false) =~= payloads.map_values(read));
    } else {
        let rest = payloads.drop_first();
        assert forall|i: int| 0 <= i < rest.len() implies {
            &&& !(#[trigger] rest[i]).contains('\n')
            &&& rest[i].len() > 0 ==> rest[i].last() != '\r'
        } by {
            assert(rest[i] == payloads[i + 1]);
        }
        assert(!payloads[0].contains('\n'));
        law_written_events_are_read_back(rest);
        assert(written.drop_first() =~= rest.map_values(write));
        assert(written.first() == written_event(payloads[0]));
        let behind = rest.map_values(write).flatten();
        assert(written.flatten() == written_event(payloads[0]) + behind);
        lemma_encode_concat(written_event(payloads[0]), behind);
        law_written_event_is_read_back(payloads[0], encode_utf8(behind), false);
        assert(payloads.map_values(read) =~= seq![read(payloads[0])] + rest.map_values(read));
    }
}

} // verus!
