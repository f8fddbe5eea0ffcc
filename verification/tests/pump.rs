use chat_wire::delta::{ChatDelta, StopReason};
use chat_wire::error::BuiltinHttpError;
use chat_wire::framing::{text_turn, write_event};
use chat_wire::anthropic::parse_anthropic_sse_data;
use chat_wire::openai::parse_openai_sse_data;
use chat_wire::sse::{Delivery, PumpAction, PumpPhase, SsePump};

/// What a parser was asked, what a receiver was sent, and what was returned.
type Course = (Vec<String>, Vec<ChatDelta>, Result<bool, BuiltinHttpError>);

/// Drives a pump over a response for a receiver that takes `capacity` deltas.
fn course(
    parse: fn(&str) -> Option<ChatDelta>,
    chunks: Vec<Vec<u8>>,
    capacity: usize,
) -> Course {
    let mut pump = SsePump::new();
    let mut chunks = chunks.into_iter();
    let mut asked = Vec::new();
    let mut sent = Vec::new();
    let mut action = PumpAction::Read;
    loop {
        action = match action {
            PumpAction::Read => match chunks.next() {
                Some(chunk) => pump.on_chunk(false, Ok(chunk)),
                None => pump.on_end(),
            },
            PumpAction::Parse(data) => {
                let event = parse(&data);
                asked.push(data);
                pump.on_parse(event)
            }
            PumpAction::Send(delta) => {
                let taken = sent.len() < capacity;
                sent.push(delta);
                pump.on_send(taken)
            }
            PumpAction::Return(outcome) => return (asked, sent, outcome),
        };
    }
}

fn drive(
    parse: fn(&str) -> Option<ChatDelta>,
    chunks: Vec<Vec<u8>>,
    capacity: usize,
) -> (Vec<ChatDelta>, Result<bool, BuiltinHttpError>) {
    let (_, sent, outcome) = course(parse, chunks, capacity);
    (sent, outcome)
}

fn openai(body: &str) -> (Vec<ChatDelta>, Result<bool, BuiltinHttpError>) {
    drive(parse_openai_sse_data, vec![body.as_bytes().to_vec()], 100)
}

fn echo(data: &str) -> Option<ChatDelta> {
    Some(text(data))
}

/// A parser of a made-up provider: a payload says by its first character what it stands for.
fn tagged(data: &str) -> Option<ChatDelta> {
    match data.split_at(1) {
        ("t", content) => Some(text(content)),
        ("e", message) => Some(ChatDelta::Error(message.into())),
        ("d", _) => Some(done(StopReason::ToolUse)),
        _ => None,
    }
}

fn script(payloads: &[&str]) -> Vec<u8> {
    let mut script = String::new();
    for payload in payloads {
        write_event(&mut script, payload);
    }
    script.into_bytes()
}

fn text(content: &str) -> ChatDelta {
    ChatDelta::TextDelta(content.into())
}

fn done(stop_reason: StopReason) -> ChatDelta {
    ChatDelta::Done { stop_reason }
}

fn openai_error() -> ChatDelta {
    ChatDelta::Error("OpenAI-compatible provider reported a stream error".into())
}

#[test]
fn text_turn_gives_its_text_and_its_end() {
    let expected = concat_script(&[
        r#"data: {"choices":[{"delta":{"content":"done"}}]}"#,
        "",
        r#"data: {"choices":[{"delta":{},"finish_reason":"stop"}]}"#,
        "",
        "data: [DONE]",
        "",
        "",
    ]);
    assert_eq!(text_turn(), expected);
    assert_eq!(
        openai(&text_turn()),
        (vec![text("done"), done(StopReason::EndTurn)], Ok(true))
    );
}

fn concat_script(lines: &[&str]) -> String {
    lines.join("\n")
}

#[test]
fn stream_error_finishes_aborted() {
    let (deltas, outcome) = openai("data: {\"error\":{\"message\":\"bad key\"}}\n\n");
    assert_eq!(deltas, vec![openai_error(), done(StopReason::Aborted)]);
    assert_eq!(outcome, Ok(true));
}

#[test]
fn nothing_follows_the_end_of_the_turn() {
    let mut script = String::new();
    write_event(&mut script, "[DONE]");
    write_event(&mut script, r#"{"choices":[{"delta":{"content":"late"}}]}"#);
    assert_eq!(openai(&script), (vec![done(StopReason::EndTurn)], Ok(true)));

    let mut script = String::new();
    write_event(&mut script, r#"{"error":1}"#);
    write_event(&mut script, r#"{"choices":[{"delta":{"content":"late"}}]}"#);
    assert_eq!(
        openai(&script),
        (vec![openai_error(), done(StopReason::Aborted)], Ok(true))
    );
}

#[test]
fn chunking_makes_no_difference() {
    let mut script = String::from(": comment\r\nevent: x\r\ndata:{\"choices\":\r\n");
    script.push_str("data:  [{\"delta\":{\"content\":\"h\u{e9}\u{1f600}\"}}]}\r\n\r\n\n\n");
    script.push_str(&text_turn());
    let bytes = script.as_bytes();
    let whole = openai(&script);
    assert_eq!(
        whole,
        (
            vec![
                text("h\u{e9}\u{1f600}"),
                text("done"),
                done(StopReason::EndTurn)
            ],
            Ok(true)
        )
    );
    for size in 1..bytes.len() {
        let chunks = bytes.chunks(size).map(|chunk| chunk.to_vec()).collect();
        assert_eq!(drive(parse_openai_sse_data, chunks, 100), whole, "size={size}");
    }
    let one_by_one = bytes.iter().flat_map(|byte| vec![vec![], vec![*byte]]).collect();
    assert_eq!(drive(parse_openai_sse_data, one_by_one, 100), whole);
}

#[test]
fn refusal_ends_the_turn() {
    let mut script = String::new();
    for content in ["a", "b", "c"] {
        write_event(
            &mut script,
            &format!("{{\"choices\":[{{\"delta\":{{\"content\":\"{content}\"}}}}]}}"),
        );
    }
    let whole = vec![text("a"), text("b"), text("c")];
    for capacity in 0..3 {
        let (sent, outcome) = drive(
            parse_openai_sse_data,
            vec![script.as_bytes().to_vec()],
            capacity,
        );
        assert_eq!(sent, whole[..capacity + 1].to_vec());
        assert_eq!(outcome, Ok(true));
    }
    assert_eq!(openai(&script), (whole, Ok(false)));

    let error = b"data: {\"error\":1}\n\n".to_vec();
    assert_eq!(
        drive(parse_openai_sse_data, vec![error.clone()], 0),
        (vec![openai_error()], Ok(true))
    );
    assert_eq!(
        drive(parse_openai_sse_data, vec![error], 1),
        (vec![openai_error(), done(StopReason::Aborted)], Ok(true))
    );
}

#[test]
fn last_event_need_not_be_ended() {
    assert_eq!(
        openai("data: {\"choices\":[{\"delta\":{\"content\":\"x\"}}]}"),
        (vec![text("x")], Ok(false))
    );
    assert_eq!(
        openai("data: {\"choices\":[{\"delta\":{\"content\":\"x\"}}]}\r\n"),
        (vec![text("x")], Ok(false))
    );
    assert_eq!(openai("data: [DONE]\r"), (vec![done(StopReason::EndTurn)], Ok(true)));
    assert_eq!(
        openai("data: {\"error\":1}"),
        (vec![openai_error(), done(StopReason::Aborted)], Ok(true))
    );
    assert_eq!(openai(""), (vec![], Ok(false)));
    assert_eq!(openai("data:\n\ndata:   \n\nid: 7\n\n"), (vec![], Ok(false)));
    assert_eq!(openai("data: nonsense\n\n"), (vec![], Ok(false)));
}

#[test]
fn refused_trailing_delta_ends_the_turn() {
    let body = b"data: {\"choices\":[{\"delta\":{\"content\":\"x\"}}]}".to_vec();
    assert_eq!(
        drive(parse_openai_sse_data, vec![body], 0),
        (vec![text("x")], Ok(true))
    );
}

#[test]
fn anthropic_stream() {
    let script = concat_script(&[
        "event: content_block_delta",
        r#"data: {"type":"content_block_delta","delta":{"type":"text_delta","text":"hi"}}"#,
        "",
        "event: message_delta",
        r#"data: {"type":"message_delta","delta":{"stop_reason":"max_tokens"}}"#,
        "",
        r#"data: {"type":"message_stop"}"#,
        "",
    ]);
    assert_eq!(
        drive(parse_anthropic_sse_data, vec![script.into_bytes()], 100),
        (vec![text("hi"), done(StopReason::MaxTokens)], Ok(true))
    );
}

#[test]
fn ill_formed_bytes_are_replaced() {
    let mut body = b"data: {\"choices\":[{\"delta\":{\"content\":\"".to_vec();
    body.extend_from_slice(b"a\xffb");
    body.extend_from_slice(b"\"}}]}\n\n");
    assert_eq!(
        drive(parse_openai_sse_data, vec![body], 100),
        (vec![text("a\u{fffd}b")], Ok(false))
    );
}

#[test]
fn closed_receiver_and_broken_response() {
    let mut pump = SsePump::new();
    assert_eq!(pump.phase(), PumpPhase::Reading);
    assert_eq!(
        pump.on_chunk(true, Err("reset".into())),
        PumpAction::Return(Ok(true))
    );
    assert_eq!(pump.phase(), PumpPhase::Returned);

    let mut pump = SsePump::new();
    assert_eq!(
        pump.on_chunk(false, Ok(b"data: {\"error\":1}\n\ndata".to_vec())),
        PumpAction::Parse("{\"error\":1}".into())
    );
    assert_eq!(pump.phase(), PumpPhase::Parsing { stream_over: false });
    assert_eq!(
        pump.on_parse(Some(openai_error())),
        PumpAction::Send(openai_error())
    );
    assert_eq!(pump.phase(), PumpPhase::Sending(Delivery::Failed));

    let mut pump = SsePump::new();
    assert_eq!(pump.on_chunk(false, Ok(b"data".to_vec())), PumpAction::Read);
    assert_eq!(
        pump.on_chunk(false, Err("reset".into())),
        PumpAction::Return(Err(BuiltinHttpError::SseStream {
            message: "reset".into()
        }))
    );
}

#[test]
fn broken_response_has_sent_its_whole_events() {
    let mut body = script(&["a"]);
    body.extend_from_slice(b"data: b");
    let mut pump = SsePump::new();
    assert_eq!(
        pump.on_chunk(false, Ok(body)),
        PumpAction::Parse("a".into())
    );
    assert_eq!(pump.on_parse(Some(text("a"))), PumpAction::Send(text("a")));
    assert_eq!(pump.on_send(true), PumpAction::Read);
    assert_eq!(
        pump.on_chunk(false, Err("reset".into())),
        PumpAction::Return(Err(BuiltinHttpError::SseStream {
            message: "reset".into()
        }))
    );
}

#[test]
fn written_events_are_read_back() {
    for content in ["hello", "  spaced  ", "\u{1f600}\u{85}", "\\r", "data: x"] {
        let mut script = String::new();
        write_event(
            &mut script,
            &format!("\t {{\"choices\":[{{\"delta\":{{\"content\":\"{content}\"}}}}]}}"),
        );
        assert_eq!(
            script,
            format!(
                "data: \t {{\"choices\":[{{\"delta\":{{\"content\":\"{content}\"}}}}]}}\n\n"
            )
        );
        assert_eq!(
            openai(&script),
            (vec![text(&content.replace("\\r", "\r"))], Ok(false))
        );
    }
}

#[test]
fn payload_is_handed_to_the_parser_once() {
    let body = b"data: a\nevent: x\ndata:  b\n\n\n".to_vec();
    assert_eq!(
        course(echo, vec![body], 100),
        (vec!["a\nb".to_string()], vec![text("a\nb")], Ok(false))
    );
}

#[test]
fn blank_payloads_are_not_parsed() {
    assert_eq!(
        course(echo, vec![b"data:\n\ndata: \t\n\n\nid: 7\n\ndata:".to_vec()], 100),
        (vec![], vec![], Ok(false))
    );
    assert_eq!(
        course(echo, vec!["data: .\ndata: a \u{a0}\n\n".as_bytes().to_vec()], 100).0,
        vec![".\na".to_string()]
    );
}

#[test]
fn payloads_may_stand_for_nothing() {
    assert_eq!(
        course(tagged, vec![script(&["-", "ta", "-", "tb"]), b"data: -".to_vec()], 100),
        (
            ["-", "ta", "-", "tb", "-"].map(String::from).to_vec(),
            vec![text("a"), text("b")],
            Ok(false)
        )
    );
}

#[test]
fn turn_of_any_parser_ends_once() {
    assert_eq!(
        course(tagged, vec![script(&["ta", "d", "tb", "d", "e"])], 100),
        (
            ["ta", "d"].map(String::from).to_vec(),
            vec![text("a"), done(StopReason::ToolUse)],
            Ok(true)
        )
    );
    assert_eq!(
        course(tagged, vec![script(&["ta", "ebad", "tb", "d"])], 100),
        (
            ["ta", "ebad"].map(String::from).to_vec(),
            vec![
                text("a"),
                ChatDelta::Error("bad".into()),
                done(StopReason::Aborted)
            ],
            Ok(true)
        )
    );
    assert_eq!(
        course(tagged, vec![b"data: ta\n\ndata: ebad".to_vec()], 1).1,
        vec![text("a"), ChatDelta::Error("bad".into())]
    );
}

#[test]
fn line_ends_and_other_lines_make_no_difference() {
    let plain = "data: ta\ndata: b\n\ndata: -\n\ndata: tc\n\n";
    let whole = course(tagged, vec![plain.as_bytes().to_vec()], 100);
    assert_eq!(
        whole,
        (
            ["ta\nb", "-", "tc"].map(String::from).to_vec(),
            vec![text("a\nb"), text("c")],
            Ok(false)
        )
    );
    for (line_end, noise) in [
        ("\r\n", ""),
        ("\r\r\n", ""),
        ("\n", ": ping\nevent: x\n"),
        ("\r\n", "id: 1\r\n data: no\nDATA: no\r\n"),
    ] {
        let mut other = String::from(noise);
        for line in plain.split_inclusive('\n') {
            other.push_str(&line.replace('\n', line_end));
            other.push_str(noise);
        }
        assert_eq!(course(tagged, vec![other.into_bytes()], 100), whole, "{line_end:?} {noise:?}");
    }
    let mut ill_formed = b"\xff: noise\n".to_vec();
    ill_formed.extend_from_slice(plain.as_bytes());
    assert_eq!(course(tagged, vec![ill_formed], 100), whole);
}

#[test]
fn line_ends_make_no_difference_to_ill_formed_lines() {
    let plain = b"data: ta\xff\n\xc3\n\ndata: tb\xf0\x9f\x98\n\ndata: t\xed\xa0\x80c\n\ndata: td\xe2".to_vec();
    let whole = course(tagged, vec![plain.clone()], 100);
    assert_eq!(
        whole.1,
        vec![
            text("a\u{fffd}"),
            text("b\u{fffd}"),
            text("\u{fffd}\u{fffd}\u{fffd}c"),
            text("d\u{fffd}")
        ]
    );
    for line_end in [&b"\r\n"[..], b"\r\r\n"] {
        let mut other = Vec::new();
        for byte in &plain {
            if *byte == b'\n' {
                other.extend_from_slice(line_end);
            } else {
                other.push(*byte);
            }
        }
        assert_eq!(course(tagged, vec![other], 100), whole);
    }
}
