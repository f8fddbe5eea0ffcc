use chat_wire::anthropic::{anthropic_event_delta, parse_anthropic_sse_data};
use chat_wire::delta::{map_anthropic_stop_reason, map_openai_stop_reason, ChatDelta, StopReason};
use chat_wire::openai::{
    openai_event_delta, openai_event_deltas, parse_openai_sse_data, OpenAiCollector,
};

fn done(stop_reason: StopReason) -> Option<ChatDelta> {
    Some(ChatDelta::Done { stop_reason })
}

#[test]
fn parse_openai_sse_data_extracts_text_delta() {
    let data = r#"{"choices":[{"delta":{"content":"hello"}}]}"#;
    assert_eq!(
        parse_openai_sse_data(data),
        Some(ChatDelta::TextDelta("hello".into()))
    );
}

#[test]
fn classic_openai_mixed_reasoning_and_content_delta_preserves_content() {
    let data =
        r#"{"choices":[{"delta":{"reasoning_content":"plan","content":"batch_design(...)"}}]}"#;
    assert_eq!(
        parse_openai_sse_data(data),
        Some(ChatDelta::TextDelta("batch_design(...)".into()))
    );
}

#[test]
fn classic_openai_reasoning_only_delta_stays_visible_as_thinking() {
    let data = r#"{"choices":[{"delta":{"reasoning_content":"plan"}}]}"#;
    assert_eq!(
        parse_openai_sse_data(data),
        Some(ChatDelta::Thinking("plan".into()))
    );
}

#[test]
fn agent_loop_mixed_reasoning_and_content_delta_emits_both_in_order() {
    let collector = OpenAiCollector::default();
    let deltas = collector.handle(
        r#"{"choices":[{"delta":{"reasoning_content":"plan","content":"batch_design(...)"}}]}"#,
    );
    assert_eq!(
        deltas,
        vec![
            ChatDelta::Thinking("plan".into()),
            ChatDelta::TextDelta("batch_design(...)".into()),
        ]
    );
}

#[test]
fn parse_anthropic_sse_data_extracts_text_delta() {
    let data = r#"{"type":"content_block_delta","delta":{"type":"text_delta","text":"hello"}}"#;
    assert_eq!(
        parse_anthropic_sse_data(data),
        Some(ChatDelta::TextDelta("hello".into()))
    );
}

#[test]
fn openai_sse_error_does_not_reflect_upstream_message() {
    let sentinel = "SENTINEL_sk-browser-secret";
    let data = format!(r#"{{"error":{{"message":"provider echoed {sentinel}"}}}}"#);

    let delta = parse_openai_sse_data(&data).expect("error event parses");

    assert_eq!(
        delta,
        ChatDelta::Error("OpenAI-compatible provider reported a stream error".into())
    );
    assert!(!format!("{delta:?}").contains(sentinel));
}

#[test]
fn anthropic_sse_error_does_not_reflect_upstream_message() {
    let sentinel = "SENTINEL_anthropic-browser-secret";
    let data = format!(
        r#"{{"type":"error","error":{{"type":"invalid_request_error","message":"provider echoed {sentinel}"}}}}"#
    );

    let delta = parse_anthropic_sse_data(&data).expect("error event parses");

    assert_eq!(
        delta,
        ChatDelta::Error("Anthropic provider reported a stream error".into())
    );
    assert!(!format!("{delta:?}").contains(sentinel));
}

#[test]
fn openai_done_marker_ends_the_turn() {
    assert_eq!(parse_openai_sse_data("[DONE]"), done(StopReason::EndTurn));
    assert_eq!(
        parse_openai_sse_data(" \u{3000}[DONE]\r\n"),
        done(StopReason::EndTurn)
    );
    assert_eq!(parse_openai_sse_data("[done]"), None);
}

#[test]
fn openai_payloads_without_an_event() {
    for data in [
        "",
        "not json",
        "{",
        "[]",
        "{}",
        r#"{"choices":[]}"#,
        r#"{"choices":{"0":{}}}"#,
        r#"{"choices":[{}]}"#,
        r#"{"choices":[{"delta":null,"finish_reason":null}]}"#,
        r#"{"choices":[{"delta":{"content":""}}]}"#,
        r#"{"choices":[{"delta":{"content":7}}]}"#,
        r#"{"choices":[{"delta":{"reasoning_content":null,"reasoning":"hidden"}}]}"#,
    ] {
        assert_eq!(parse_openai_sse_data(data), None, "data={data}");
        assert!(
            OpenAiCollector::default().handle(data).is_empty(),
            "data={data}"
        );
    }
}

#[test]
fn openai_reasoning_falls_back_and_error_comes_first() {
    assert_eq!(
        parse_openai_sse_data(r#"{"choices":[{"delta":{"reasoning":"why"}}]}"#),
        Some(ChatDelta::Thinking("why".into()))
    );
    assert_eq!(
        parse_openai_sse_data(r#"{"error":null,"choices":[{"delta":{"content":"x"}}]}"#),
        Some(ChatDelta::Error(
            "OpenAI-compatible provider reported a stream error".into()
        ))
    );
    assert_eq!(
        parse_openai_sse_data(
            r#"{"choices":[{"delta":{"content":"x"},"finish_reason":"length"}]}"#
        ),
        Some(ChatDelta::TextDelta("x".into()))
    );
    assert_eq!(
        parse_openai_sse_data(r#"{"choices":[{"delta":{},"finish_reason":"length"}]}"#),
        done(StopReason::MaxTokens)
    );
}

#[test]
fn one_event_is_the_last_of_all_that_a_payload_carries() {
    for data in [
        r#"{"choices":[{"delta":{"reasoning":"plan","content":"text"}}]}"#,
        r#"{"choices":[{"delta":{"content":"text"}}]}"#,
        r#"{"choices":[{"finish_reason":"stop"}]}"#,
        r#"{"error":"x"}"#,
        "[DONE]",
        "nothing",
    ] {
        assert_eq!(
            OpenAiCollector::default().handle(data).last().cloned(),
            parse_openai_sse_data(data),
            "data={data}"
        );
    }
}

#[test]
fn events_of_parsed_payloads() {
    let value = serde_json::from_str(r#"{"choices":[{"delta":{"content":"a"}},{}]}"#).unwrap();
    assert_eq!(
        openai_event_delta(&value),
        Some(ChatDelta::TextDelta("a".into()))
    );
    assert_eq!(
        openai_event_deltas(&value),
        vec![ChatDelta::TextDelta("a".into())]
    );
    assert_eq!(anthropic_event_delta(&value), None);
    let value = serde_json::from_str(r#"{"type":"message_stop"}"#).unwrap();
    assert_eq!(anthropic_event_delta(&value), done(StopReason::EndTurn));
}

#[test]
fn anthropic_events() {
    assert_eq!(
        parse_anthropic_sse_data(
            r#" {"type":"content_block_delta","delta":{"type":"thinking_delta","thinking":"hm"}} "#
        ),
        Some(ChatDelta::Thinking("hm".into()))
    );
    assert_eq!(
        parse_anthropic_sse_data(r#"{"type":"message_delta","delta":{"stop_reason":"tool_use"}}"#),
        done(StopReason::ToolUse)
    );
    assert_eq!(
        parse_anthropic_sse_data(r#"{"type":"message_stop"}"#),
        done(StopReason::EndTurn)
    );
}

#[test]
fn anthropic_payloads_without_an_event() {
    for data in [
        "",
        "[DONE]",
        "null",
        r#"{"type":5}"#,
        r#"{"type":"ping"}"#,
        r#"{"type":"content_block_delta"}"#,
        r#"{"type":"content_block_delta","delta":{"type":"text_delta","text":""}}"#,
        r#"{"type":"content_block_delta","delta":{"type":"text_delta","thinking":"x"}}"#,
        r#"{"type":"content_block_delta","delta":{"type":"input_json_delta","text":"x"}}"#,
        r#"{"type":"message_delta"}"#,
        r#"{"type":"message_delta","delta":["stop_reason"]}"#,
        r#"{"type":"message_delta","delta":{"stop_reason":null}}"#,
    ] {
        assert_eq!(parse_anthropic_sse_data(data), None, "data={data}");
    }
}

#[test]
fn anthropic_stop_reasons() {
    assert_eq!(map_anthropic_stop_reason("max_tokens"), StopReason::MaxTokens);
    assert_eq!(map_anthropic_stop_reason("tool_use"), StopReason::ToolUse);
    assert_eq!(map_anthropic_stop_reason("aborted"), StopReason::Aborted);
    assert_eq!(map_anthropic_stop_reason("user_abort"), StopReason::Aborted);
    assert_eq!(map_anthropic_stop_reason("end_turn"), StopReason::EndTurn);
    assert_eq!(map_anthropic_stop_reason("Max_tokens"), StopReason::EndTurn);
    assert_eq!(map_anthropic_stop_reason(""), StopReason::EndTurn);
}

#[test]
fn openai_stop_reasons() {
    assert_eq!(map_openai_stop_reason("length"), StopReason::MaxTokens);
    assert_eq!(map_openai_stop_reason("tool_calls"), StopReason::ToolUse);
    assert_eq!(map_openai_stop_reason("function_call"), StopReason::ToolUse);
    assert_eq!(map_openai_stop_reason("content_filter"), StopReason::Aborted);
    assert_eq!(map_openai_stop_reason("stop"), StopReason::EndTurn);
    assert_eq!(map_openai_stop_reason("lengthy"), StopReason::EndTurn);
}
