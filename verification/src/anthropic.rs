//! Stream payloads of Anthropic.

use crate::delta::{self, map_anthropic_stop_reason, ChatDelta, Delta, StopReason};
use crate::json::{self, filled_member, member_str, parse_json, value_get, Json};
use crate::text::{self, same_text};
use serde_json::Value;
use vstd::prelude::*;

verus! {

/// What a turn is told of an error that the provider reports in its stream.
pub const ANTHROPIC_STREAM_ERROR: &'static str = "Anthropic provider reported a stream error";

/// The `type` of a JSON object; empty where it has none.
pub open spec fn type_of(json: Json) -> Seq<char> {
    match json::member_text(json, "type"@) {
        Some(kind) => kind,
        None => Seq::empty(),
    }
}

/// What the delta of a content block says.
pub open spec fn block_delta(delta: Json) -> Option<Delta> {
    if type_of(delta) == "text_delta"@ {
        match json::filled_text(delta, "text"@) {
            Some(text) => Some(Delta::Text(text)),
            None => None,
        }
    } else if type_of(delta) == "thinking_delta"@ {
        match json::filled_text(delta, "thinking"@) {
            Some(text) => Some(Delta::Thinking(text)),
            None => None,
        }
    } else {
        None
    }
}

/// The end of the turn that the delta of a message announces.
pub open spec fn message_stop_reason(event: Json) -> Option<Delta> {
    match json::member(event, "delta"@) {
        Some(delta) => match json::member_text(delta, "stop_reason"@) {
            Some(reason) => Some(Delta::Done(delta::anthropic_stop_reason(reason))),
            None => None,
        },
        None => None,
    }
}

/// The one event that a payload stands for.
pub open spec fn anthropic_event(event: Json) -> Option<Delta> {
    let kind = type_of(event);
    if kind == "content_block_delta"@ {
        match json::member(event, "delta"@) {
            Some(delta) => block_delta(delta),
            None => None,
        }
    } else if kind == "message_delta"@ {
        message_stop_reason(event)
    } else if kind == "message_stop"@ {
        Some(Delta::Done(StopReason::EndTurn))
    } else if kind == "error"@ {
        Some(Delta::Error(ANTHROPIC_STREAM_ERROR@))
    } else {
        None
    }
}

/// The event that the text of a payload stands for.
pub open spec fn anthropic_payload(data: Seq<char>) -> Option<Delta> {
    match json::json_parse(text::trimmed(data)) {
        Some(event) => anthropic_event(event),
        None => None,
    }
}

/// The `type` of a JSON object; empty where it has none.
fn type_str(value: &Value) -> (kind: &str)
    ensures
        kind@ == type_of(json::json_of(*value)),
{
    match member_str(value, "type") {
        Some(kind) => kind,
        None => {
            proof {
                reveal_strlit("");
                assert(""@ =~= Seq::<char>::empty());
            }
            ""
        },
    }
}

/// What the delta of a content block says.
fn block_event(delta: &Value) -> (event: Option<ChatDelta>)
    ensures
        delta::viewed(event) == block_delta(json::json_of(*delta)),
{
    let kind = type_str(delta);
    if same_text(kind, "text_delta") {
        match filled_member(delta, "text") {
            Some(text) => Some(ChatDelta::TextDelta(text)),
            None => None,
        }
    } else if same_text(kind, "thinking_delta") {
        match filled_member(delta, "thinking") {
            Some(text) => Some(ChatDelta::Thinking(text)),
            None => None,
        }
    } else {
        None
    }
}

/// `/delta/stop_reason` is the pointer to the member `stop_reason` of the member `delta`.
proof fn lemma_stop_reason_pointer(event: Json)
    ensures
        json::pointer_text(seq!["delta"@, "stop_reason"@]) == "/delta/stop_reason"@,
        json::plain_key("delta"@),
        json::plain_key("stop_reason"@),
        json::member_at(event, seq!["delta"@, "stop_reason"@]) == (match json::member(
            event,
            "delta"@,
        ) {
            Some(delta) => json::member(delta, "stop_reason"@),
            None => None,
        }),
{
    let keys = seq!["delta"@, "stop_reason"@];
    reveal_strlit("delta");
    reveal_strlit("stop_reason");
    reveal_strlit("/delta/stop_reason");
    reveal_with_fuel(json::pointer_text, 3);
    reveal_with_fuel(json::member_at, 3);
    assert(keys.drop_first() =~= seq!["stop_reason"@]);
    assert(keys.drop_first().drop_first() =~= Seq::<Seq<char>>::empty());
    assert(json::pointer_text(keys) =~= "/delta/stop_reason"@);
}

/// The end of the turn that the delta of a message announces.
fn message_event(value: &Value) -> (event: Option<ChatDelta>)
    ensures
        delta::viewed(event) == message_stop_reason(json::json_of(*value)),
{
    proof {
        lemma_stop_reason_pointer(json::json_of(*value));
    }
    match value.pointer("/delta/stop_reason") {
        Some(reason) => match reason.as_str() {
            Some(reason) => Some(
                ChatDelta::Done { stop_reason: map_anthropic_stop_reason(reason) },
            ),
            None => None,
        },
        None => None,
    }
}

/// The one event that a parsed payload stands for. Of an error that the provider reports
/// nothing is passed on but that there was one.
pub fn anthropic_event_delta(value: &Value) -> (event: Option<ChatDelta>)
    ensures
        delta::viewed(event) == anthropic_event(json::json_of(*value)),
{
    let kind = type_str(value);
    if same_text(kind, "content_block_delta") {
        match value_get(value, "delta") {
            Some(delta) => block_event(delta),
            None => None,
        }
    } else if same_text(kind, "message_delta") {
        message_event(value)
    } else if same_text(kind, "message_stop") {
        Some(ChatDelta::Done { stop_reason: StopReason::EndTurn })
    } else if same_text(kind, "error") {
        Some(ChatDelta::Error(ANTHROPIC_STREAM_ERROR.to_owned()))
    } else {
        None
    }
}

/// The one event that the payload of a stream event stands for, if any.
pub fn parse_anthropic_sse_data(data: &str) -> (event: Option<ChatDelta>)
    ensures
        delta::viewed(event) == anthropic_payload(data@),
{
    match parse_json(data.trim()) {
        Some(value) => anthropic_event_delta(&value),
        None => None,
    }
}

/// Nothing of a reported error is passed on: any two payloads that report one, whatever else they
/// hold, stand for the same event.
pub proof fn law_anthropic_error_reveals_nothing(event: Json, other: Json)
    requires
        type_of(event) == "error"@,
        type_of(other) == "error"@,
    ensures
        anthropic_event(event) == Some(Delta::Error(ANTHROPIC_STREAM_ERROR@)),
        anthropic_event(event) == anthropic_event(other),
{
    reveal_strlit("error");
    reveal_strlit("content_block_delta");
    reveal_strlit("message_delta");
    reveal_strlit("message_stop");
    assert("error"@.len() < "message_stop"@.len());
    assert("error"@.len() < "message_delta"@.len());
    assert("error"@.len() < "content_block_delta"@.len());
}

proof fn lemma_kinds()
    ensures
        "content_block_delta"@ != "message_delta"@,
        "content_block_delta"@ != "message_stop"@,
        "content_block_delta"@ != "error"@,
        "message_delta"@ != "message_stop"@,
        "message_delta"@ != "error"@,
        "message_stop"@ != "error"@,
        "text_delta"@ != "thinking_delta"@,
        "content_block_delta"@.len() > 0,
        "message_delta"@.len() > 0,
        "message_stop"@.len() > 0,
        "error"@.len() > 0,
        "text_delta"@.len() > 0,
        "thinking_delta"@.len() > 0,
{
    reveal_strlit("error");
    reveal_strlit("content_block_delta");
    reveal_strlit("message_delta");
    reveal_strlit("message_stop");
    reveal_strlit("text_delta");
    reveal_strlit("thinking_delta");
    assert("message_delta"@.len() != "message_stop"@.len());
    assert("message_delta"@.len() != "content_block_delta"@.len());
    assert("message_stop"@.len() != "content_block_delta"@.len());
    assert("error"@.len() < "message_stop"@.len());
    assert("text_delta"@.len() != "thinking_delta"@.len());
}

/// Text comes through: a content block's delta of type `text_delta` stands for its text, and
/// one of type `thinking_delta` for its thinking, whatever other members there are.
pub proof fn law_block_delta_comes_through(event: Json, delta: Json, content: Seq<char>)
    requires
        json::member(event, "type"@) == Some(Json::Text("content_block_delta"@)),
        json::member(event, "delta"@) == Some(delta),
        content.len() > 0,
    ensures
        json::member(delta, "type"@) == Some(Json::Text("text_delta"@)) && json::member(
            delta,
            "text"@,
        ) == Some(Json::Text(content)) ==> anthropic_event(event) == Some(Delta::Text(content)),
        json::member(delta, "type"@) == Some(Json::Text("thinking_delta"@)) && json::member(
            delta,
            "thinking"@,
        ) == Some(Json::Text(content)) ==> anthropic_event(event) == Some(
            Delta::Thinking(content),
        ),
{
    lemma_kinds();
}

/// The end of a message ends the turn for the reason that the message gives: the turn is aborted
/// only if that is `aborted` or `user_abort`, and `end_turn` is an ordinary end.
pub proof fn law_stop_reason_ends_the_turn(event: Json, delta: Json, reason: Seq<char>)
    requires
        json::member(event, "type"@) == Some(Json::Text("message_delta"@)),
        json::member(event, "delta"@) == Some(delta),
        json::member(delta, "stop_reason"@) == Some(Json::Text(reason)),
    ensures
        anthropic_event(event) matches Some(Delta::Done(stop)) && {
            &&& stop == delta::anthropic_stop_reason(reason)
            &&& stop == StopReason::MaxTokens <==> reason == "max_tokens"@
            &&& stop == StopReason::ToolUse <==> reason == "tool_use"@
            &&& stop == StopReason::Aborted <==> (reason == "aborted"@ || reason
                == "user_abort"@)
            &&& reason == "end_turn"@ ==> stop == StopReason::EndTurn
        },
{
    lemma_kinds();
    delta::law_anthropic_stop_reasons(reason);
}

/// A message that stops ends the turn, and an error that is reported fails it, whatever else the
/// payload holds.
pub proof fn law_stop_and_error_end_the_turn(event: Json)
    ensures
        json::member(event, "type"@) == Some(Json::Text("message_stop"@)) ==> anthropic_event(event)
            == Some(Delta::Done(StopReason::EndTurn)),
        json::member(event, "type"@) == Some(Json::Text("error"@)) ==> anthropic_event(event)
            == Some(Delta::Error("Anthropic provider reported a stream error"@)),
{
    lemma_kinds();
}

/// Every event comes of a payload that carries it: text of a `text_delta` with that text,
/// thinking of a `thinking_delta` with that thinking, an end of a `message_stop` or of a
/// `message_delta` with a reason, and an error of an `error`. All other payloads stand for
/// nothing.
pub proof fn law_anthropic_event_is_carried(event: Json)
    ensures
        anthropic_event(event) matches Some(told) ==> {
            let kind = json::member(event, "type"@);
            let delta = json::member(event, "delta"@);
            match told {
                Delta::Text(content) => {
                    &&& kind == Some(Json::Text("content_block_delta"@))
                    &&& delta is Some
                    &&& json::member(delta->0, "type"@) == Some(Json::Text("text_delta"@))
                    &&& json::member(delta->0, "text"@) == Some(Json::Text(content))
                    &&& content.len() > 0
                },
                Delta::Thinking(content) => {
                    &&& kind == Some(Json::Text("content_block_delta"@))
                    &&& delta is Some
                    &&& json::member(delta->0, "type"@) == Some(Json::Text("thinking_delta"@))
                    &&& json::member(delta->0, "thinking"@) == Some(Json::Text(content))
                    &&& content.len() > 0
                },
                Delta::Done(_) => {
                    ||| kind == Some(Json::Text("message_stop"@))
                    ||| {
                        &&& kind == Some(Json::Text("message_delta"@))
                        &&& delta is Some
                        &&& json::member(delta->0, "stop_reason"@) matches Some(Json::Text(_))
                    }
                },
                Delta::Error(_) => kind == Some(Json::Text("error"@)),
            }
        },
{
    lemma_kinds();
}

/// A payload is read as JSON without the white space around it, and stands for what the JSON
/// stands for. One that is no JSON stands for nothing.
pub proof fn law_anthropic_payload_is_its_json(data: Seq<char>)
    ensures
        json::json_parse(text::trimmed(data)) matches Some(event) ==> anthropic_payload(data)
            == anthropic_event(event),
        json::json_parse(text::trimmed(data)) is None ==> anthropic_payload(data) is None,
{
}

} // verus!
