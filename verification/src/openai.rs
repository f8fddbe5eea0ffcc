//! Stream payloads of OpenAI-compatible providers.

use crate::delta::{self, map_openai_stop_reason, ChatDelta, Delta, StopReason};
use crate::json::{self, filled_member, member_str, parse_json, value_get, Json};
use crate::text::{self, same_text};
use serde_json::Value;
use vstd::prelude::*;

verus! {

/// The payload that closes a stream.
pub const DONE_PAYLOAD: &'static str = "[DONE]";

/// What a turn is told of an error that the provider reports in its stream.
pub const OPENAI_STREAM_ERROR: &'static str = "OpenAI-compatible provider reported a stream error";

/// The first choice of an event.
pub open spec fn first_choice(event: Json) -> Option<Json> {
    match json::member(event, "choices"@) {
        Some(Json::Array(choices)) => if choices.len() > 0 {
            Some(choices[0])
        } else {
            None
        },
        _ => None,
    }
}

/// The content that a choice carries.
pub open spec fn choice_content(choice: Json) -> Option<Seq<char>> {
    match json::member(choice, "delta"@) {
        Some(delta) => json::filled_text(delta, "content"@),
        None => None,
    }
}

/// The reasoning that a choice carries: `reasoning_content`, or `reasoning` where the delta
/// has no `reasoning_content` at all.
pub open spec fn choice_reasoning(choice: Json) -> Option<Seq<char>> {
    match json::member(choice, "delta"@) {
        Some(delta) => if json::member(delta, "reasoning_content"@) is Some {
            json::filled_text(delta, "reasoning_content"@)
        } else {
            json::filled_text(delta, "reasoning"@)
        },
        None => None,
    }
}

/// The one event that a payload stands for: an error, or else what its first choice says,
/// content before reasoning before the end of the turn.
pub open spec fn openai_event(event: Json) -> Option<Delta> {
    if json::member(event, "error"@) is Some {
        Some(Delta::Error(OPENAI_STREAM_ERROR@))
    } else {
        match first_choice(event) {
            Some(choice) => match (
                choice_content(choice),
                choice_reasoning(choice),
                json::member_text(choice, "finish_reason"@),
            ) {
                (Some(content), _, _) => Some(Delta::Text(content)),
                (None, Some(reasoning), _) => Some(Delta::Thinking(reasoning)),
                (None, None, Some(reason)) => Some(Delta::Done(delta::openai_stop_reason(reason))),
                (None, None, None) => None,
            },
            None => None,
        }
    }
}

/// The event that the text of a payload stands for.
pub open spec fn openai_payload(data: Seq<char>) -> Option<Delta> {
    let data = text::trimmed(data);
    if data == DONE_PAYLOAD@ {
        Some(Delta::Done(StopReason::EndTurn))
    } else {
        match json::json_parse(data) {
            Some(event) => openai_event(event),
            None => None,
        }
    }
}

/// The first choice of an event.
fn event_choice(value: &Value) -> (choice: Option<&Value>)
    ensures
        match choice {
            Some(choice) => first_choice(json::json_of(*value)) == Some(json::json_of(*choice)),
            None => first_choice(json::json_of(*value)) is None,
        },
{
    match value_get(value, "choices") {
        Some(choices) => match choices.as_array() {
            Some(choices) => if choices.len() > 0 {
                Some(&choices[0])
            } else {
                None
            },
            None => None,
        },
        None => None,
    }
}

/// The content that a choice carries.
fn content_of(choice: &Value) -> (content: Option<String>)
    ensures
        match content {
            Some(content) => choice_content(json::json_of(*choice)) == Some(content@),
            None => choice_content(json::json_of(*choice)) is None,
        },
{
    match value_get(choice, "delta") {
        Some(delta) => filled_member(delta, "content"),
        None => None,
    }
}

/// The reasoning that a choice carries.
fn reasoning_of(choice: &Value) -> (reasoning: Option<String>)
    ensures
        match reasoning {
            Some(reasoning) => choice_reasoning(json::json_of(*choice)) == Some(reasoning@),
            None => choice_reasoning(json::json_of(*choice)) is None,
        },
{
    match value_get(choice, "delta") {
        Some(delta) => if value_get(delta, "reasoning_content").is_some() {
            filled_member(delta, "reasoning_content")
        } else {
            filled_member(delta, "reasoning")
        },
        None => None,
    }
}

/// The end of the turn that a choice announces.
fn finish_of(choice: &Value) -> (done: Option<ChatDelta>)
    ensures
        delta::viewed(done) == (match json::member_text(
            json::json_of(*choice),
            "finish_reason"@,
        ) {
            Some(reason) => Some(Delta::Done(delta::openai_stop_reason(reason))),
            None => None,
        }),
{
    match member_str(choice, "finish_reason") {
        Some(reason) => Some(ChatDelta::Done { stop_reason: map_openai_stop_reason(reason) }),
        None => None,
    }
}

/// The one event that a parsed payload stands for. Some providers put reasoning and the first
/// content token in the same delta; content wins, since this gives one event and a dropped
/// token could be the only one that bears the script. Of an error that the provider reports
/// nothing is passed on but that there was one: its message may reflect request headers or
/// credentials.
pub fn openai_event_delta(value: &Value) -> (event: Option<ChatDelta>)
    ensures
        delta::viewed(event) == openai_event(json::json_of(*value)),
{
    if value_get(value, "error").is_some() {
        return Some(ChatDelta::Error(OPENAI_STREAM_ERROR.to_owned()));
    }
    let choice = match event_choice(value) {
        Some(choice) => choice,
        None => {
            return None;
        },
    };
    if let Some(content) = content_of(choice) {
        return Some(ChatDelta::TextDelta(content));
    }
    if let Some(reasoning) = reasoning_of(choice) {
        return Some(ChatDelta::Thinking(reasoning));
    }
    finish_of(choice)
}

/// The one event that the payload of a stream event stands for, if any.
pub fn parse_openai_sse_data(data: &str) -> (event: Option<ChatDelta>)
    ensures
        delta::viewed(event) == openai_payload(data@),
{
    let data = data.trim();
    if same_text(data, DONE_PAYLOAD) {
        return Some(ChatDelta::Done { stop_reason: StopReason::EndTurn });
    }
    match parse_json(data) {
        Some(value) => openai_event_delta(&value),
        None => None,
    }
}

/// All that a payload carries: its reasoning and its content, in this order, or where it does
/// not have both the one event that it stands for.
pub open spec fn openai_events(event: Json) -> Seq<Delta> {
    match (json::member(event, "error"@), first_choice(event)) {
        (None, Some(choice)) => match (choice_reasoning(choice), choice_content(choice)) {
            (Some(reasoning), Some(content)) => seq![
                Delta::Thinking(reasoning),
                Delta::Text(content),
            ],
            _ => single(openai_event(event)),
        },
        _ => single(openai_event(event)),
    }
}

/// One event, or none.
pub open spec fn single(event: Option<Delta>) -> Seq<Delta> {
    match event {
        Some(event) => seq![event],
        None => Seq::empty(),
    }
}

/// All that the text of a payload carries.
pub open spec fn openai_payload_events(data: Seq<char>) -> Seq<Delta> {
    let data = text::trimmed(data);
    if data == DONE_PAYLOAD@ {
        seq![Delta::Done(StopReason::EndTurn)]
    } else {
        match json::json_parse(data) {
            Some(event) => openai_events(event),
            None => Seq::empty(),
        }
    }
}

/// All that a parsed payload carries.
pub fn openai_event_deltas(value: &Value) -> (events: Vec<ChatDelta>)
    ensures
        delta::all_viewed(events@) == openai_events(json::json_of(*value)),
{
    let mut events: Vec<ChatDelta> = Vec::new();
    if value_get(value, "error").is_none() {
        if let Some(choice) = event_choice(value) {
            if let Some(reasoning) = reasoning_of(choice) {
                if let Some(content) = content_of(choice) {
                    events.push(ChatDelta::Thinking(reasoning));
                    events.push(ChatDelta::TextDelta(content));
                    assert(delta::all_viewed(events@) =~= openai_events(json::json_of(*value)));
                    return events;
                }
            }
        }
    }
    if let Some(event) = openai_event_delta(value) {
        events.push(event);
    }
    assert(delta::all_viewed(events@) =~= openai_events(json::json_of(*value)));
    events
}

/// Collects the events of an agent turn, which passes on all that a payload carries.
#[derive(Clone, Copy, Debug)]
pub struct OpenAiCollector {}

impl Default for OpenAiCollector {
    fn default() -> (collector: OpenAiCollector)
        ensures
            collector == (OpenAiCollector {  }),
    {
        OpenAiCollector {  }
    }
}

impl OpenAiCollector {
    /// All that the payload of a stream event carries.
    pub fn handle(&self, data: &str) -> (events: Vec<ChatDelta>)
        ensures
            delta::all_viewed(events@) == openai_payload_events(data@),
    {
        let payload = data.trim();
        let mut events: Vec<ChatDelta> = Vec::new();
        if same_text(payload, DONE_PAYLOAD) {
            events.push(ChatDelta::Done { stop_reason: StopReason::EndTurn });
        } else if let Some(value) = parse_json(payload) {
            events = openai_event_deltas(&value);
        }
        assert(delta::all_viewed(events@) =~= openai_payload_events(data@));
        events
    }
}

/// Content wins: where a payload carries both content and reasoning, the one event that it
/// stands for is the content.
pub proof fn law_content_wins(event: Json, choice: Json, content: Seq<char>)
    requires
        json::member(event, "error"@) is None,
        first_choice(event) == Some(choice),
        choice_content(choice) == Some(content),
    ensures
        openai_event(event) == Some(Delta::Text(content)),
{
}

/// Reasoning without content stays visible.
pub proof fn law_reasoning_stays_visible(event: Json, choice: Json, reasoning: Seq<char>)
    requires
        json::member(event, "error"@) is None,
        first_choice(event) == Some(choice),
        choice_content(choice) is None,
        choice_reasoning(choice) == Some(reasoning),
    ensures
        openai_event(event) == Some(Delta::Thinking(reasoning)),
{
}

/// Nothing of a reported error is passed on: any two payloads that report one, whatever else they
/// hold, stand for the same event.
pub proof fn law_openai_error_reveals_nothing(event: Json, other: Json)
    requires
        json::member(event, "error"@) is Some,
        json::member(other, "error"@) is Some,
    ensures
        openai_event(event) == Some(Delta::Error(OPENAI_STREAM_ERROR@)),
        openai_event(event) == openai_event(other),
        openai_events(event) == openai_events(other),
{
}

/// The one event that a payload stands for is the last of all that it carries.
pub proof fn law_one_event_is_the_last_of_all(data: Seq<char>)
    ensures
        match openai_payload(data) {
            Some(event) => {
                &&& openai_payload_events(data).len() > 0
                &&& openai_payload_events(data).last() == event
            },
            None => openai_payload_events(data).len() == 0,
        },
{
}

/// White space around a payload makes no difference.
pub proof fn law_openai_payload_is_trimmed(data: Seq<char>)
    ensures
        openai_payload(text::trimmed(data)) == openai_payload(data),
{
    text::lemma_trimmed_twice(data);
}

/// Content comes through: a non-empty `content` in the delta of the first choice is the text
/// that the payload stands for, whatever other members these objects have and whatever other
/// choices there are. An error goes before it.
pub proof fn law_content_comes_through(
    event: Json,
    choices: Seq<Json>,
    delta: Json,
    content: Seq<char>,
)
    requires
        json::member(event, "error"@) is None,
        json::member(event, "choices"@) == Some(Json::Array(choices)),
        choices.len() > 0,
        json::member(choices[0], "delta"@) == Some(delta),
        json::member(delta, "content"@) == Some(Json::Text(content)),
        content.len() > 0,
    ensures
        openai_event(event) == Some(Delta::Text(content)),
{
}

/// Reasoning comes through: where the delta of the first choice has no content, its non-empty
/// `reasoning_content` is the thinking that the payload stands for, or its `reasoning` where it
/// has no `reasoning_content`, whatever other members there are.
pub proof fn law_reasoning_comes_through(
    event: Json,
    choices: Seq<Json>,
    delta: Json,
    reasoning: Seq<char>,
)
    requires
        json::member(event, "error"@) is None,
        json::member(event, "choices"@) == Some(Json::Array(choices)),
        choices.len() > 0,
        json::member(choices[0], "delta"@) == Some(delta),
        json::member(delta, "content"@) matches Some(Json::Text(content)) ==> content.len() == 0,
        json::member(delta, "reasoning_content"@) == Some(Json::Text(reasoning)) || (json::member(
            delta,
            "reasoning_content"@,
        ) is None && json::member(delta, "reasoning"@) == Some(Json::Text(reasoning))),
        reasoning.len() > 0,
    ensures
        openai_event(event) == Some(Delta::Thinking(reasoning)),
{
}

/// The reason why the first choice is finished ends the turn, where its delta has neither
/// content nor reasoning: the turn is aborted only if that is `content_filter`, and `stop` is
/// an ordinary end.
pub proof fn law_finish_reason_ends_the_turn(event: Json, choices: Seq<Json>, reason: Seq<char>)
    requires
        json::member(event, "error"@) is None,
        json::member(event, "choices"@) == Some(Json::Array(choices)),
        choices.len() > 0,
        json::member(choices[0], "delta"@) matches Some(delta) ==> {
            &&& json::member(delta, "content"@) matches Some(Json::Text(content)) ==> content.len()
                == 0
            &&& json::member(delta, "reasoning_content"@) matches Some(Json::Text(reasoning))
                ==> reasoning.len() == 0
            &&& json::member(delta, "reasoning_content"@) is None ==> (json::member(
                delta,
                "reasoning"@,
            ) matches Some(Json::Text(reasoning)) ==> reasoning.len() == 0)
        },
        json::member(choices[0], "finish_reason"@) == Some(Json::Text(reason)),
    ensures
        openai_event(event) matches Some(Delta::Done(stop)) && {
            &&& stop == delta::openai_stop_reason(reason)
            &&& stop == StopReason::MaxTokens <==> reason == "length"@
            &&& stop == StopReason::ToolUse <==> (reason == "tool_calls"@ || reason
                == "function_call"@)
            &&& stop == StopReason::Aborted <==> reason == "content_filter"@
            &&& reason == "stop"@ ==> stop == StopReason::EndTurn
        },
{
    delta::law_openai_stop_reasons(reason);
}

/// Every event comes of a payload that carries it: an error of a member `error`, and the others
/// of the first choice, text of its content, thinking of its reasoning, and an end of its
/// `finish_reason`. All other payloads stand for nothing.
pub proof fn law_openai_event_is_carried(event: Json)
    ensures
        openai_event(event) matches Some(told) ==> {
            let choices = json::member(event, "choices"@);
            let choice = choices->0->Array_0[0];
            let delta = json::member(choice, "delta"@);
            &&& told is Error <==> json::member(event, "error"@) is Some
            &&& !(told is Error) ==> (choices matches Some(Json::Array(all)) && all.len() > 0)
            &&& match told {
                Delta::Text(content) => {
                    &&& delta is Some
                    &&& json::member(delta->0, "content"@) == Some(Json::Text(content))
                    &&& content.len() > 0
                },
                Delta::Thinking(reasoning) => {
                    &&& delta is Some
                    &&& reasoning.len() > 0
                    &&& json::member(delta->0, "reasoning_content"@) == Some(
                        Json::Text(reasoning),
                    ) || (json::member(delta->0, "reasoning_content"@) is None && json::member(
                        delta->0,
                        "reasoning"@,
                    ) == Some(Json::Text(reasoning)))
                },
                Delta::Done(_) => json::member(choice, "finish_reason"@) matches Some(
                    Json::Text(_),
                ),
                Delta::Error(message) => message
                    == "OpenAI-compatible provider reported a stream error"@,
            }
        },
        json::member(event, "error"@) is Some ==> openai_event(event) is Some,
{
}

/// A payload is read without the white space around it. `[DONE]` is an ordinary end of the
/// turn; another payload is read as JSON and stands for what the JSON stands for, and one that
/// is no JSON stands for nothing.
pub proof fn law_openai_payload_is_its_json(data: Seq<char>)
    ensures
        text::trimmed(data) == "[DONE]"@ ==> openai_payload(data) == Some(
            Delta::Done(StopReason::EndTurn),
        ) && openai_payload_events(data) == seq![Delta::Done(StopReason::EndTurn)],
        text::trimmed(data) != "[DONE]"@ ==> match json::json_parse(text::trimmed(data)) {
            Some(event) => openai_payload(data) == openai_event(event) && openai_payload_events(
                data,
            ) == openai_events(event),
            None => openai_payload(data) is None && openai_payload_events(data).len() == 0,
        },
{
}

/// An agent turn is told both: where the delta of the first choice has reasoning and content,
/// the thinking comes first and the text behind it, and nothing else.
pub proof fn law_reasoning_and_content_both_come_through(
    event: Json,
    choices: Seq<Json>,
    delta: Json,
    reasoning: Seq<char>,
    content: Seq<char>,
)
    requires
        json::member(event, "error"@) is None,
        json::member(event, "choices"@) == Some(Json::Array(choices)),
        choices.len() > 0,
        json::member(choices[0], "delta"@) == Some(delta),
        json::member(delta, "content"@) == Some(Json::Text(content)),
        content.len() > 0,
        json::member(delta, "reasoning_content"@) == Some(Json::Text(reasoning)) || (json::member(
            delta,
            "reasoning_content"@,
        ) is None && json::member(delta, "reasoning"@) == Some(Json::Text(reasoning))),
        reasoning.len() > 0,
    ensures
        openai_events(event) == seq![Delta::Thinking(reasoning), Delta::Text(content)],
{
}

/// An agent turn is told the one event that a payload stands for, and thinking before it only
/// where that event is text.
pub proof fn law_agent_turn_is_told_no_more(event: Json)
    ensures
        match openai_event(event) {
            None => openai_events(event).len() == 0,
            Some(told) => {
                ||| openai_events(event) == seq![told]
                ||| {
                    &&& told is Text
                    &&& openai_events(event).len() == 2
                    &&& openai_events(event)[1] == told
                    &&& openai_events(event)[0] matches Delta::Thinking(reasoning) && {
                        let delta = json::member(
                            json::member(event, "choices"@)->0->Array_0[0],
                            "delta"@,
                        )->0;
                        &&& reasoning.len() > 0
                        &&& json::member(delta, "reasoning_content"@) == Some(
                            Json::Text(reasoning),
                        ) || (json::member(delta, "reasoning_content"@) is None && json::member(
                            delta,
                            "reasoning"@,
                        ) == Some(Json::Text(reasoning)))
                    }
                }
            },
        },
{
}

} // verus!
