//! The events of a chat turn.

use crate::text::same_text;
use vstd::prelude::*;

verus! {

/// Why a turn ended.
#[derive(Clone, Copy, Debug, PartialEq, Eq, Structural)]
pub enum StopReason {
    EndTurn,
    MaxTokens,
    ToolUse,
    Aborted,
}

/// One event of a streamed turn.
#[derive(Clone, Debug, PartialEq, Eq)]
pub enum ChatDelta {
    TextDelta(String),
    Thinking(String),
    Done { stop_reason: StopReason },
    Error(String),
}

/// What a `ChatDelta` says.
pub enum Delta {
    Text(Seq<char>),
    Thinking(Seq<char>),
    Done(StopReason),
    Error(Seq<char>),
}

impl View for ChatDelta {
    type V = Delta;

    open spec fn view(&self) -> Delta {
        match self {
            ChatDelta::TextDelta(text) => Delta::Text(text@),
            ChatDelta::Thinking(text) => Delta::Thinking(text@),
            ChatDelta::Done { stop_reason } => Delta::Done(*stop_reason),
            ChatDelta::Error(message) => Delta::Error(message@),
        }
    }
}

/// What an optional `ChatDelta` says.
pub open spec fn viewed(delta: Option<ChatDelta>) -> Option<Delta> {
    match delta {
        Some(delta) => Some(delta@),
        None => None,
    }
}

/// What a sequence of `ChatDelta` says.
pub open spec fn all_viewed(deltas: Seq<ChatDelta>) -> Seq<Delta> {
    deltas.map_values(|delta: ChatDelta| delta@)
}

/// The stop reason that Anthropic's `stop_reason` stands for.
pub open spec fn anthropic_stop_reason(reason: Seq<char>) -> StopReason {
    if reason == "max_tokens"@ {
        StopReason::MaxTokens
    } else if reason == "tool_use"@ {
        StopReason::ToolUse
    } else if reason == "aborted"@ || reason == "user_abort"@ {
        StopReason::Aborted
    } else {
        StopReason::EndTurn
    }
}

/// The stop reason that an OpenAI-compatible `finish_reason` stands for.
pub open spec fn openai_stop_reason(reason: Seq<char>) -> StopReason {
    if reason == "length"@ {
        StopReason::MaxTokens
    } else if reason == "tool_calls"@ || reason == "function_call"@ {
        StopReason::ToolUse
    } else if reason == "content_filter"@ {
        StopReason::Aborted
    } else {
        StopReason::EndTurn
    }
}

/// Maps Anthropic's `stop_reason`.
pub fn map_anthropic_stop_reason(reason: &str) -> (stop_reason: StopReason)
    ensures
        stop_reason == anthropic_stop_reason(reason@),
{
    if same_text(reason, "max_tokens") {
        StopReason::MaxTokens
    } else if same_text(reason, "tool_use") {
        StopReason::ToolUse
    } else if same_text(reason, "aborted") || same_text(reason, "user_abort") {
        StopReason::Aborted
    } else {
        StopReason::EndTurn
    }
}

/// Maps the `finish_reason` of an OpenAI-compatible provider.
pub fn map_openai_stop_reason(reason: &str) -> (stop_reason: StopReason)
    ensures
        stop_reason == openai_stop_reason(reason@),
{
    if same_text(reason, "length") {
        StopReason::MaxTokens
    } else if same_text(reason, "tool_calls") || same_text(reason, "function_call") {
        StopReason::ToolUse
    } else if same_text(reason, "content_filter") {
        StopReason::Aborted
    } else {
        StopReason::EndTurn
    }
}

/// Anthropic's reasons for the end of a turn, each with the one stop reason that it stands for:
/// `max_tokens`, `tool_use`, `aborted` and `user_abort` have one of their own, and every other
/// reason, `end_turn` among them, is an ordinary end.
pub proof fn law_anthropic_stop_reasons(reason: Seq<char>)
    ensures
        anthropic_stop_reason(reason) == StopReason::MaxTokens <==> reason == "max_tokens"@,
        anthropic_stop_reason(reason) == StopReason::ToolUse <==> reason == "tool_use"@,
        anthropic_stop_reason(reason) == StopReason::Aborted <==> (reason == "aborted"@ || reason
            == "user_abort"@),
        anthropic_stop_reason("end_turn"@) == StopReason::EndTurn,
{
    reveal_strlit("max_tokens");
    reveal_strlit("tool_use");
    reveal_strlit("aborted");
    reveal_strlit("user_abort");
    reveal_strlit("end_turn");
    assert("max_tokens"@[0] == 'm');
    assert("user_abort"@[0] == 'u');
    assert("tool_use"@[0] == 't');
    assert("aborted"@[0] == 'a');
    assert("end_turn"@[0] == 'e');
}

/// The reasons of OpenAI-compatible providers for the end of a turn, each with the one stop
/// reason that it stands for: `length`, `tool_calls`, `function_call` and `content_filter` have
/// one of their own, and every other reason, `stop` among them, is an ordinary end.
pub proof fn law_openai_stop_reasons(reason: Seq<char>)
    ensures
        openai_stop_reason(reason) == StopReason::MaxTokens <==> reason == "length"@,
        openai_stop_reason(reason) == StopReason::ToolUse <==> (reason == "tool_calls"@ || reason
            == "function_call"@),
        openai_stop_reason(reason) == StopReason::Aborted <==> reason == "content_filter"@,
        openai_stop_reason("stop"@) == StopReason::EndTurn,
{
    reveal_strlit("length");
    reveal_strlit("tool_calls");
    reveal_strlit("function_call");
    reveal_strlit("content_filter");
    reveal_strlit("stop");
    assert("length"@[0] == 'l');
    assert("tool_calls"@[0] == 't');
    assert("function_call"@[0] == 'f');
    assert("content_filter"@[0] == 'c');
    assert("stop"@[0] == 's');
}

/// What an event says is its kind and its text, and nothing of either is lost.
pub proof fn law_delta_says_its_kind_and_text(delta: ChatDelta)
    ensures
        delta matches ChatDelta::TextDelta(text) ==> delta@ == Delta::Text(text@),
        delta matches ChatDelta::Thinking(text) ==> delta@ == Delta::Thinking(text@),
        delta matches ChatDelta::Done { stop_reason } ==> delta@ == Delta::Done(stop_reason),
        delta matches ChatDelta::Error(message) ==> delta@ == Delta::Error(message@),
        viewed(Some(delta)) == Some(delta@),
        viewed(None) is None,
{
}

/// What events say is what each of them says, in order.
pub proof fn law_deltas_say_what_each_says(deltas: Seq<ChatDelta>)
    ensures
        all_viewed(deltas).len() == deltas.len(),
        forall|i: int| 0 <= i < deltas.len() ==> #[trigger] all_viewed(deltas)[i] == deltas[i]@,
{
}

} // verus!
