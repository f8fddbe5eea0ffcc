//! Reasoning controls in the body of a chat request.

use crate::json::{self, object_remove, object_value, text_value, Json};
use serde_json::Value;
use vstd::prelude::*;

verus! {

/// The field by which a model is asked to reason less.
#[derive(Clone, Copy, Debug, PartialEq, Eq, Structural)]
pub enum ReasoningWireControl {
    /// `"thinking": {"type": "disabled"}`
    ThinkingDisabled,
    /// `"reasoning_effort": "low"`
    ReasoningEffortLow,
    /// `"reasoning_effort": "none"`
    ReasoningEffortNone,
}

/// The value of `thinking` that switches it off.
pub open spec fn thinking_disabled() -> Json {
    Json::Object(json::no_members().insert("type"@, Json::Text("disabled"@)))
}

/// The members of a request body under a control: its field is set, the other one is gone,
/// and every other member stays.
pub open spec fn controlled(
    members: Map<Seq<char>, Json>,
    control: ReasoningWireControl,
) -> Map<Seq<char>, Json> {
    match control {
        ReasoningWireControl::ThinkingDisabled => members.remove("reasoning_effort"@).insert(
            "thinking"@,
            thinking_disabled(),
        ),
        ReasoningWireControl::ReasoningEffortLow => members.remove("thinking"@).insert(
            "reasoning_effort"@,
            Json::Text("low"@),
        ),
        ReasoningWireControl::ReasoningEffortNone => members.remove("thinking"@).insert(
            "reasoning_effort"@,
            Json::Text("none"@),
        ),
    }
}

/// A request body after the control of its model was applied to it.
pub open spec fn controlled_body(
    body: Json,
    control: Option<ReasoningWireControl>,
    reduce_reasoning: bool,
) -> Json {
    match (body, control) {
        (Json::Object(members), Some(control)) if reduce_reasoning => Json::Object(
            controlled(members, control),
        ),
        _ => body,
    }
}

/// Applies the low-reasoning control of a model to the body of a request for a structured
/// design turn. `control` is what the model's profile asks for. All requests go through
/// here, so that no two paths differ and no request carries two fields of which a provider
/// takes only one.
pub fn apply_reasoning_wire_control(
    body: &mut Value,
    control: Option<ReasoningWireControl>,
    reduce_reasoning: bool,
)
    ensures
        json::json_of(*final(body)) == controlled_body(
            json::json_of(*old(body)),
            control,
            reduce_reasoning,
        ),
        !reduce_reasoning || control is None || !(json::json_of(*old(body)) is Object)
            ==> *final(body) == *old(body),
{
    if !reduce_reasoning {
        return ;
    }
    let control = match control {
        Some(control) => control,
        None => {
            return ;
        },
    };
    let object = match body.as_object_mut() {
        Some(object) => object,
        None => {
            return ;
        },
    };
    match control {
        ReasoningWireControl::ThinkingDisabled => {
            object_remove(object, "reasoning_effort");
            let mut thinking = serde_json::Map::new();
            thinking.insert("type".to_string(), text_value("disabled".to_string()));
            object.insert("thinking".to_string(), object_value(thinking));
        },
        ReasoningWireControl::ReasoningEffortLow => {
            object_remove(object, "thinking");
            object.insert("reasoning_effort".to_string(), text_value("low".to_string()));
        },
        ReasoningWireControl::ReasoningEffortNone => {
            object_remove(object, "thinking");
            object.insert("reasoning_effort".to_string(), text_value("none".to_string()));
        },
    }
}

/// The two fields exclude each other: a body to which a control was applied carries the
/// field of that control and not the other one, whatever it carried before.
pub proof fn law_controls_are_exclusive(body: Json, control: ReasoningWireControl)
    requires
        body is Object,
    ensures
        ({
            let after = controlled_body(body, Some(control), true);
            match control {
                ReasoningWireControl::ThinkingDisabled => {
                    &&& json::member(after, "thinking"@) == Some(thinking_disabled())
                    &&& json::member(after, "reasoning_effort"@) is None
                },
                ReasoningWireControl::ReasoningEffortLow => {
                    &&& json::member(after, "reasoning_effort"@) == Some(Json::Text("low"@))
                    &&& json::member(after, "thinking"@) is None
                },
                ReasoningWireControl::ReasoningEffortNone => {
                    &&& json::member(after, "reasoning_effort"@) == Some(Json::Text("none"@))
                    &&& json::member(after, "thinking"@) is None
                },
            }
        }),
{
    reveal_strlit("thinking");
    reveal_strlit("reasoning_effort");
    assert("thinking"@.len() != "reasoning_effort"@.len());
}

/// A control touches its two fields only: every other member of the body stays as it was.
pub proof fn law_control_keeps_other_members(
    body: Json,
    control: Option<ReasoningWireControl>,
    reduce_reasoning: bool,
    key: Seq<char>,
)
    requires
        key != "thinking"@,
        key != "reasoning_effort"@,
    ensures
        json::member(controlled_body(body, control, reduce_reasoning), key) == json::member(
            body,
            key,
        ),
{
}

/// The last control decides: what an earlier one left in the body does not show.
pub proof fn law_last_control_decides(
    body: Json,
    first: Option<ReasoningWireControl>,
    last: ReasoningWireControl,
    reduce_reasoning: bool,
)
    ensures
        controlled_body(controlled_body(body, first, reduce_reasoning), Some(last), true)
            == controlled_body(body, Some(last), true),
{
    reveal_strlit("thinking");
    reveal_strlit("reasoning_effort");
    assert("thinking"@.len() != "reasoning_effort"@.len());
    if let Json::Object(members) = body {
        if let Some(first) = first {
            assert(controlled(controlled(members, first), last) =~= controlled(members, last));
        }
    }
}

/// Thinking is switched off by an object with the one member `type`, which says `disabled`.
pub proof fn law_disabled_thinking_says_so(body: Json, key: Seq<char>)
    requires
        body is Object,
    ensures
        ({
            let after = controlled_body(body, Some(ReasoningWireControl::ThinkingDisabled), true);
            let thinking = json::member(after, "thinking"@)->0;
            &&& json::member(after, "thinking"@) is Some
            &&& thinking is Object
            &&& json::member(thinking, key) == if key == "type"@ {
                Some(Json::Text("disabled"@))
            } else {
                None
            }
        }),
{
    reveal_strlit("thinking");
    reveal_strlit("reasoning_effort");
    assert("thinking"@.len() != "reasoning_effort"@.len());
}

/// A body stays as it is where reasoning is not to be reduced, where the model has no control,
/// and where it is no object. An object stays an object.
pub proof fn law_body_stays_without_a_control(
    body: Json,
    control: Option<ReasoningWireControl>,
    reduce_reasoning: bool,
)
    ensures
        !reduce_reasoning ==> controlled_body(body, control, reduce_reasoning) == body,
        control is None ==> controlled_body(body, control, reduce_reasoning) == body,
        !(body is Object) ==> controlled_body(body, control, reduce_reasoning) == body,
        body is Object ==> controlled_body(body, control, reduce_reasoning) is Object,
{
}

} // verus!
