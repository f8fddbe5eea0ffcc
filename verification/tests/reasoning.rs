use chat_wire::reasoning::{apply_reasoning_wire_control, ReasoningWireControl};
use serde_json::Value;

/// What the profiles of some models ask for.
fn profile(model: &str) -> Option<ReasoningWireControl> {
    match model {
        "gpt-5.6" => Some(ReasoningWireControl::ReasoningEffortNone),
        "kimi-k3" => Some(ReasoningWireControl::ReasoningEffortLow),
        "kimi-k2.5" | "kimi-k2.6" | "glm-5.2" | "deepseek-v4-pro" => {
            Some(ReasoningWireControl::ThinkingDisabled)
        }
        _ => None,
    }
}

fn json(text: &str) -> Value {
    serde_json::from_str(text).expect("JSON")
}

fn request_body(model: &str) -> Value {
    let mut body = json(r#"{"stream":true,"messages":[]}"#);
    body["model"] = Value::String(model.into());
    apply_reasoning_wire_control(&mut body, profile(model), true);
    assert_eq!(body["model"], model);
    assert_eq!(body["stream"], true);
    body
}

#[test]
fn classic_kimi_k3_request_uses_only_low_reasoning_effort() {
    let body = request_body("kimi-k3");
    assert_eq!(body["reasoning_effort"], "low");
    assert!(
        body.get("thinking").is_none(),
        "K3 rejects `thinking` and cannot receive both controls: {body}"
    );
}

#[test]
fn classic_gpt_5_6_request_disables_reasoning_with_none() {
    let body = request_body("gpt-5.6");
    assert_eq!(body["reasoning_effort"], "none");
    assert!(
        body.get("thinking").is_none(),
        "GPT-5.6 uses `reasoning_effort`, not `thinking`: {body}"
    );
}

#[test]
fn agent_loop_uses_the_same_mutually_exclusive_reasoning_controls_as_classic() {
    let gpt_5_6 = request_body("gpt-5.6");
    assert_eq!(gpt_5_6["reasoning_effort"], "none");
    assert!(
        gpt_5_6.get("thinking").is_none(),
        "GPT-5.6 request: {gpt_5_6}"
    );

    let k3 = request_body("kimi-k3");
    assert_eq!(k3["reasoning_effort"], "low");
    assert!(k3.get("thinking").is_none(), "K3 request: {k3}");

    for model in ["kimi-k2.5", "kimi-k2.6", "glm-5.2", "deepseek-v4-pro"] {
        let body = request_body(model);
        assert_eq!(body["thinking"]["type"], "disabled", "model={model}");
        assert!(
            body.get("reasoning_effort").is_none(),
            "model={model}: {body}"
        );
    }
}

#[test]
fn control_replaces_both_fields_and_keeps_the_rest() {
    let body = json(r#"{"thinking":{"type":"enabled"},"reasoning_effort":"high","n":1.5}"#);
    let cases = [
        (
            ReasoningWireControl::ThinkingDisabled,
            r#"{"thinking":{"type":"disabled"},"n":1.5}"#,
        ),
        (
            ReasoningWireControl::ReasoningEffortLow,
            r#"{"reasoning_effort":"low","n":1.5}"#,
        ),
        (
            ReasoningWireControl::ReasoningEffortNone,
            r#"{"reasoning_effort":"none","n":1.5}"#,
        ),
    ];
    for (control, expected) in cases {
        let mut changed = body.clone();
        apply_reasoning_wire_control(&mut changed, Some(control), true);
        assert_eq!(changed, json(expected));
        for (later, last) in cases {
            let mut again = changed.clone();
            apply_reasoning_wire_control(&mut again, Some(later), true);
            assert_eq!(again, json(last));
        }
    }
}

#[test]
fn body_stays_without_a_control_to_apply() {
    let control = Some(ReasoningWireControl::ReasoningEffortLow);
    for text in [r#"{"thinking":1}"#, "[1]", "null", r#""text""#, "3"] {
        let mut body = json(text);
        apply_reasoning_wire_control(&mut body, control, false);
        assert_eq!(body, json(text));
        apply_reasoning_wire_control(&mut body, None, true);
        assert_eq!(body, json(text));
    }
    for text in ["[1]", "null", r#""text""#, "3"] {
        let mut body = json(text);
        apply_reasoning_wire_control(&mut body, control, true);
        assert_eq!(body, json(text));
    }
}
