use chat_wire::delta::{ChatDelta, StopReason};
use chat_wire::endpoint::{
    checked_base_url, normalize_provider_base_url, provider_endpoint, refused_turn, turn_endpoint,
    UrlParts,
};
use chat_wire::error::BuiltinHttpError;

fn aborted_turn(base_url: &str) -> Vec<ChatDelta> {
    turn_endpoint(base_url, "/chat/completions").expect_err("the provider cannot be reached")
}

#[test]
fn provider_endpoint_rejects_queries_and_fragments() {
    for endpoint in [
        "https://example.com/v1?api-version=1",
        "https://example.com/v1#chat",
    ] {
        let error = normalize_provider_base_url(endpoint)
            .expect_err("query and fragment endpoints must be rejected")
            .describe();
        assert!(
            error.starts_with("Invalid provider endpoint:"),
            "unexpected validation error for {endpoint}: {error}"
        );
    }
}

#[test]
fn invalid_ready_provider_remains_constructible_and_aborts_with_precise_error() {
    let deltas = aborted_turn("not a provider url");
    assert!(
        matches!(deltas.first(), Some(ChatDelta::Error(message)) if message.starts_with("Invalid provider endpoint:")),
        "expected precise endpoint error first, got {deltas:?}"
    );
    assert!(
        matches!(
            deltas.get(1),
            Some(ChatDelta::Done {
                stop_reason: StopReason::Aborted
            })
        ),
        "invalid endpoints must abort the selected provider turn, got {deltas:?}"
    );
    assert_eq!(deltas.len(), 2, "invalid endpoints must fail immediately");
}

#[test]
fn unsupported_provider_scheme_aborts_before_connecting() {
    let deltas = aborted_turn("ftp://example.com/v1");
    assert!(
        matches!(deltas.as_slice(), [ChatDelta::Error(message), ChatDelta::Done { stop_reason: StopReason::Aborted }] if message.starts_with("Invalid provider endpoint:")),
        "unsupported schemes must surface as provider errors, got {deltas:?}"
    );
}

#[test]
fn provider_normalizes_base_urls_and_preserves_full_endpoints() {
    assert_eq!(
        normalize_provider_base_url("  http://localhost:1234/v1/  "),
        Ok("http://localhost:1234/v1".into())
    );
    assert_eq!(
        turn_endpoint("  http://localhost:1234/v1/  ", "/chat/completions"),
        Ok("http://localhost:1234/v1/chat/completions".into())
    );
    assert_eq!(
        turn_endpoint(
            "http://localhost:1234/v1/chat/completions/",
            "/chat/completions"
        ),
        Ok("http://localhost:1234/v1/chat/completions".into())
    );
    assert_eq!(
        turn_endpoint("https://api.anthropic.com/v1/", "/v1/messages"),
        Ok("https://api.anthropic.com/v1/messages".into())
    );
}

#[test]
fn invalid_provider_with_canvas_tools_aborts_before_starting_the_agent_loop() {
    let deltas = aborted_turn("not a provider url");
    assert!(
        matches!(deltas.as_slice(), [ChatDelta::Error(message), ChatDelta::Done { stop_reason: StopReason::Aborted }] if message.starts_with("Invalid provider endpoint:")),
        "tool-capable turns must surface provider construction errors before entering the loop: {deltas:?}"
    );
}

#[test]
fn normalized_base_url_stays() {
    for base_url in [
        "  http://localhost:1234/v1/  ",
        "HTTPS://Example.COM",
        "https://x.y//",
        "http://[::1]:80/a%20b/../c d/",
    ] {
        let base = normalize_provider_base_url(base_url).expect("a base URL");
        assert_eq!(normalize_provider_base_url(&base), Ok(base));
    }
}

#[test]
fn surroundings_of_a_base_url_make_no_difference() {
    for base in ["https://x.y/v1", "https://x.y/v1/chat/completions", ""] {
        let url = provider_endpoint(base, "/chat/completions");
        for (before, behind) in [("", "/"), ("\n ", "\t"), (" ", "///\u{2028}"), ("", "")] {
            let surrounded = format!("{before}{base}{behind}");
            assert_eq!(provider_endpoint(&surrounded, "/chat/completions"), url);
        }
    }
    assert_eq!(provider_endpoint("x /", "/a"), "x /a");
    assert_eq!(provider_endpoint("x ", "/a"), "x/a");
}

#[test]
fn endpoints_below_a_base_url() {
    assert_eq!(
        provider_endpoint("https://api.anthropic.com", "/v1/messages"),
        "https://api.anthropic.com/v1/messages"
    );
    assert_eq!(
        provider_endpoint("https://api.anthropic.com/v1/messages", "/v1/messages"),
        "https://api.anthropic.com/v1/messages"
    );
    assert_eq!(
        provider_endpoint("\u{3000}https://x.y/v1///\t", "/chat/completions"),
        "https://x.y/v1/chat/completions"
    );
    assert_eq!(provider_endpoint("https://x.y/v1", "/models"), "https://x.y/v1/models");
    assert_eq!(provider_endpoint("", "/v1/messages"), "/v1/messages");
    assert_eq!(provider_endpoint("x/", ""), "x");
}

#[test]
fn endpoint_taken_for_a_base_url_stays() {
    for path in ["/chat/completions", "/v1/messages"] {
        for base in ["https://x.y/v1", "https://x.y", " https://x.y/v1/ ", ""] {
            let url = provider_endpoint(base, path);
            assert!(url.ends_with(path));
            assert_eq!(provider_endpoint(&url, path), url);
        }
    }
    assert_eq!(provider_endpoint("x", "/a/"), "x/a/");
    assert_eq!(provider_endpoint("x/a/", "/a/"), "x/a/a/");
}

#[test]
fn every_fault_of_a_base_url() {
    assert_eq!(
        normalize_provider_base_url("not a provider url"),
        Err(BuiltinHttpError::InvalidEndpointUrl {
            message: "relative URL without a base".into()
        })
    );
    assert_eq!(
        normalize_provider_base_url("ftp://example.com/v1"),
        Err(BuiltinHttpError::EndpointUnsupportedScheme { scheme: "ftp".into() })
    );
    assert_eq!(
        normalize_provider_base_url("https://example.com/v1?"),
        Err(BuiltinHttpError::EndpointHasQueryOrFragment)
    );
    let mut parts = UrlParts {
        scheme: "http".into(),
        host: None,
        query: None,
        fragment: None,
        full: "http://h//".into(),
    };
    assert_eq!(
        checked_base_url(Ok(parts.clone())),
        Err(BuiltinHttpError::EndpointMissingHost)
    );
    parts.host = Some("h".into());
    assert_eq!(checked_base_url(Ok(parts.clone())), Ok("http://h".into()));
    parts.fragment = Some("".into());
    assert_eq!(
        checked_base_url(Ok(parts)),
        Err(BuiltinHttpError::EndpointHasQueryOrFragment)
    );
    assert_eq!(
        normalize_provider_base_url("HTTPS://Example.COM"),
        Ok("https://example.com".into())
    );
}

#[test]
fn texts_of_errors() {
    let endpoint_errors = [
        (
            BuiltinHttpError::InvalidEndpointUrl { message: "m".into() },
            "Invalid provider endpoint: m",
        ),
        (
            BuiltinHttpError::EndpointUnsupportedScheme { scheme: "ftp".into() },
            "Invalid provider endpoint: unsupported scheme ftp",
        ),
        (
            BuiltinHttpError::EndpointMissingHost,
            "Invalid provider endpoint: missing host",
        ),
        (
            BuiltinHttpError::EndpointHasQueryOrFragment,
            "Invalid provider endpoint: query and fragment are not supported",
        ),
    ];
    for (error, text) in endpoint_errors {
        assert_eq!(error.describe(), text);
        assert_eq!(
            refused_turn(&error),
            vec![
                ChatDelta::Error(text.into()),
                ChatDelta::Done {
                    stop_reason: StopReason::Aborted
                },
            ]
        );
    }
    let error = BuiltinHttpError::SseStream { message: "reset".into() };
    assert_eq!(error.describe(), "SSE stream failed: reset");
}

#[test]
fn white_space_around_a_base_url() {
    let white_space = |c: char| {
        matches!(
            c,
            '\u{9}'..='\u{d}'
                | ' '
                | '\u{85}'
                | '\u{a0}'
                | '\u{1680}'
                | '\u{2000}'..='\u{200a}'
                | '\u{2028}'
                | '\u{2029}'
                | '\u{202f}'
                | '\u{205f}'
                | '\u{3000}'
        )
    };
    for c in '\0'..=char::MAX {
        let base = format!("{c}x{c}");
        let expected = if white_space(c) {
            "x".to_string()
        } else if c == '/' {
            "/x".to_string()
        } else {
            base.clone()
        };
        assert_eq!(provider_endpoint(&base, ""), expected, "{c:?}");
    }
}
