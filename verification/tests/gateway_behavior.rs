use llm_gateway::gateway::{build_request, interpret_response};
use llm_gateway::greet;
use llm_gateway::model::{ChatError, ChatMessage, ChatRequest, JsonNumber};

fn make_request(api_key: Option<&str>) -> ChatRequest {
    ChatRequest {
        base_url: "https://api.example.com/v1".to_string(),
        api_key: api_key.map(|k| k.to_string()),
        model: "gpt-4o-mini".to_string(),
        messages: vec![
            ChatMessage { role: "system".to_string(), content: "be brief".to_string() },
            ChatMessage { role: "user".to_string(), content: "hi".to_string() },
        ],
        temperature: JsonNumber::from_text("0.7").expect("0.7 is a JSON number"),
        max_tokens: 256,
    }
}

#[test]
fn greet_world() {
    assert_eq!(greet("World"), "Hello, World! You've been greeted!");
    // pure: the same input always gives the same output
    assert_eq!(greet("World"), greet("World"));
    assert_eq!(greet(""), "Hello, ! You've been greeted!");
}

#[test]
fn url_is_literal_concatenation() {
    let parts = build_request(&make_request(None)).expect("builds");
    assert_eq!(parts.url, "https://api.example.com/v1/chat/completions");

    // a trailing slash is not normalized away
    let mut req = make_request(None);
    req.base_url = "https://api.example.com/v1/".to_string();
    let parts = build_request(&req).expect("builds");
    assert_eq!(parts.url, "https://api.example.com/v1//chat/completions");
}

#[test]
fn no_auth_header_without_key() {
    let parts = build_request(&make_request(None)).expect("builds");
    assert_eq!(parts.headers.len(), 1);
    assert_eq!(parts.headers[0].0, "Content-Type");
    assert_eq!(parts.headers[0].1, "application/json");
    assert!(parts.headers.iter().all(|h| h.0 != "Authorization"));
}

#[test]
fn no_auth_header_with_empty_key() {
    let parts = build_request(&make_request(Some(""))).expect("builds");
    assert_eq!(parts.headers.len(), 1);
    assert!(parts.headers.iter().all(|h| h.0 != "Authorization"));
}

#[test]
fn bearer_header_with_key() {
    let parts = build_request(&make_request(Some("secret123"))).expect("builds");
    assert_eq!(parts.headers.len(), 2);
    assert_eq!(parts.headers[1].0, "Authorization");
    assert_eq!(parts.headers[1].1, "Bearer secret123");
}

#[test]
fn header_error_on_bad_key() {
    let r = build_request(&make_request(Some("bad\nkey")));
    match r {
        Err(e) => {
            assert!(matches!(e, ChatError::Header));
            assert_eq!(e.message(), "Invalid authorization header value");
        }
        Ok(_) => panic!("a key with a newline cannot stand in a header"),
    }
    // delete is refused too; tab is accepted
    assert!(build_request(&make_request(Some("a\u{7f}b"))).is_err());
    assert!(build_request(&make_request(Some("a\tb"))).is_ok());
}

#[test]
fn body_is_exact_json() {
    let parts = build_request(&make_request(Some("secret123"))).expect("builds");
    assert_eq!(
        parts.body,
        "{\"model\":\"gpt-4o-mini\",\"messages\":[{\"role\":\"system\",\"content\":\"be brief\"},{\"role\":\"user\",\"content\":\"hi\"}],\"temperature\":0.7,\"max_tokens\":256}"
    );
}

#[test]
fn temperature_must_be_a_json_number() {
    assert!(JsonNumber::from_text("0.7").is_ok());
    assert!(JsonNumber::from_text("-1e-3").is_ok());
    for bad in ["NaN", "inf", "-inf", "", "abc", "1.0.0"] {
        match JsonNumber::from_text(bad) {
            Err(e) => assert!(matches!(e, ChatError::Serialization)),
            Ok(_) => panic!("{bad:?} is not a JSON number"),
        }
    }
}

#[test]
fn success_body_choices_are_mirrored() {
    let body = "{\"id\":\"chatcmpl-1\",\"object\":\"chat.completion\",\"choices\":[{\"index\":0,\"message\":{\"role\":\"assistant\",\"content\":\"Hello!\"},\"finish_reason\":\"stop\"},{\"message\":{\"content\":\"Bye.\",\"role\":\"assistant\"}}],\"usage\":{\"total_tokens\":9}}";
    let resp = interpret_response(200, body).expect("success body parses");
    assert_eq!(resp.choices.len(), 2);
    assert_eq!(resp.choices[0].message.role, "assistant");
    assert_eq!(resp.choices[0].message.content, "Hello!");
    assert_eq!(resp.choices[1].message.content, "Bye.");
}

#[test]
fn success_with_empty_choices() {
    let resp = interpret_response(200, "{\"choices\":[]}").expect("parses");
    assert_eq!(resp.choices.len(), 0);
}

#[test]
fn upstream_error_carries_status_and_body() {
    let r = interpret_response(401, "invalid key");
    match r {
        Err(e) => {
            assert!(matches!(e, ChatError::Upstream(401, _)));
            let m = e.message();
            assert_eq!(m, "LLM API error 401: invalid key");
            assert!(m.contains("401"));
            assert!(m.contains("invalid key"));
        }
        Ok(_) => panic!("401 is not success"),
    }
}

#[test]
fn parse_error_on_missing_choices() {
    let r = interpret_response(200, "{}");
    match r {
        Err(e) => assert!(matches!(e, ChatError::Parse)),
        Ok(_) => panic!("a body without choices does not parse"),
    }
}

#[test]
fn parse_error_on_malformed_body() {
    assert!(matches!(interpret_response(200, "not json"), Err(ChatError::Parse)));
    assert!(matches!(interpret_response(200, ""), Err(ChatError::Parse)));
    assert!(matches!(interpret_response(200, "{\"choices\":{}}"), Err(ChatError::Parse)));
    assert!(matches!(
        interpret_response(200, "{\"choices\":[],\"choices\":[]}"),
        Err(ChatError::Parse)
    ));
    assert!(matches!(
        interpret_response(200, "{\"choices\":[{\"message\":{\"role\":\"assistant\"}}]}"),
        Err(ChatError::Parse)
    ));
    assert!(matches!(
        interpret_response(200, "{\"choices\":[{\"message\":\"hi\"}]}"),
        Err(ChatError::Parse)
    ));
}

#[test]
fn status_range_boundaries() {
    assert!(interpret_response(200, "{\"choices\":[]}").is_ok());
    assert!(interpret_response(299, "{\"choices\":[]}").is_ok());
    assert!(matches!(interpret_response(199, "{\"choices\":[]}"), Err(ChatError::Upstream(199, _))));
    assert!(matches!(interpret_response(300, "{\"choices\":[]}"), Err(ChatError::Upstream(300, _))));
    match interpret_response(500, "boom") {
        Err(ChatError::Upstream(st, b)) => {
            assert_eq!(st, 500);
            assert_eq!(b, "boom");
        }
        _ => panic!("500 is upstream failure"),
    }
}

#[test]
fn transport_error_message() {
    let e = ChatError::Transport("connection refused".to_string());
    assert_eq!(e.message(), "HTTP request failed: connection refused");
}
