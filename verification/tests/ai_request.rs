use glry::ai::{
    ai_available, chat_completions_url, data_url, gateway_error, reply_from_body, reply_from_content,
    reply_text, AiConfig, ReplyError,
    DEFAULT_BASE_URL, DEFAULT_MODEL,
};

#[test]
fn ai_config_defaults_off() {
    let c = AiConfig::default();
    assert!(!c.enabled);
    assert_eq!(c.base_url, DEFAULT_BASE_URL);
    assert_eq!(c.model, DEFAULT_MODEL);
    assert!(!ai_available(&c, &Some("t".to_string())));
    let on = AiConfig { enabled: true, ..c };
    assert!(ai_available(&on, &Some("t".to_string())));
    assert!(!ai_available(&on, &None));
}

#[test]
fn chat_url_strips_trailing_slashes() {
    assert_eq!(chat_completions_url("https://api.swiftrouter.com/v1"), "https://api.swiftrouter.com/v1/chat/completions");
    assert_eq!(chat_completions_url("http://h/v1///"), "http://h/v1/chat/completions");
    assert_eq!(chat_completions_url(""), "/chat/completions");
}

#[test]
fn data_urls_are_base64() {
    assert_eq!(data_url(b"hello"), "data:image/png;base64,aGVsbG8=");
    assert_eq!(data_url(b""), "data:image/png;base64,");
}

#[test]
fn replies_and_errors() {
    assert_eq!(reply_text("  A cat.\n"), "A cat.");
    assert_eq!(gateway_error(401, " bad token \n"), "AI gateway returned 401: bad token");
    assert_eq!(gateway_error(0, ""), "AI gateway returned 0: ");
}

#[test]
fn reply_body_gives_trimmed_content() {
    let body = "{\"choices\":[{\"message\":{\"role\":\"assistant\",\"content\":\"  A red barn.\\n\"}}]}";
    match reply_from_body(body) {
        Ok(t) => assert_eq!(t, "A red barn."),
        Err(e) => panic!("{}", e.message()),
    }
}

#[test]
fn reply_body_without_content_or_json_fails() {
    match reply_from_body("{\"choices\":[]}") {
        Err(e) => {
            assert!(matches!(e, ReplyError::NoContent));
            assert_eq!(e.message(), "AI response had no choices[0].message.content");
        }
        Ok(t) => panic!("unexpected {t}"),
    }
    match reply_from_body("{\"choices\":[{\"message\":{\"content\":7}}]}") {
        Err(e) => assert!(matches!(e, ReplyError::NoContent)),
        Ok(t) => panic!("unexpected {t}"),
    }
    match reply_from_body("not json") {
        Err(e) => {
            assert!(matches!(e, ReplyError::BadJson(_)));
            assert!(e.message().starts_with("parsing AI response JSON: "));
        }
        Ok(t) => panic!("unexpected {t}"),
    }
}

#[test]
fn reply_content_is_trimmed() {
    assert_eq!(reply_from_content(Some(" x y \t".to_string())).unwrap(), "x y");
    assert!(matches!(reply_from_content(None), Err(ReplyError::NoContent)));
}
