use chobits::config::LlmConfig;
use chobits::llm::{
    build_system_prompt, openai_reply_text, ollama_reply_text, parse_response, repair_reply,
    Backend, JsonValue, LlmResponse,
};

fn sample_llm_config(backend: &str) -> LlmConfig {
    LlmConfig {
        backend: backend.into(),
        url: "http://127.0.0.1:11434".into(),
        model: "test-model".into(),
        max_tokens: 128,
        api_key: "secret".into(),
    }
}

/// Decodes repaired JSON the way the daemon does: an object with string
/// members `text` and `expression`.
fn decode(raw: &str) -> Option<LlmResponse> {
    let repaired = repair_reply(raw)?;
    let v: serde_json::Value = serde_json::from_str(&repaired).ok()?;
    let text = v.get("text")?.as_str()?.to_string();
    let expression = v.get("expression")?.as_str()?.to_string();
    Some(LlmResponse { text, expression })
}

#[test]
fn build_system_prompt_lists_aliases_only() {
    let prompt = build_system_prompt(
        "Chi",
        "Warm and curious.",
        &["idle".into(), "wave".into(), "bounce".into()],
        "idle",
    );
    assert!(prompt.contains("idle, wave, bounce"));
    assert!(prompt.contains("Default resting look: idle"));
    assert!(!prompt.contains("idle_0"));
    assert!(!prompt.contains("Idle #0"));
}

#[test]
fn build_system_prompt_exact_text() {
    let prompt = build_system_prompt("Chi", "Kind.", &["a".into(), "b".into()], "a");
    assert_eq!(
        prompt,
        "You are Chi.\nKind.\n\nOUTPUT FORMAT — reply with exactly one JSON object, no other text:\n{\"text\": \"<your reaction, 1-2 sentences>\", \"expression\": \"<alias>\"}\n\nEXPRESSION ALIASES — the \"expression\" value MUST be exactly one of these (copy verbatim):\na, b\nDefault resting look: a. Pick the alias that best matches your reaction."
    );
}

#[test]
fn parse_response_uses_alias_fallback() {
    let raw = r#"{"text":"only text"}"#;
    let parsed = parse_response(raw, decode(raw), "idle").expect("fallback");
    assert_eq!(parsed.expression, "idle");
}

#[test]
fn parse_response_accepts_clean_json() {
    let raw = r#"{"text":"nice work!","expression":"happy"}"#;
    let parsed = parse_response(raw, decode(raw), "idle").expect("parsed");
    assert_eq!(parsed.text, "nice work!");
    assert_eq!(parsed.expression, "happy");
}

#[test]
fn parse_response_repairs_markdown_fenced_json() {
    let raw = "```json\n{\"text\":\"hey\",\"expression\":\"blink\"}\n```";
    let parsed = parse_response(raw, decode(raw), "idle").expect("parsed");
    assert_eq!(parsed.text, "hey");
    assert_eq!(parsed.expression, "blink");
}

#[test]
fn parse_response_undecodable_keeps_two_lines() {
    let parsed = parse_response("first\nsecond\nthird", None, "idle").unwrap();
    assert_eq!(parsed.text, "first second");
    assert_eq!(parsed.expression, "idle");
    let empty_expr = LlmResponse { text: "t".into(), expression: String::new() };
    let parsed = parse_response("x", Some(empty_expr), "rest").unwrap();
    assert_eq!(parsed.expression, "rest");
}

#[test]
fn repair_reply_strips_fences() {
    let repaired = repair_reply("```json\n{\"a\":1}\n```").expect("repaired");
    assert!(repaired.trim_start().starts_with('{'));
    assert!(!repaired.contains("```"));
}

#[test]
fn from_config_selects_ollama_backend() {
    let cfg = sample_llm_config("ollama");
    match Backend::from_config(&cfg) {
        Backend::Ollama { model, max_tokens, .. } => {
            assert_eq!(model, "test-model");
            assert_eq!(max_tokens, 128);
        }
        Backend::OpenAiCompatible { .. } => panic!("expected ollama backend"),
    }
}

#[test]
fn from_config_other_backend_is_openai_compatible() {
    match Backend::from_config(&sample_llm_config("deepseek")) {
        Backend::OpenAiCompatible { api_key, url, .. } => {
            assert_eq!(api_key, "secret");
            assert_eq!(url, "http://127.0.0.1:11434");
        }
        Backend::Ollama { .. } => panic!("expected openai-compatible backend"),
    }
}

#[test]
fn ollama_request_body_is_sorted_json() {
    let b = Backend::from_config(&sample_llm_config("ollama"));
    let req = b.request("say \"hi\"");
    assert_eq!(req.url, "http://127.0.0.1:11434/api/generate");
    assert_eq!(
        req.body,
        r#"{"model":"test-model","options":{"num_predict":128},"prompt":"say \"hi\"","stream":false}"#
    );
    assert_eq!(req.headers, vec![("Content-Type".to_string(), "application/json".to_string())]);
    let v: serde_json::Value = serde_json::from_str(&req.body).unwrap();
    assert_eq!(v["prompt"], "say \"hi\"");
}

#[test]
fn openai_request_has_bearer_and_body() {
    let b = Backend::from_config(&sample_llm_config("openai"));
    let req = b.request("p");
    assert_eq!(req.url, "http://127.0.0.1:11434/v1/chat/completions");
    assert_eq!(req.headers[1], ("Authorization".to_string(), "Bearer secret".to_string()));
    assert_eq!(
        req.body,
        r#"{"max_tokens":128,"messages":[{"content":"p","role":"user"}],"model":"test-model","response_format":{"type":"json_object"},"temperature":0.7}"#
    );
    let mut cfg = sample_llm_config("openai");
    cfg.api_key = String::new();
    assert_eq!(Backend::from_config(&cfg).request("p").headers.len(), 1);
}

#[test]
fn reply_texts_are_read() {
    let ollama = JsonValue::Object(vec![
        ("done".into(), JsonValue::Bool(true)),
        ("response".into(), JsonValue::Str("hello".into())),
    ]);
    assert_eq!(ollama_reply_text(&ollama), Some("hello".to_string()));
    assert_eq!(ollama_reply_text(&JsonValue::Null), None);
    let openai = JsonValue::Object(vec![(
        "choices".into(),
        JsonValue::Array(vec![JsonValue::Object(vec![(
            "message".into(),
            JsonValue::Object(vec![("content".into(), JsonValue::Str("hi".into()))]),
        )])]),
    )]);
    assert_eq!(openai_reply_text(&openai), Some("hi".to_string()));
    let empty = JsonValue::Object(vec![("choices".into(), JsonValue::Array(vec![]))]);
    assert_eq!(openai_reply_text(&empty), None);
}

#[test]
fn reply_from_body_reads_raw_bodies() {
    let ollama = Backend::from_config(&sample_llm_config("ollama"));
    assert_eq!(
        ollama.reply_from_body(r#"{"model":"m","response":"hello \"chi\"","done":true}"#),
        Some("hello \"chi\"".to_string())
    );
    assert_eq!(ollama.reply_from_body("not json"), None);
    assert_eq!(ollama.reply_from_body(r#"{"done":true}"#), None);
    let openai = Backend::from_config(&sample_llm_config("openai"));
    assert_eq!(
        openai.reply_from_body(r#"{"choices":[{"message":{"role":"assistant","content":"hi"}}]}"#),
        Some("hi".to_string())
    );
}

#[test]
fn request_body_escapes_control_characters() {
    let b = Backend::from_config(&sample_llm_config("ollama"));
    let req = b.request("a\\b\n\t\r\u{8}\u{c}\u{1}\u{1f}é");
    assert!(req.body.contains(r#""prompt":"a\\b\n\t\r\b\f\u0001\u001fé""#));
}
