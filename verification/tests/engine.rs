use riddle::engine::{
    answer_text, extract_json_string, extract_reply, reply_or_offline, unfence_answer, Content, Engine, Reply,
    Role, OFFLINE_REPLY,
};

/// The strict JSON reading of an answer into a reply: an object with a
/// string `reply` and, if present, a string `transcription`.
fn strict_reading(content: &str) -> Option<Reply> {
    let text = unfence_answer(content);
    let value: serde_json::Value = serde_json::from_str(&text).ok()?;
    let object = value.as_object()?;
    let reply = object.get("reply")?.as_str()?.to_string();
    let transcription = match object.get("transcription") {
        Some(t) => t.as_str()?.to_string(),
        None => String::new(),
    };
    Some(Reply { transcription, reply })
}

fn read_answer(content: &str) -> Reply {
    extract_reply(content, strict_reading(content))
}

#[test]
fn parses_clean_json() {
    let r = read_answer(r#"{"transcription": "hoi", "reply": "Goedendag."}"#);
    assert_eq!(r.reply, "Goedendag.");
    assert_eq!(r.transcription, "hoi");
}

#[test]
fn parses_fenced_json() {
    let r = read_answer("```json\n{\"transcription\": \"hi\", \"reply\": \"Hello.\"}\n```");
    assert_eq!(r.reply, "Hello.");
}

#[test]
fn salvages_truncated_json() {
    let r = read_answer(r#"{"transcription": "a very long page", "reply": "The diary rememb"#);
    assert_eq!(r.reply, "The diary rememb");
    assert_eq!(r.transcription, "a very long page");
}

#[test]
fn keeps_valid_json_reply_verbatim() {
    let r = read_answer(r#"{"transcription": "x", "reply": "One.\nTwo \"quoted\"."}"#);
    assert_eq!(r.reply, "One.\nTwo \"quoted\".");
}

#[test]
fn salvage_unescapes_and_flattens_newlines() {
    let r = read_answer(r#"{"transcription": "x", "reply": "One.\nTwo \"quoted\""#);
    assert_eq!(r.reply, "One. Two \"quoted\"");
}

#[test]
fn falls_back_to_plain_text() {
    let r = read_answer("Just a plain sentence.");
    assert_eq!(r.reply, "Just a plain sentence.");
}

#[test]
fn strict_reading_wins_over_salvage() {
    let strict = Reply { transcription: "t".to_string(), reply: "from the parser".to_string() };
    let r = extract_reply(r#"{"reply": "salvaged"}"#, Some(strict));
    assert_eq!(r.reply, "from the parser");
    assert_eq!(r.transcription, "t");
}

#[test]
fn salvage_reads_clean_json_too() {
    let r = extract_reply(r#"{"transcription": "hoi", "reply": "Goedendag."}"#, None);
    assert_eq!(r.reply, "Goedendag.");
    assert_eq!(r.transcription, "hoi");
}

#[test]
fn salvage_without_transcription_leaves_it_empty() {
    let r = extract_reply(r#"{"reply": "Only this"#, None);
    assert_eq!(r.reply, "Only this");
    assert_eq!(r.transcription, "");
}

#[test]
fn last_resort_shaves_json_punctuation() {
    let r = extract_reply("```\n{\"answer\": \"nope\"}\n```", None);
    assert_eq!(r.reply, "answer\": \"nope");
    assert_eq!(r.transcription, "");
}

#[test]
fn unfence_strips_json_fence_and_whitespace() {
    assert_eq!(unfence_answer("  ```json\n{\"a\": 1}\n``````  "), "{\"a\": 1}");
    assert_eq!(unfence_answer("```\nplain\n```"), "plain");
    assert_eq!(unfence_answer("  no fence "), "no fence");
}

#[test]
fn json_string_unescapes_unicode_and_tabs() {
    let s = r#"{"reply" : "caf\u00e9\tnu\/ok"}"#;
    assert_eq!(extract_json_string(s, "reply"), Some("café nu/ok".to_string()));
}

#[test]
fn json_string_skips_broken_unicode_escape() {
    assert_eq!(extract_json_string(r#"{"reply": "a\uZZZZb"}"#, "reply"), Some("ab".to_string()));
    assert_eq!(extract_json_string(r#"{"reply": "a\ud800b"}"#, "reply"), Some("ab".to_string()));
    assert_eq!(extract_json_string(r#"{"reply": "x\u41"#, "reply"), Some("xA".to_string()));
}

#[test]
fn json_string_absent_cases() {
    assert_eq!(extract_json_string(r#"{"other": "x"}"#, "reply"), None);
    assert_eq!(extract_json_string(r#"{"reply" 12}"#, "reply"), None);
    assert_eq!(extract_json_string(r#"{"reply": 12}"#, "reply"), None);
    assert_eq!(extract_json_string(r#"{"reply": "   "}"#, "reply"), None);
}

fn engine() -> Engine {
    Engine::new(
        "gpt-4o-mini".to_string(),
        "https://api.openai.com/v1//".to_string(),
        "sk-test".to_string(),
        "You are a diary.".to_string(),
    )
}

#[test]
fn chat_url_drops_trailing_slashes() {
    assert_eq!(engine().chat_url(), "https://api.openai.com/v1/chat/completions");
}

#[test]
fn authorization_is_bearer() {
    assert_eq!(engine().authorization(), "Bearer sk-test");
}

#[test]
fn messages_carry_persona_transcript_and_page() {
    let mut e = engine();
    e.remember("hello".to_string(), "Good day.".to_string());
    let msgs = e.messages(b"Man");
    assert_eq!(msgs.len(), 4);
    assert_eq!(msgs[0].role, Role::System);
    assert_eq!(msgs[1].role, Role::User);
    assert_eq!(msgs[2].role, Role::Assistant);
    assert_eq!(msgs[3].role, Role::User);
    match &msgs[0].content {
        Content::Text(t) => assert_eq!(t, "You are a diary."),
        _ => panic!("persona should be text"),
    }
    match &msgs[1].content {
        Content::Text(t) => assert_eq!(t, "hello"),
        _ => panic!("writer's words should be text"),
    }
    match &msgs[2].content {
        Content::Text(t) => assert_eq!(t, "Good day."),
        _ => panic!("diary's words should be text"),
    }
    match &msgs[3].content {
        Content::Page { text, image_url } => {
            assert_eq!(
                text,
                "New words have been written on the page. The image shows exactly what the writer wrote by hand."
            );
            assert_eq!(image_url, "data:image/png;base64,TWFu");
        }
        _ => panic!("the page should carry the image"),
    }
}

#[test]
fn page_image_is_padded_base64() {
    let e = engine();
    let msgs = e.messages(&[0x4d]);
    match &msgs[1].content {
        Content::Page { image_url, .. } => assert_eq!(image_url, "data:image/png;base64,TQ=="),
        _ => panic!("the page should carry the image"),
    }
    let msgs = e.messages(&[0x4d, 0x61, 0x6e, 0xff, 0xfe]);
    match &msgs[1].content {
        Content::Page { image_url, .. } => assert_eq!(image_url, "data:image/png;base64,TWFu//4="),
        _ => panic!("the page should carry the image"),
    }
}

#[test]
fn illegible_exchanges_are_remembered_as_such() {
    let mut e = engine();
    e.remember_reply(&Reply { transcription: String::new(), reply: "Pardon?".to_string() });
    e.remember_reply(&Reply { transcription: "hi".to_string(), reply: "Hello.".to_string() });
    assert_eq!(
        e.history,
        vec![
            ("(illegible)".to_string(), "Pardon?".to_string()),
            ("hi".to_string(), "Hello.".to_string()),
        ]
    );
}

#[test]
fn offline_reply_is_not_remembered() {
    let (r, keep) = reply_or_offline(None);
    assert_eq!(r.reply, OFFLINE_REPLY);
    assert_eq!(r.reply, "I need internet to help you further.");
    assert_eq!(r.transcription, "");
    assert!(!keep);
    let (r, keep) = reply_or_offline(Some(Reply { transcription: "a".to_string(), reply: "b".to_string() }));
    assert_eq!(r.reply, "b");
    assert!(keep);
}

#[test]
fn answer_text_prefers_content_then_refusal() {
    assert_eq!(
        answer_text(Some("{\"reply\":\"Yes.\"}".to_string()), Some("No.".to_string())),
        Some("{\"reply\":\"Yes.\"}".to_string())
    );
    assert_eq!(answer_text(None, Some("I cannot.".to_string())), Some("I cannot.".to_string()));
    assert_eq!(answer_text(None, None), None);
}

#[test]
fn remembering_keeps_the_settings() {
    let mut e = Engine::new(
        "gpt-4o".to_string(),
        "https://api.openai.com/v1".to_string(),
        "key".to_string(),
        "You are a diary.".to_string(),
    );
    e.remember_reply(&Reply { transcription: "hi".to_string(), reply: "Hello.".to_string() });
    assert_eq!(e.model, "gpt-4o");
    assert_eq!(e.base_url, "https://api.openai.com/v1");
    assert_eq!(e.api_key, "key");
    assert_eq!(e.system_prompt, "You are a diary.");
}
