//! The inference request, and how the response is read.

use pv::groq::{
    api_key, build_payload, escape_json, extract_field, hear, prepare, stream, stream_end,
    write_curl_config, GroqEvent, Heard, URL,
};

fn s(x: &str) -> Option<String> {
    Some(x.to_string())
}

#[test]
fn extracts_delta_content() {
    let chunk = r#"{"id":"chatcmpl-1","object":"chat.completion.chunk","choices":[{"index":0,"delta":{"content":"Chrome holds"}}]}"#;
    assert_eq!(extract_field(chunk, "content"), Some("Chrome holds".into()));
}

#[test]
fn extracts_escaped_content() {
    let chunk = r#"{"choices":[{"delta":{"content":"line one\nline \"two\"\u00b0C"}}]}"#;
    assert_eq!(extract_field(chunk, "content"), Some("line one\nline \"two\"°C".into()));
}

#[test]
fn role_chunk_has_no_content() {
    let chunk = r#"{"choices":[{"index":0,"delta":{"role":"assistant"}}]}"#;
    assert_eq!(extract_field(chunk, "content"), None);
}

#[test]
fn extracts_error_message() {
    let body = r#"{"error":{"message":"Invalid API Key","type":"authentication_error"}}"#;
    assert_eq!(extract_field(body, "message"), Some("Invalid API Key".into()));
}

#[test]
fn payload_escapes() {
    let p = build_payload("m", "sys \"quoted\"", "user\nline");
    assert!(p.contains("sys \\\"quoted\\\""));
    assert!(p.contains("user\\nline"));
}

#[test]
fn curl_config_rejects_unsafe_keys() {
    let home = s("/home/u");
    assert!(write_curl_config("bad\"key", &None, &home, 1, 0).is_err());
    assert!(write_curl_config("bad\nkey", &None, &home, 1, 0).is_err());
    assert!(write_curl_config("bad\rkey", &None, &home, 1, 0).is_err());
}

#[test]
fn payload_asks_for_a_greedy_stream() {
    assert_eq!(
        build_payload("m", "a", "b"),
        "{\"model\":\"m\",\"stream\":true,\"max_tokens\":220,\"temperature\":0.0,\"messages\":[{\"role\":\"system\",\"content\":\"a\"},{\"role\":\"user\",\"content\":\"b\"}]}"
    );
}

#[test]
fn control_characters_are_written_as_code_units() {
    assert_eq!(escape_json("\u{1}\u{1f}\t\r"), "\\u0001\\u001f\\t\\r");
    assert_eq!(escape_json("é—"), "é—");
}

#[test]
fn escaped_text_is_read_back() {
    for text in ["", "plain", "q\" b\\ n\n r\r t\t", "\u{0}\u{8}\u{c}\u{1f}", "日本 — °"] {
        let json = format!("{{\"content\":\"{}\",\"x\":1}}", escape_json(text));
        assert_eq!(extract_field(&json, "content").as_deref(), Some(text));
    }
}

#[test]
fn reading_gives_up_on_what_is_not_a_string() {
    assert_eq!(extract_field("{\"n\": 3}", "n"), None);
    assert_eq!(extract_field("{\"n\"", "n"), None);
    assert_eq!(extract_field("{\"n\":\"open", "n"), None);
    assert_eq!(extract_field("{\"n\":\"\\q\"}", "n"), None);
    assert_eq!(extract_field("{\"n\":\"\\u12G4\"}", "n"), None);
    assert_eq!(extract_field("{\"n\":\"\\", "n"), None);
    assert_eq!(extract_field("{\"n\" : \t\"\\/\\b\\f\"}", "n"), s("/\u{8}\u{c}"));
    // half of a surrogate pair is no character
    assert_eq!(extract_field("{\"n\":\"\\ud83d!\"}", "n"), s("?!"));
}

#[test]
fn the_key_comes_from_the_variable_then_from_the_file() {
    assert_eq!(api_key(&s(" k "), &s("file")), s(" k "));
    assert_eq!(api_key(&s("  \n"), &s(" file\n")), s("file"));
    assert_eq!(api_key(&None, &s("\u{a0} \n")), None);
    assert_eq!(api_key(&None, &None), None);
}

#[test]
fn lines_of_the_stream_are_understood() {
    assert!(matches!(hear(""), Heard::Nothing));
    assert!(matches!(hear("data: [DONE]"), Heard::End));
    assert!(matches!(hear("data: {\"content\":\"\"}"), Heard::Nothing));
    assert!(matches!(hear("data:{\"content\":\"hi\"}"), Heard::Token(t) if t == "hi"));
    assert!(matches!(hear("{\"error\":{\"message\":\"no\"}}"), Heard::Refused(m) if m == "no"));
    assert!(matches!(hear("{\"error\":1}"), Heard::Nothing));
}

fn lines(list: &[&str]) -> Vec<String> {
    list.iter().map(|l| l.to_string()).collect()
}

#[test]
fn a_response_ends_once() {
    let r = stream(
        &lines(&["data: {\"content\":\"a\"}", "", "data: {\"content\":\"b\"}", "data: [DONE]", "x"]),
        &None,
    );
    assert_eq!(r.len(), 3);
    assert!(matches!(&r[0], GroqEvent::Token(t) if t == "a"));
    assert!(matches!(&r[1], GroqEvent::Token(t) if t == "b"));
    assert!(matches!(&r[2], GroqEvent::Done));
}

#[test]
fn a_silent_response_is_an_error_with_its_status() {
    let r = stream(&lines(&["noise"]), &s("exit status: 6"));
    assert!(
        matches!(&r[..], [GroqEvent::Error(e)] if e == "stream ended without tokens (exit status: 6)")
    );
    assert!(
        matches!(stream_end(false, &None), GroqEvent::Error(e) if e == "stream ended without tokens (killed)")
    );
    assert!(matches!(stream_end(true, &None), GroqEvent::Done));
}

#[test]
fn a_request_keeps_the_key_out_of_the_arguments() {
    let p = prepare("m", "sys", "user", "gsk_test123", &None, &s("/home/u"), 42, 7);
    let p = p.ok().expect("prepared");
    assert_eq!(p.config.path(), "/home/u/.local/share/pv/curl-42-7.conf");
    assert_eq!(p.secret, "header = \"Authorization: Bearer gsk_test123\"\n");
    assert_eq!(
        p.args,
        vec![
            "-sN",
            "-X",
            "POST",
            URL,
            "-K",
            "/home/u/.local/share/pv/curl-42-7.conf",
            "-H",
            "Content-Type: application/json",
            "--data-binary",
            "@-",
            "--max-time",
            "30"
        ]
    );
    assert!(p.args.iter().all(|a| !a.contains("gsk_test123")));
    assert_eq!(p.payload, build_payload("m", "sys", "user"));
}

#[test]
fn a_request_with_an_unsafe_key_ends_at_once() {
    let e = prepare("m", "s", "u", "a\"b", &None, &None, 1, 0).err().expect("refused");
    assert!(
        matches!(e, GroqEvent::Error(m) if m == "curl config: API key contains characters unsafe for a curl config file")
    );
}

#[test]
fn surrogate_pairs_are_one_character() {
    let field = |json: &str| extract_field(json, "content");
    assert_eq!(field(r#"{"content":"\ud83d\ude00"}"#), s("\u{1F600}"));
    assert_eq!(field(r#"{"content":"a\uD83D\uDE00b\u00e9"}"#), s("a\u{1F600}bé"));
    assert_eq!(field(r#"{"content":"\udbff\udfff"}"#), s("\u{10FFFF}"));
    // halves that do not stand together stay alone
    assert_eq!(field(r#"{"content":"\ud83d"}"#), s("?"));
    assert_eq!(field(r#"{"content":"\ude00\ud83d"}"#), s("??"));
    assert_eq!(field(r#"{"content":"\ud83d \ude00"}"#), s("? ?"));
    assert_eq!(field(r#"{"content":"\ud83d\ud83d\ude00"}"#), s("?\u{1F600}"));
    assert_eq!(field(r#"{"content":"\ud83d\n"}"#), s("?\n"));
    assert_eq!(field(r#"{"content":"\ud83d\uzzzz"}"#), None);
}
