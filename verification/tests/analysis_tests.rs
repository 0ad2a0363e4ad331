use tech_radar::analysis::{
    analysis_reply, extract_openai_response_text, JsonMember, JsonValue, ReplyError,
    ARTICLE_TEXT_LIMIT,
};
use tech_radar::feed::Article;
use tech_radar::{build_articles_prompt, strip_json_code_fence, truncate_text};

fn s(t: &str) -> JsonValue {
    JsonValue::Str(t.to_string())
}

fn obj(members: Vec<(&str, JsonValue)>) -> JsonValue {
    JsonValue::Object(
        members.into_iter().map(|(k, v)| JsonMember { key: k.to_string(), value: v }).collect(),
    )
}

#[test]
fn truncate_text_marks_the_cut() {
    assert_eq!(truncate_text("abcdef", 3), "abc...");
    assert_eq!(truncate_text("abc", 3), "abc");
    assert_eq!(truncate_text("", 0), "");
    assert_eq!(truncate_text("ab", 0), "...");
    assert_eq!(truncate_text("héllo wörld", 4), "héll...");
}

#[test]
fn build_articles_prompt_numbers_each_article() {
    let a = Article {
        source_name: "InfoQ".to_string(),
        source_feed: "https://www.infoq.com/feed/".to_string(),
        title: "Title A".to_string(),
        url: "https://a/1".to_string(),
        summary: "Summary A".to_string(),
    };
    let b = Article {
        source_name: "HN".to_string(),
        source_feed: "f".to_string(),
        title: "Title B".to_string(),
        url: "https://b/2".to_string(),
        summary: "x".repeat(ARTICLE_TEXT_LIMIT + 1),
    };
    let p = build_articles_prompt(&[a, b]);
    let expected = format!(
        "Artikel baru yang perlu dianalisis dan diranking:\n\n\
1. Judul: Title A\nURL: https://a/1\nSumber: InfoQ\nSumber RSS/API: https://www.infoq.com/feed/\nCuplikan: Summary A\n\n\
2. Judul: Title B\nURL: https://b/2\nSumber: HN\nSumber RSS/API: f\nCuplikan: {}...\n\n",
        "x".repeat(ARTICLE_TEXT_LIMIT)
    );
    assert_eq!(p, expected);
}

#[test]
fn build_articles_prompt_without_articles_is_the_heading() {
    assert_eq!(build_articles_prompt(&[]), "Artikel baru yang perlu dianalisis dan diranking:\n\n");
}

#[test]
fn strip_json_code_fence_removes_the_fence() {
    assert_eq!(strip_json_code_fence("  ```json\n{\"a\": 1}\n```  "), "{\"a\": 1}");
    assert_eq!(strip_json_code_fence("```\n{}\n```"), "{}");
    assert_eq!(strip_json_code_fence("{\"b\": 2}"), "{\"b\": 2}");
    assert_eq!(strip_json_code_fence("``````x``````"), "x");
    assert_eq!(strip_json_code_fence(""), "");
}

#[test]
fn response_text_prefers_output_text() {
    let r = obj(vec![
        ("output_text", s("{\"x\":1}")),
        ("output", JsonValue::Array(vec![obj(vec![("content", JsonValue::Array(vec![obj(vec![("text", s("other"))])]))])])),
    ]);
    assert_eq!(extract_openai_response_text(&r), Some("{\"x\":1}".to_string()));
}

#[test]
fn response_text_joins_content_parts() {
    let item1 = obj(vec![
        ("type", s("message")),
        (
            "content",
            JsonValue::Array(vec![
                obj(vec![("text", s("{\"a\":"))]),
                obj(vec![("type", s("refusal"))]),
                obj(vec![("text", JsonValue::Number("3".to_string()))]),
            ]),
        ),
    ]);
    let item2 = obj(vec![("content", s("not an array"))]);
    let item3 = obj(vec![("content", JsonValue::Array(vec![obj(vec![("text", s("1}"))])]))]);
    let r = obj(vec![
        ("output_text", JsonValue::Null),
        ("output", JsonValue::Array(vec![item1, item2, item3])),
    ]);
    assert_eq!(extract_openai_response_text(&r), Some("{\"a\":1}".to_string()));
}

#[test]
fn response_text_is_none_without_text() {
    assert_eq!(extract_openai_response_text(&obj(vec![])), None);
    assert_eq!(extract_openai_response_text(&JsonValue::Bool(true)), None);
    let r = obj(vec![("output", JsonValue::Array(vec![obj(vec![("content", JsonValue::Array(vec![]))])]))]);
    assert_eq!(extract_openai_response_text(&r), None);
    let r = obj(vec![("output", s("x"))]);
    assert_eq!(extract_openai_response_text(&r), None);
}

#[test]
fn response_text_reads_the_first_member_of_a_name() {
    let r = obj(vec![("output_text", s("first")), ("output_text", s("second"))]);
    assert_eq!(extract_openai_response_text(&r), Some("first".to_string()));
}

#[test]
fn analysis_reply_reads_the_body() {
    let body = r#"{"output": [{"content": [{"text": "```json\n{\"a\": 1}\n```"}]}], "id": 3}"#;
    let reply = match analysis_reply(true, "200 OK", body) {
        Ok(r) => r,
        Err(_) => panic!("expected a reply"),
    };
    assert_eq!(reply.raw, "```json\n{\"a\": 1}\n```");
    assert_eq!(reply.json, "{\"a\": 1}");
    let direct = analysis_reply(true, "200 OK", r#"{"output_text": "x"}"#);
    assert!(matches!(direct, Ok(ref r) if r.raw == "x" && r.json == "x"));
}

#[test]
fn analysis_reply_errors() {
    match analysis_reply(false, "500 Internal Server Error", "oops") {
        Err(ReplyError::Status(m)) => {
            assert_eq!(m, "OpenAI Responses API error 500 Internal Server Error: oops")
        }
        _ => panic!("expected a status error"),
    }
    assert!(matches!(analysis_reply(true, "200 OK", "not json"), Err(ReplyError::NotJson(_))));
    assert!(matches!(analysis_reply(true, "200 OK", r#"{"output": []}"#), Err(ReplyError::NoText)));
    assert!(matches!(analysis_reply(true, "200 OK", "[1, 2.5, null]"), Err(ReplyError::NoText)));
}
