use yammer::message::ChatMessage;
use yammer::request::{
    ChatRequest, CreateRequest, EmbedRequest, GenerateRequest, Method, PullRequest, Request,
    RequestOptions, ShowRequest,
};
use yammer::stream::ErrorResponse;

fn local() -> RequestOptions {
    RequestOptions { url: Some("http://h:1".to_string()) }
}

#[test]
fn default_url() {
    assert_eq!(RequestOptions::default().url(), "http://localhost:11434");
    assert_eq!(local().url(), "http://h:1");
}

#[test]
fn pull_payload() {
    let r = Request::pull(local(), PullRequest::new("llama3"));
    assert_eq!(r.payload, "{\"model\":\"llama3\"}");
    assert_eq!(r.api, "pull");
    assert!(r.streaming);
    assert_eq!(r.endpoint(), "http://h:1/api/pull");
    assert_eq!(r.method(), Some(Method::Post));
}

#[test]
fn create_payload() {
    let mut c = CreateRequest::new("m", "FROM x\n");
    assert_eq!(Request::create(local(), c.clone()).payload, "{\"name\":\"m\",\"modelfile\":\"FROM x\\n\"}");
    c.stream = Some(false);
    c.quantize = Some("q4".to_string());
    assert_eq!(Request::create(local(), c).payload, "{\"name\":\"m\",\"modelfile\":\"FROM x\\n\",\"stream\":false,\"quantize\":\"q4\"}");
}

#[test]
fn generate_payload() {
    let g = GenerateRequest::default();
    let r = Request::generate(local(), g.clone());
    assert_eq!(r.payload, "{\"model\":\"mistral-nemo\",\"prompt\":\"42\",\"suffix\":\"\"}");
    assert!(r.streaming);
    let mut g2 = g;
    g2.images = Some(vec!["AA==".to_string()]);
    g2.raw = Some(true);
    g2.keep_alive = Some("5m".to_string());
    assert_eq!(
        Request::generate(local(), g2).payload,
        "{\"model\":\"mistral-nemo\",\"prompt\":\"42\",\"suffix\":\"\",\"images\":[\"AA==\"],\"raw\":true,\"keep_alive\":\"5m\"}"
    );
}

#[test]
fn embed_payload() {
    let r = Request::embed(local(), EmbedRequest::default(), vec!["a".to_string(), "b".to_string()]);
    assert_eq!(r.payload, "{\"model\":\"mistral-nemo\",\"input\":[\"a\",\"b\"]}");
    assert!(!r.streaming);
    assert!(EmbedRequest::default().input.is_empty());
}

#[test]
fn chat_payload() {
    let c = ChatRequest {
        model: "m".to_string(),
        messages: vec![ChatMessage::new("user", "hi")],
        tools: Some("[{\"type\":\"function\"}]".to_string()),
        format: None,
        stream: Some(true),
        keep_alive: None,
    };
    let r = Request::chat(local(), c);
    assert_eq!(
        r.payload,
        "{\"model\":\"m\",\"messages\":[{\"role\":\"user\",\"content\":\"hi\"}],\"tools\":[{\"type\":\"function\"}],\"stream\":true}"
    );
    assert_eq!(r.endpoint(), "http://h:1/api/chat");
}

#[test]
fn tags_and_show() {
    let t = Request::tags(local());
    assert_eq!(t.payload, "{}");
    assert_eq!(t.method(), Some(Method::Get));
    assert!(!t.streaming);
    let s = Request::show(local(), ShowRequest::new("m"));
    assert_eq!(s.payload, "{\"model\":\"m\"}");
    assert!(!s.streaming);
}

#[test]
fn unknown_endpoint_has_no_method() {
    let r = Request { url: "u".to_string(), api: "nope".to_string(), payload: String::new(), streaming: false };
    assert_eq!(r.method(), None);
}

#[test]
fn payloads_are_json() {
    let r = Request::chat(local(), ChatRequest {
        model: "m\"x".to_string(),
        messages: vec![],
        tools: None,
        format: Some("json".to_string()),
        stream: None,
        keep_alive: None,
    });
    let v: serde_json::Value = serde_json::from_str(&r.payload).unwrap();
    assert_eq!(v["model"], "m\"x");
    assert_eq!(v["format"], "json");
}

#[test]
fn error_objects() {
    assert_eq!(ErrorResponse::from_json("{\"error\":\"bad\"}").map(|e| e.error), Some("bad".to_string()));
    assert!(ErrorResponse::from_json("{\"error\":1}").is_none());
    assert!(ErrorResponse::from_json("{\"response\":\"x\"}").is_none());
}

#[test]
fn host_fills_an_absent_url() {
    let host = Some("http://env:2".to_string());
    assert_eq!(RequestOptions { url: None }.with_host(host.clone()).url(), "http://env:2");
    assert_eq!(local().with_host(host).url(), "http://h:1");
    assert_eq!(RequestOptions { url: None }.with_host(None).url(), "http://localhost:11434");
}

#[test]
fn strings_are_escaped() {
    let r = Request::pull(local(), PullRequest::new("a\"b\\c\n\t\u{1}\u{7f}é"));
    assert_eq!(r.payload, "{\"model\":\"a\\\"b\\\\c\\n\\t\\u0001\u{7f}é\"}");
}
