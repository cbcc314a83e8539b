use yammer::accumulator::Accumulator;
use yammer::conversation::{
    arguments_entry, command_line, log_entry, read_messages, Action, Conversation,
    ConversationOptions, Input,
};
use yammer::message::ChatMessage;
use yammer::naming::expand_file_name;

fn message(role: &str, content: &str) -> ChatMessage {
    ChatMessage::new(role, content)
}

#[test]
fn folding_nothing_adds_nothing() {
    let mut c = Conversation::new();
    c.push(message("user", "hi"));
    c.add_assistant_response(vec![]);
    assert_eq!(c.messages().len(), 1);
    c.add_assistant_response(vec!["{\"done\":true}".to_string(), "{\"message\":{\"role\":\"assistant\"}}".to_string()]);
    assert_eq!(c.messages().len(), 1);
    c.add_assistant_response(vec!["{\"message\":{\"content\":\"\"}}".to_string()]);
    assert_eq!(c.messages().len(), 1);
}

#[test]
fn folding_joins_content_in_order() {
    let mut c = Conversation::new();
    c.add_assistant_response(vec![
        "{\"message\":{\"role\":\"assistant\",\"content\":\"Hel\"}}".to_string(),
        "{\"response\":\"lo\"}".to_string(),
        "{\"done\":true}".to_string(),
        "{\"message\":{\"role\":\"assistant\",\"content\":\"!\"},\"response\":\"ignored\"}".to_string(),
    ]);
    assert_eq!(c.messages().len(), 1);
    assert_eq!(c.messages()[0].role, "assistant");
    assert_eq!(c.messages()[0].content, "Hello!");
}

#[test]
fn truncate_keeps_a_prefix() {
    let mut c = Conversation::new();
    c.push(message("user", "a"));
    c.push(message("assistant", "b"));
    c.push(message("user", "c"));
    c.truncate(5);
    assert_eq!(c.messages().len(), 3);
    c.truncate(1);
    assert_eq!(c.messages().len(), 1);
    assert_eq!(c.messages()[0].content, "a");
}

#[test]
fn log_round_trip() {
    let msgs = vec![
        message("user", "What is \"6 x 7\"?\nTell me."),
        message("assistant", "42 \u{1f600}"),
        ChatMessage {
            role: "user".to_string(),
            content: "look".to_string(),
            images: Some(vec!["aGVsbG8=".to_string()]),
            tool_calls: Some(vec!["{\"function\":{\"name\":\"f\"}}".to_string()]),
        },
    ];
    let mut log = arguments_entry(&vec!["yammer".to_string(), "chat".to_string()]);
    for m in &msgs {
        log.push_str(&log_entry(m));
    }
    log.push_str("not json\n\n{\"role\":\"user\"}\n");
    let back = read_messages(log.as_bytes());
    assert_eq!(back.len(), msgs.len());
    for (a, b) in back.iter().zip(msgs.iter()) {
        assert_eq!(a.role, b.role);
        assert_eq!(a.content, b.content);
        assert_eq!(a.images, b.images);
    }
    let calls = back[2].tool_calls.clone().unwrap();
    assert_eq!(
        serde_json::from_str::<serde_json::Value>(&calls[0]).unwrap(),
        serde_json::from_str::<serde_json::Value>("{\"function\":{\"name\":\"f\"}}").unwrap()
    );
}

#[test]
fn log_entry_is_one_json_line() {
    let line = log_entry(&message("user", "a\"b"));
    assert_eq!(line, "{\"role\":\"user\",\"content\":\"a\\\"b\"}\n");
    assert_eq!(arguments_entry(&vec!["x".to_string()]), "[\"x\"]\n");
}

#[test]
fn last_log_line_without_line_feed() {
    let back = read_messages(b"{\"role\":\"user\",\"content\":\"a\"}\n  {\"role\":\"assistant\",\"content\":\"b\"}  ");
    assert_eq!(back.len(), 2);
    assert_eq!(back[1].content, "b");
}

#[test]
fn commands_are_recognised() {
    assert!(command_line("/exit"));
    assert!(command_line("  \t/help"));
    assert!(!command_line("hello /exit"));
    assert!(!command_line(""));
    assert!(!command_line("   "));
}

#[test]
fn shell_steps() {
    let mut c = Conversation::new();
    assert!(matches!(c.on_input(Input::Eof, "m"), Action::Exit));
    assert!(matches!(c.on_input(Input::Interrupted, "m"), Action::Prompt));
    assert!(matches!(c.on_input(Input::Failed, "m"), Action::Prompt));
    assert!(matches!(c.on_input(Input::Line("/exit".to_string()), "m"), Action::Exit));
    match c.on_input(Input::Line(" /what".to_string()), "m") {
        Action::Unknown(l) => assert_eq!(l, " /what"),
        _ => panic!("expected an unknown command"),
    }
    assert_eq!(c.messages().len(), 0);
    match c.on_input(Input::Line("hi".to_string()), "llama") {
        Action::Send { log, request } => {
            assert_eq!(log, "{\"role\":\"user\",\"content\":\"hi\"}\n");
            assert_eq!(request.model, "llama");
            assert_eq!(request.messages.len(), 1);
            assert_eq!(request.stream, Some(true));
        }
        _ => panic!("expected a turn"),
    }
    assert_eq!(c.messages().len(), 1);
}

#[test]
fn finish_turn_logs_the_reply() {
    let mut c = Conversation::new();
    c.push(message("user", "hi"));
    let mut acc = c.accumulator();
    acc.accumulate("{\"message\":{\"role\":\"assistant\",\"content\":\"yo\"}}".to_string());
    assert_eq!(acc.pieces().len(), 1);
    let line = c.finish_turn(acc);
    assert_eq!(line, Some("{\"role\":\"assistant\",\"content\":\"yo\"}\n".to_string()));
    let empty = c.accumulator();
    assert_eq!(c.finish_turn(empty), None);
    assert_eq!(c.messages().len(), 2);
}

#[test]
fn conversation_request() {
    let mut c = Conversation::new();
    c.push(message("user", "q"));
    let r = c.request("m");
    assert_eq!(r.model, "m");
    assert_eq!(r.messages.len(), 1);
    assert_eq!(r.stream, Some(true));
    assert!(r.tools.is_none() && r.format.is_none() && r.keep_alive.is_none());
}

#[test]
fn default_options() {
    let o = ConversationOptions::default();
    assert_eq!(o.model, "mistral-nemo");
    assert_eq!(o.ps1, "yammer> ");
    assert!(o.log.is_none() && o.load.is_none());
}

#[test]
fn file_name_patterns() {
    assert_eq!(expand_file_name("log-%m-%s.ndjson", 1700000000, "llama3"), Some("log-llama3-1700000000.ndjson".to_string()));
    assert_eq!(expand_file_name("100%%", 0, "m"), Some("100%".to_string()));
    assert_eq!(expand_file_name("a%xb%", 5, "m"), Some("a%xb".to_string()));
    assert_eq!(expand_file_name("%s", 0, "m"), Some("0".to_string()));
    assert_eq!(expand_file_name("", 7, "m"), None);
    assert_eq!(expand_file_name("%m", 7, ""), None);
}
