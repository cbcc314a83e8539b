use std::ops::ControlFlow;

use yammer::accumulator::{Accumulator, FieldWriteAccumulator, JsonAccumulator};
use yammer::message::ChatAccumulator;

#[test]
fn chat_render_skips_leading_blank_content() {
    let mut acc = ChatAccumulator::new(String::new());
    let first = "{\"created_at\":\"t\",\"message\":{\"role\":\"assistant\",\"content\":\"\"},\"done\":false}";
    let second = "{\"created_at\":\"t\",\"message\":{\"role\":\"assistant\",\"content\":\"42\"},\"done\":true}";
    assert_eq!(acc.accumulate(first.to_string()), ControlFlow::Continue(()));
    assert_eq!(acc.accumulate(second.to_string()), ControlFlow::Continue(()));
    assert_eq!(acc.into_output(), "42");
}

#[test]
fn chat_render_keeps_white_space_once_started() {
    let mut acc = ChatAccumulator::new(String::new());
    for content in ["\\n", " ", "Hello", " ", "\\n", "world"] {
        let f = format!("{{\"created_at\":\"t\",\"message\":{{\"role\":\"assistant\",\"content\":\"{content}\"}},\"done\":false}}");
        assert_eq!(acc.accumulate(f), ControlFlow::Continue(()));
    }
    assert_eq!(acc.into_output(), "Hello \nworld");
}

#[test]
fn chat_render_rejects_other_shapes() {
    let mut acc = ChatAccumulator::new(String::new());
    assert_eq!(acc.accumulate("{\"response\":\"x\"}".to_string()), ControlFlow::Break(()));
    assert_eq!(acc.rejected(), Some("{\"response\":\"x\"}".to_string()));
    let no_done = "{\"created_at\":\"t\",\"message\":{\"role\":\"assistant\",\"content\":\"x\"}}";
    assert_eq!(acc.accumulate(no_done.to_string()), ControlFlow::Break(()));
    let good = "{\"created_at\":\"t\",\"message\":{\"role\":\"assistant\",\"content\":\"ok\",\"images\":null},\"done\":true,\"extra\":3}";
    assert_eq!(acc.accumulate(good.to_string()), ControlFlow::Continue(()));
    assert_eq!(acc.rejected(), None);
    assert_eq!(acc.output(), "ok");
}

#[test]
fn field_write_writes_string_members_only() {
    let mut acc = FieldWriteAccumulator::new(String::from(">"), "response");
    for f in ["{\"response\":\"Hel\"}", "{\"response\":3}", "{\"other\":\"x\"}", "[1]", "{\"response\":\"lo\\n\"}"] {
        assert_eq!(acc.accumulate(f.to_string()), ControlFlow::Continue(()));
    }
    assert_eq!(acc.output(), ">Hello\n");
}

#[test]
fn json_lines_compact_and_pretty() {
    let mut compact = JsonAccumulator::new(String::new());
    compact.accumulate("{\"a\":[1,2]}".to_string());
    compact.accumulate("null".to_string());
    assert_eq!(compact.into_output(), "{\"a\":[1,2]}\nnull\n");
    let mut pretty = JsonAccumulator::pretty(String::new());
    pretty.accumulate("{\"a\":[1,2]}".to_string());
    assert_eq!(pretty.into_output(), "{\n  \"a\": [\n    1,\n    2\n  ]\n}\n");
}

#[test]
fn notify_is_called_for_each_fragment() {
    let count = std::cell::Cell::new(0);
    let mut acc = yammer::accumulator::NotifyAccumulator::new(|| count.set(count.get() + 1));
    assert_eq!(acc.accumulate("1".to_string()), ControlFlow::Continue(()));
    assert_eq!(acc.accumulate("2".to_string()), ControlFlow::Continue(()));
    assert_eq!(count.get(), 2);
}

#[test]
fn console_takes_text() {
    let mut acc = FieldWriteAccumulator::new(yammer::accumulator::Console::new(), "response");
    assert_eq!(acc.accumulate("{\"response\":\"\"}".to_string()), ControlFlow::Continue(()));
}

#[test]
fn chat_response_fields() {
    let r = yammer::ChatResponse::from_json(
        "{\"created_at\":\"t0\",\"message\":{\"role\":\"assistant\",\"content\":\"hi\"},\"done\":true}",
    )
    .unwrap();
    assert_eq!(r.created_at, "t0");
    assert_eq!(r.message.content, "hi");
    assert!(r.done);
    assert!(yammer::ChatResponse::from_json("{\"created_at\":\"t0\",\"message\":{\"role\":\"assistant\",\"content\":\"hi\"},\"done\":1}").is_none());
}

#[test]
fn chat_render_rejects_without_writing() {
    let mut acc = ChatAccumulator::new(String::from("#"));
    assert_eq!(acc.accumulate("{\"message\":{\"role\":\"assistant\",\"content\":\"x\"}}".to_string()), ControlFlow::Break(()));
    assert_eq!(acc.output(), "#");
}

#[test]
fn default_chat_render_goes_on_for_replies() {
    let mut acc: ChatAccumulator<yammer::Console> = ChatAccumulator::default();
    let f = "{\"created_at\":\"t\",\"message\":{\"role\":\"assistant\",\"content\":\"\"},\"done\":true}";
    assert_eq!(acc.accumulate(f.to_string()), ControlFlow::Continue(()));
}
