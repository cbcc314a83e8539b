use std::ops::ControlFlow;

use yammer::accumulator::{fan_out, Accumulator, JsonAccumulator, VecAccumulator};
use yammer::message::ChatAccumulator;
use yammer::stream::{accumulate_chunks, Decoder};
use yammer::Error;

fn value(text: &str) -> serde_json::Value {
    serde_json::from_str(text).unwrap()
}

fn chunks(parts: &[&str]) -> Vec<Vec<u8>> {
    parts.iter().map(|p| p.as_bytes().to_vec()).collect()
}

fn run(status: u16, streaming: bool, parts: &[Vec<u8>]) -> (Result<(), Error>, Vec<String>) {
    let mut acc = VecAccumulator::new(Vec::new());
    let r = accumulate_chunks(status, streaming, &parts.to_vec(), &mut acc);
    (r, acc.output)
}

#[test]
fn three_chunks_give_two_values() {
    let parts = chunks(&["{\"respo", "nse\":\"Hi\"}\n{\"response\"", ":\" there\",\"done\":true}\n"]);
    let (r, values) = run(200, true, &parts);
    assert_eq!(r, Ok(()));
    assert_eq!(values.len(), 2);
    assert_eq!(value(&values[0]), value("{\"response\":\"Hi\"}"));
    assert_eq!(value(&values[1]), value("{\"response\":\" there\",\"done\":true}"));
}

#[test]
fn decoder_fed_chunk_by_chunk() {
    let mut decoder = Decoder::new(200, true);
    let mut acc = VecAccumulator::new(Vec::new());
    assert_eq!(decoder.feed(b"{\"respo", &mut acc), Ok(ControlFlow::Continue(())));
    assert_eq!(acc.output.len(), 0);
    assert_eq!(decoder.feed(b"nse\":\"Hi\"}\n{\"response\"", &mut acc), Ok(ControlFlow::Continue(())));
    assert_eq!(acc.output.len(), 1);
    assert_eq!(decoder.feed(b":\" there\",\"done\":true}\n", &mut acc), Ok(ControlFlow::Continue(())));
    assert_eq!(acc.output.len(), 2);
    assert_eq!(decoder.finish(&mut acc), Ok(()));
    assert_eq!(acc.output.len(), 2);
}

#[test]
fn whole_body_is_one_value() {
    let parts = chunks(&["  {\"embeddings\":", "[[1,2],[3]", "]}  \n"]);
    let (r, values) = run(200, false, &parts);
    assert_eq!(r, Ok(()));
    assert_eq!(values.len(), 1);
    assert_eq!(value(&values[0]), value("{\"embeddings\":[[1,2],[3]]}"));
}

#[test]
fn whole_body_that_is_no_json() {
    let (r, values) = run(200, false, &chunks(&["{\"a\":", "1"]));
    assert_eq!(r, Err(Error::Json));
    assert!(values.is_empty());
}

#[test]
fn failed_status_gives_body_text() {
    let (r, values) = run(404, true, &chunks(&["model ", "not found"]));
    assert_eq!(r, Err(Error::Message("model not found".to_string())));
    assert!(values.is_empty());
}

#[test]
fn failed_status_with_bytes_that_are_no_text() {
    let (r, values) = run(500, false, &[vec![0xff, 0xfe]]);
    assert_eq!(r, Err(Error::Utf8));
    assert!(values.is_empty());
}

#[test]
fn chunk_boundaries_do_not_matter() {
    let body = "{\"response\":\"h\u{e9}llo\"}\n\n  \n{\"response\":\"\u{1f600} w\"}\n{\"done\":true}";
    let bytes = body.as_bytes();
    let (r0, whole) = run(200, true, &[bytes.to_vec()]);
    assert_eq!(r0, Ok(()));
    assert_eq!(whole.len(), 3);
    for cut in 0..=bytes.len() {
        for cut2 in cut..=bytes.len() {
            let parts = vec![bytes[..cut].to_vec(), bytes[cut..cut2].to_vec(), bytes[cut2..].to_vec()];
            let (r, values) = run(200, true, &parts);
            assert_eq!(r, Ok(()));
            assert_eq!(values, whole);
        }
    }
    let single: Vec<Vec<u8>> = bytes.iter().map(|b| vec![*b]).collect();
    assert_eq!(run(200, true, &single).1, whole);
}

#[test]
fn error_object_fails_however_split() {
    let body = b"{\"error\":\"model 'x' not found\"}\n";
    for cut in 0..=body.len() {
        let parts = vec![body[..cut].to_vec(), body[cut..].to_vec()];
        let (r, values) = run(200, true, &parts);
        assert_eq!(r, Err(Error::Message("model 'x' not found".to_string())));
        assert!(values.is_empty());
    }
    let (r, values) = run(200, true, &[body[..body.len() - 1].to_vec()]);
    assert_eq!(r, Err(Error::Message("model 'x' not found".to_string())));
    assert!(values.is_empty());
}

#[test]
fn error_after_values_keeps_the_values() {
    let (r, values) = run(200, true, &chunks(&["{\"response\":\"a\"}\n{\"error\":\"boom\"}\n{\"response\":\"b\"}\n"]));
    assert_eq!(r, Err(Error::Message("boom".to_string())));
    assert_eq!(values.len(), 1);
}

#[test]
fn empty_and_blank_chunks_are_ignored() {
    let parts = chunks(&["", "{\"a\":1}", "", "\n", "   ", "\n", "", "{\"b\":2}\n", ""]);
    let (r, values) = run(200, true, &parts);
    assert_eq!(r, Ok(()));
    assert_eq!(values.len(), 2);
    assert_eq!(value(&values[1]), value("{\"b\":2}"));
}

#[test]
fn unfinished_tail_is_dropped() {
    let (r, values) = run(200, true, &chunks(&["{\"a\":1}\n{\"b\":"]));
    assert_eq!(r, Ok(()));
    assert_eq!(values.len(), 1);
}

#[test]
fn value_spread_over_lines() {
    let (r, values) = run(200, true, &chunks(&["{\n\"a\":\n1\n}\n{\"b\":2}\n"]));
    assert_eq!(r, Ok(()));
    assert_eq!(values.len(), 2);
    assert_eq!(value(&values[0]), value("{\"a\":1}"));
}

#[test]
fn stop_ends_the_stream() {
    let body = "{\"created_at\":\"t\",\"message\":{\"role\":\"assistant\",\"content\":\"a\"},\"done\":false}\n{\"oops\":1}\n{\"created_at\":\"t\",\"message\":{\"role\":\"assistant\",\"content\":\"b\"},\"done\":true}\n";
    let mut group = (VecAccumulator::new(Vec::new()), ChatAccumulator::new(String::new()));
    let r = accumulate_chunks(200, true, &vec![body.as_bytes().to_vec()], &mut group);
    assert_eq!(r, Ok(()));
    assert_eq!(group.0.output.len(), 2);
    assert_eq!(group.1.rejected(), Some("{\"oops\":1}".to_string()));
    assert_eq!(group.1.output(), "a");
}

#[test]
fn halted_decoder_reads_nothing_more() {
    let mut decoder = Decoder::new(200, true);
    let mut group = (VecAccumulator::new(Vec::new()), ChatAccumulator::new(String::new()));
    assert_eq!(decoder.feed(b"[1]\n", &mut group), Ok(ControlFlow::Break(())));
    assert!(decoder.is_halted());
    assert_eq!(decoder.feed(b"[2]\n", &mut group), Ok(ControlFlow::Break(())));
    assert_eq!(decoder.finish(&mut group), Ok(()));
    assert_eq!(group.0.output, vec!["[1]".to_string()]);
}

#[test]
fn fan_out_gives_every_member_the_value() {
    let mut a = VecAccumulator::new(Vec::new());
    let mut b = ChatAccumulator::new(String::new());
    assert_eq!(fan_out(&mut b, &mut a, "{\"x\":1}".to_string()), ControlFlow::Break(()));
    assert_eq!(a.output, vec!["{\"x\":1}".to_string()]);
    let mut triple = (VecAccumulator::new(Vec::new()), JsonAccumulator::new(String::new()), VecAccumulator::new(Vec::new()));
    assert_eq!(triple.accumulate("true".to_string()), ControlFlow::Continue(()));
    assert_eq!(triple.0.output, triple.2.output);
    assert_eq!(triple.1.output(), "true\n");
}

#[test]
fn borrowed_members_compose() {
    let mut a = VecAccumulator::new(Vec::new());
    let mut b = VecAccumulator::new(vec!["old".to_string()]);
    {
        let mut group = (&mut a, &mut b);
        assert_eq!(group.accumulate("1".to_string()), ControlFlow::Continue(()));
    }
    assert_eq!(a.output, vec!["1".to_string()]);
    assert_eq!(b.output, vec!["old".to_string(), "1".to_string()]);
}

#[test]
fn values_come_in_compact_form() {
    let (r, values) = run(200, true, &chunks(&["{ \"a\" : [ 1 , 2 ] }\n"]));
    assert_eq!(r, Ok(()));
    assert_eq!(values, vec!["{\"a\":[1,2]}".to_string()]);
    let (r, values) = run(200, false, &chunks(&[" [ true ,null ] "]));
    assert_eq!(r, Ok(()));
    assert_eq!(values, vec!["[true,null]".to_string()]);
}
