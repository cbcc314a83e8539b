//! Chat messages, read from and written as JSON, and the accumulator that renders a chat reply.

use std::ops::ControlFlow;
use vstd::prelude::*;

use crate::accumulator::{Accumulator, Console, Output};
use crate::json::{
    array_of, array_text, bool_of, elements_of, json_bool, json_elements, json_member,
    json_quoted, json_string, member, object_text, string_array_of, string_array_text, string_of,
    ObjectWriter,
};
use crate::text::{all_white, is_all_white, same_text};

verus! {

/// One message of a conversation.
#[derive(Clone, Debug)]
pub struct ChatMessage {
    /// Who wrote it: "user" or "assistant".
    pub role: String,
    pub content: String,
    /// Images, each encoded in base64.
    pub images: Option<Vec<String>>,
    /// Tool calls, each the compact text of a JSON value.
    pub tool_calls: Option<Vec<String>>,
}

/// A message as the contracts see it.
pub struct MessageModel {
    pub role: Seq<char>,
    pub content: Seq<char>,
    pub images: Option<Seq<Seq<char>>>,
    pub tool_calls: Option<Seq<Seq<char>>>,
}

/// The texts held by a list of strings.
pub open spec fn texts(v: Seq<String>) -> Seq<Seq<char>> {
    v.map_values(|s: String| s@)
}

/// The texts held by an optional list of strings.
pub open spec fn optional_texts(v: Option<Vec<String>>) -> Option<Seq<Seq<char>>> {
    match v {
        Some(v) => Some(texts(v@)),
        None => None,
    }
}

impl View for ChatMessage {
    type V = MessageModel;

    open spec fn view(&self) -> MessageModel {
        MessageModel {
            role: self.role@,
            content: self.content@,
            images: optional_texts(self.images),
            tool_calls: optional_texts(self.tool_calls),
        }
    }
}

/// The string member `key` of the object written `t`.
pub open spec fn text_member(t: Seq<char>, key: Seq<char>) -> Option<Seq<char>> {
    match json_member(t, key) {
        Some(m) => json_string(m),
        None => None,
    }
}

/// The contents of the JSON strings written `es`, where each of them is a string.
pub open spec fn strings_of(es: Seq<Seq<char>>) -> Option<Seq<Seq<char>>>
    decreases es.len(),
{
    if es.len() == 0 {
        Some(Seq::empty())
    } else {
        match (strings_of(es.drop_last()), json_string(es.last())) {
            (Some(ss), Some(s)) => Some(ss.push(s)),
            _ => None,
        }
    }
}

/// An optional member `key` of the object written `t` that holds an array: `Some(None)` where it
/// is absent or null, `Some(Some(es))` where it is an array with elements `es` (each read as a
/// string where `strings` is set), and `None` where it is something else.
pub open spec fn list_member(t: Seq<char>, key: Seq<char>, strings: bool) -> Option<
    Option<Seq<Seq<char>>>,
> {
    match json_member(t, key) {
        None => Some(None),
        Some(m) => if m == "null"@ {
            Some(None)
        } else {
            match json_elements(m) {
                Some(es) => if strings {
                    match strings_of(es) {
                        Some(ss) => Some(Some(ss)),
                        None => None,
                    }
                } else {
                    Some(Some(es))
                },
                None => None,
            }
        },
    }
}

/// The message that the JSON object written `t` holds: string members `role` and `content`,
/// optional `images` (strings) and `tool_calls` (any values); other members are ignored.
pub open spec fn message_of(t: Seq<char>) -> Option<MessageModel> {
    match (
        text_member(t, "role"@),
        text_member(t, "content"@),
        list_member(t, "images"@, true),
        list_member(t, "tool_calls"@, false),
    ) {
        (Some(role), Some(content), Some(images), Some(tool_calls)) => Some(
            MessageModel { role, content, images, tool_calls },
        ),
        _ => None,
    }
}

/// The members of a message as written: `role`, `content`, then `images` and `tool_calls`
/// where present.
pub open spec fn message_members(m: MessageModel) -> Seq<(Seq<char>, Seq<char>)> {
    let head = seq![("role"@, json_quoted(m.role)), ("content"@, json_quoted(m.content))];
    let with_images = match m.images {
        Some(i) => head.push(("images"@, string_array_text(i))),
        None => head,
    };
    match m.tool_calls {
        Some(c) => with_images.push(("tool_calls"@, array_text(c))),
        None => with_images,
    }
}

/// The compact JSON text of message `m`.
pub open spec fn message_text(m: MessageModel) -> Seq<char> {
    object_text(message_members(m))
}

/// The string member `key` of the object written `t`.
fn text_member_of(t: &str, key: &str) -> (r: Option<String>)
    ensures
        r matches Some(s) ==> text_member(t@, key@) == Some(s@),
        r is None ==> text_member(t@, key@) is None,
{
    match member(t, key) {
        Some(m) => string_of(m.as_str()),
        None => None,
    }
}

/// A prefix that holds a non-string spoils the whole list.
proof fn lemma_strings_of_prefix(es: Seq<Seq<char>>, n: int)
    requires
        0 <= n <= es.len(),
        strings_of(es.take(n)) is None,
    ensures
        strings_of(es) is None,
    decreases es.len(),
{
    if n == es.len() {
        assert(es.take(n) == es);
    } else {
        assert(es.drop_last().take(n) == es.take(n));
        lemma_strings_of_prefix(es.drop_last(), n);
    }
}

/// The contents of the JSON strings written `es`, where each of them is a string.
fn strings_in(es: &Vec<String>) -> (r: Option<Vec<String>>)
    ensures
        r matches Some(v) ==> strings_of(texts(es@)) == Some(texts(v@)),
        r is None ==> strings_of(texts(es@)) is None,
{
    let mut out: Vec<String> = Vec::new();
    let mut i: usize = 0;
    while i < es.len()
        invariant
            0 <= i <= es.len(),
            strings_of(texts(es@).take(i as int)) == Some(texts(out@)),
        decreases es.len() - i,
    {
        proof {
            assert(texts(es@).take(i + 1).drop_last() == texts(es@).take(i as int));
        }
        match string_of(es[i].as_str()) {
            Some(s) => {
                let ghost prev = out@;
                out.push(s);
                proof {
                    assert(texts(out@) == texts(prev).push(out@.last()@));
                }
            },
            None => {
                proof {
                    lemma_strings_of_prefix(texts(es@), i + 1);
                }
                return None;
            },
        }
        i = i + 1;
    }
    proof {
        assert(texts(es@).take(es.len() as int) == texts(es@));
    }
    Some(out)
}

/// A copy of an optional list of strings.
fn copy_texts(v: &Option<Vec<String>>) -> (r: Option<Vec<String>>)
    ensures
        optional_texts(r) == optional_texts(*v),
{
    match v {
        None => None,
        Some(items) => {
            let mut out: Vec<String> = Vec::new();
            let mut i: usize = 0;
            while i < items.len()
                invariant
                    0 <= i <= items.len(),
                    texts(out@) == texts(items@).take(i as int),
                decreases items.len() - i,
            {
                let ghost prev = out@;
                out.push(items[i].clone());
                proof {
                    assert(texts(out@) == texts(prev).push(out@.last()@));
                    assert(texts(items@).take(i + 1) == texts(items@).take(i as int).push(
                        items@[i as int]@,
                    ));
                }
                i = i + 1;
            }
            proof {
                assert(texts(items@).take(items.len() as int) == texts(items@));
            }
            Some(out)
        },
    }
}

/// The optional list member `key` of the object written `t`, as `list_member` reads it.
fn list_member_of(t: &str, key: &str, strings: bool) -> (r: Option<Option<Vec<String>>>)
    ensures
        r matches Some(v) ==> list_member(t@, key@, strings) == Some(optional_texts(v)),
        r is None ==> list_member(t@, key@, strings) is None,
{
    match member(t, key) {
        None => Some(None),
        Some(m) => {
            if same_text(m.as_str(), "null") {
                return Some(None);
            }
            match elements_of(m.as_str()) {
                Some(es) => if strings {
                    match strings_in(&es) {
                        Some(ss) => Some(Some(ss)),
                        None => None,
                    }
                } else {
                    Some(Some(es))
                },
                None => None,
            }
        },
    }
}

impl ChatMessage {
    /// A message of `role` with `content`, and no images or tool calls.
    pub fn new(role: &str, content: &str) -> (r: ChatMessage)
        ensures
            r@ == (MessageModel { role: role@, content: content@, images: None, tool_calls: None }),
    {
        ChatMessage {
            role: role.to_owned(),
            content: content.to_owned(),
            images: None,
            tool_calls: None,
        }
    }

    /// A copy of the message.
    pub fn copy(&self) -> (r: ChatMessage)
        ensures
            r@ == self@,
    {
        ChatMessage {
            role: self.role.clone(),
            content: self.content.clone(),
            images: copy_texts(&self.images),
            tool_calls: copy_texts(&self.tool_calls),
        }
    }

    /// Reads the JSON object written `text` as a message.
    pub fn from_json(text: &str) -> (r: Option<ChatMessage>)
        ensures
            r matches Some(m) ==> message_of(text@) == Some(m@),
            r is None ==> message_of(text@) is None,
    {
        let role = text_member_of(text, "role");
        let content = text_member_of(text, "content");
        let images = list_member_of(text, "images", true);
        let tool_calls = list_member_of(text, "tool_calls", false);
        match (role, content, images, tool_calls) {
            (Some(role), Some(content), Some(images), Some(tool_calls)) => Some(
                ChatMessage { role, content, images, tool_calls },
            ),
            _ => None,
        }
    }

    /// The message as compact JSON text.
    pub fn to_json(&self) -> (r: String)
        ensures
            r@ == message_text(self@),
    {
        let mut w = ObjectWriter::new();
        w.add_string("role", self.role.as_str());
        w.add_string("content", self.content.as_str());
        match &self.images {
            Some(images) => {
                let a = string_array_of(images);
                w.add("images", a.as_str());
            },
            None => {},
        }
        match &self.tool_calls {
            Some(calls) => {
                let a = array_of(calls);
                w.add("tool_calls", a.as_str());
            },
            None => {},
        }
        proof {
            assert(w.members() =~= message_members(self@));
        }
        w.close()
    }
}

/// One fragment of a streamed chat reply.
#[derive(Clone, Debug)]
pub struct ChatResponse {
    pub created_at: String,
    pub message: ChatMessage,
    /// Whether this is the last fragment.
    pub done: bool,
}

/// A chat reply fragment as the contracts see it.
pub struct ResponseModel {
    pub created_at: Seq<char>,
    pub message: MessageModel,
    pub done: bool,
}

impl View for ChatResponse {
    type V = ResponseModel;

    open spec fn view(&self) -> ResponseModel {
        ResponseModel { created_at: self.created_at@, message: self.message@, done: self.done }
    }
}

/// The chat reply fragment written `t`: an object with a string `created_at`, a message
/// `message` and a boolean `done`; other members are ignored.
pub open spec fn chat_response_of(t: Seq<char>) -> Option<ResponseModel> {
    let done = match json_member(t, "done"@) {
        Some(d) => json_bool(d),
        None => None,
    };
    let message = match json_member(t, "message"@) {
        Some(m) => message_of(m),
        None => None,
    };
    match (text_member(t, "created_at"@), message, done) {
        (Some(created_at), Some(message), Some(done)) => Some(
            ResponseModel { created_at, message, done },
        ),
        _ => None,
    }
}

/// The message of the chat reply fragment written `t`.
pub open spec fn chat_reply_of(t: Seq<char>) -> Option<MessageModel> {
    match chat_response_of(t) {
        Some(r) => Some(r.message),
        None => None,
    }
}

impl ChatResponse {
    /// Reads the JSON value written `text` as a chat reply fragment.
    pub fn from_json(text: &str) -> (r: Option<ChatResponse>)
        ensures
            r matches Some(c) ==> chat_response_of(text@) == Some(c@),
            r is None ==> chat_response_of(text@) is None,
    {
        let created_at = text_member_of(text, "created_at");
        let done = match member(text, "done") {
            Some(d) => bool_of(d.as_str()),
            None => None,
        };
        let message = match member(text, "message") {
            Some(m) => ChatMessage::from_json(m.as_str()),
            None => None,
        };
        match (created_at, message, done) {
            (Some(created_at), Some(message), Some(done)) => Some(
                ChatResponse { created_at, message, done },
            ),
            _ => None,
        }
    }
}

/// What rendering a chat reply has produced.
pub struct Rendering {
    /// The text written.
    pub text: Seq<char>,
    /// Whether content other than white space has been written.
    pub started: bool,
    /// The latest fragment, where it was no chat reply.
    pub rejected: Option<Seq<char>>,
}

/// Renders one fragment: a fragment that is no chat reply is rejected; the content of a reply
/// is written, except white space before the first content that is not.
pub open spec fn render_step(r: Rendering, v: Seq<char>) -> Rendering {
    match chat_reply_of(v) {
        None => Rendering { text: r.text, started: r.started, rejected: Some(v) },
        Some(m) => if r.started || !is_all_white(m.content) {
            Rendering { text: r.text + m.content, started: true, rejected: None }
        } else {
            Rendering { text: r.text, started: r.started, rejected: None }
        },
    }
}

/// Renders the fragments `vs` in order.
pub open spec fn render(vs: Seq<Seq<char>>) -> Rendering
    decreases vs.len(),
{
    if vs.len() == 0 {
        Rendering { text: Seq::empty(), started: false, rejected: None }
    } else {
        render_step(render(vs.drop_last()), vs.last())
    }
}

/// The answers of a chat-rendering accumulator to the fragments `vs`: it asks to stop at each
/// fragment that is no chat reply.
pub open spec fn chat_answers(vs: Seq<Seq<char>>) -> Seq<bool>
    decreases vs.len(),
{
    if vs.len() == 0 {
        Seq::empty()
    } else {
        chat_answers(vs.drop_last()).push(render(vs).rejected is Some)
    }
}

/// Writes the content of each chat reply to an output as it comes, and asks to stop at a
/// fragment that is no chat reply.
pub struct ChatAccumulator<W: Output> {
    output: W,
    started: bool,
    rejected: Option<String>,
    origin: Ghost<Seq<char>>,
    history: Ghost<Seq<Seq<char>>>,
}

impl<W: Output> ChatAccumulator<W> {
    /// An accumulator that writes the replies' content to `output`.
    pub fn new(output: W) -> (r: Self)
        ensures
            r.inv(),
            r.received() == Seq::<Seq<char>>::empty(),
            r.origin() == output.written(),
    {
        let ghost origin = output.written();
        ChatAccumulator {
            output,
            started: false,
            rejected: None,
            origin: Ghost(origin),
            history: Ghost(Seq::empty()),
        }
    }

    /// What the output held before the first fragment.
    pub closed spec fn origin(&self) -> Seq<char> {
        self.origin@
    }

    /// The output written to.
    pub fn output(&self) -> (r: &W)
        requires
            self.inv(),
        ensures
            r.written() == self.origin() + render(self.received()).text,
    {
        &self.output
    }

    /// Gives the output back.
    pub fn into_output(self) -> (r: W)
        requires
            self.inv(),
        ensures
            r.written() == self.origin() + render(self.received()).text,
    {
        self.output
    }

    /// The latest fragment, where it was no chat reply.
    pub fn rejected(&self) -> (r: Option<String>)
        requires
            self.inv(),
        ensures
            r matches Some(s) ==> render(self.received()).rejected == Some(s@),
            r is None ==> render(self.received()).rejected is None,
    {
        self.rejected.clone()
    }
}

impl Default for ChatAccumulator<Console> {
    /// A chat-rendering accumulator that writes to standard output.
    fn default() -> (r: Self)
        ensures
            r.inv(),
            r.received() == Seq::<Seq<char>>::empty(),
            r.origin() == Seq::<char>::empty(),
    {
        ChatAccumulator::new(Console::new())
    }
}

impl<W: Output> Accumulator for ChatAccumulator<W> {
    type Settings = Seq<char>;

    open spec fn answers(&self) -> Seq<bool> {
        chat_answers(self.received())
    }

    open spec fn settings(&self) -> Seq<char> {
        self.origin()
    }

    closed spec fn inv(&self) -> bool {
        let r = render(self.history@);
        &&& self.output.written() == self.origin@ + r.text
        &&& self.started == r.started
        &&& match self.rejected {
            Some(s) => r.rejected == Some(s@),
            None => r.rejected is None,
        }
    }

    closed spec fn received(&self) -> Seq<Seq<char>> {
        self.history@
    }

    open spec fn stopped(&self) -> bool {
        render(self.received()).rejected is Some
    }

    fn accumulate(&mut self, message: String) -> (r: ControlFlow<()>) {
        let ghost before = self.history@;
        let reply = ChatResponse::from_json(message.as_str());
        self.history = Ghost(self.history@.push(message@));
        assert(self.history@.drop_last() == before);
        match reply {
            None => {
                self.rejected = Some(message);
                ControlFlow::Break(())
            },
            Some(c) => {
                let m = c.message;
                if self.started || !all_white(m.content.as_str()) {
                    self.output.write_text(m.content.as_str());
                    self.started = true;
                    assert(self.output.written() == self.origin@ + render(self.history@).text);
                }
                self.rejected = None;
                ControlFlow::Continue(())
            },
        }
    }
}

} // verus!
