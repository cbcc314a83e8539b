//! A conversation between a user and an assistant, and the decisions of the interactive shell
//! that grows it: which lines are commands, what a turn sends and records, and how the
//! fragments of a reply fold into one assistant message.

use std::ops::ControlFlow;
use vstd::prelude::*;

use crate::accumulator::{lemma_never_push, never, Accumulator};
use crate::json::{
    blank, is_blank, json_member, json_of_bytes, member, parse_json, string_array_of,
    string_array_text,
};
use crate::message::message_of;
use crate::stream::LINE_FEED;
use crate::message::{message_text, text_member, texts, ChatMessage, MessageModel};
use crate::request::{message_models, ChatRequest};
use crate::text::{is_white, is_white_char, same_text};
use vstd::string::StrSliceExecFns;

verus! {

/// Options of an interactive chat session.
#[derive(Clone, Debug, PartialEq, Eq)]
pub struct ConversationOptions {
    /// The model to chat with.
    pub model: String,
    /// A system prompt to begin with.
    pub system: Option<String>,
    /// The file that the session's messages are logged to.
    pub log: Option<String>,
    /// The file that the shell keeps its line history in.
    pub histfile: Option<String>,
    /// Whether a line equal to the one before is left out of the history.
    pub history_ignore_dups: bool,
    /// Whether a line that starts with a space is left out of the history.
    pub history_ignore_space: bool,
    /// The prompt.
    pub ps1: String,
    /// A log whose messages the conversation starts with.
    pub load: Option<String>,
}

impl Default for ConversationOptions {
    fn default() -> (r: ConversationOptions)
        ensures
            r.model@ == "mistral-nemo"@,
            r.ps1@ == "yammer> "@,
            r.system is None && r.log is None && r.histfile is None && r.load is None,
            !r.history_ignore_dups && !r.history_ignore_space,
    {
        ConversationOptions {
            model: String::from_str("mistral-nemo"),
            system: None,
            log: None,
            histfile: None,
            history_ignore_dups: false,
            history_ignore_space: false,
            ps1: String::from_str("yammer> "),
            load: None,
        }
    }
}

/// The text that fragment `p` of a reply contributes: the content of its message (a chat
/// reply), else its string member `response` (a generated reply), else nothing.
pub open spec fn fragment_content(p: Seq<char>) -> Seq<char> {
    let chat = match json_member(p, "message"@) {
        Some(m) => text_member(m, "content"@),
        None => None,
    };
    match chat {
        Some(c) => c,
        None => match text_member(p, "response"@) {
            Some(r) => r,
            None => Seq::empty(),
        },
    }
}

/// The contributions of the fragments `ps`, in order.
pub open spec fn folded_content(ps: Seq<Seq<char>>) -> Seq<char>
    decreases ps.len(),
{
    if ps.len() == 0 {
        Seq::empty()
    } else {
        folded_content(ps.drop_last()) + fragment_content(ps.last())
    }
}

/// The assistant message with `content`.
pub open spec fn assistant_message(content: Seq<char>) -> MessageModel {
    MessageModel { role: "assistant"@, content, images: None, tool_calls: None }
}

/// The user message with `content`.
pub open spec fn user_message(content: Seq<char>) -> MessageModel {
    MessageModel { role: "user"@, content, images: None, tool_calls: None }
}

/// Fragments that contribute nothing fold into nothing, so they add no message.
pub proof fn folding_without_content_adds_nothing(ps: Seq<Seq<char>>)
    requires
        forall|i: int| 0 <= i < ps.len() ==> fragment_content(#[trigger] ps[i]).len() == 0,
    ensures
        folded_content(ps).len() == 0,
    decreases ps.len(),
{
    if ps.len() > 0 {
        assert forall|i: int| 0 <= i < ps.drop_last().len() implies fragment_content(
            #[trigger] ps.drop_last()[i],
        ).len() == 0 by {
            assert(ps.drop_last()[i] == ps[i]);
        }
        folding_without_content_adds_nothing(ps.drop_last());
        assert(fragment_content(ps[ps.len() - 1]).len() == 0);
    }
}

/// The text that fragment `p` contributes.
fn content_of(p: &str) -> (r: String)
    ensures
        r@ == fragment_content(p@),
{
    let chat = match member(p, "message") {
        Some(m) => match member(m.as_str(), "content") {
            Some(c) => crate::json::string_of(c.as_str()),
            None => None,
        },
        None => None,
    };
    match chat {
        Some(c) => c,
        None => match member(p, "response") {
            Some(r) => match crate::json::string_of(r.as_str()) {
                Some(s) => s,
                None => String::new(),
            },
            None => String::new(),
        },
    }
}

/// Gathers the fragments of a reply, to be folded into the conversation once the reply is over.
pub struct ConversationAccumulator {
    pieces: Vec<String>,
}

impl ConversationAccumulator {
    /// The fragments gathered.
    pub fn pieces(&self) -> (r: &Vec<String>)
        ensures
            texts(r@) == self.received(),
    {
        &self.pieces
    }
}

impl Accumulator for ConversationAccumulator {
    type Settings = ();

    open spec fn answers(&self) -> Seq<bool> {
        never(self.received().len())
    }

    open spec fn settings(&self) -> () {
        ()
    }

    open spec fn inv(&self) -> bool {
        true
    }

    closed spec fn received(&self) -> Seq<Seq<char>> {
        texts(self.pieces@)
    }

    open spec fn stopped(&self) -> bool {
        false
    }

    fn accumulate(&mut self, message: String) -> (r: ControlFlow<()>) {
        let ghost before = self.pieces@;
        self.pieces.push(message);
        assert(texts(self.pieces@) == texts(before).push(message@));
        proof {
            lemma_never_push(texts(before).len());
        }
        ControlFlow::Continue(())
    }
}

/// What the shell read.
pub enum Input {
    /// A line.
    Line(String),
    /// The user interrupted the line.
    Interrupted,
    /// The input ended.
    Eof,
    /// Reading failed otherwise.
    Failed,
}

/// What the shell does next.
pub enum Action {
    /// End the session.
    Exit,
    /// Read the next line.
    Prompt,
    /// Report a command that the shell does not know, and read the next line.
    Unknown(String),
    /// Record `log` (the user's message, one log line) and then send `request`.
    Send { log: String, request: ChatRequest },
}

/// A line that is a shell command: its first character that is not white space is `/`.
pub open spec fn is_command(line: Seq<char>) -> bool {
    exists|i: int|
        0 <= i < line.len() && line[i] == '/' && forall|j: int|
            0 <= j < i ==> is_white(#[trigger] line[j])
}

/// Whether `line` is a shell command.
pub fn command_line(line: &str) -> (r: bool)
    ensures
        r == is_command(line@),
{
    let n = line.unicode_len();
    let mut i: usize = 0;
    while i < n
        invariant
            0 <= i <= n,
            n == line@.len(),
            forall|j: int| 0 <= j < i ==> is_white(#[trigger] line@[j]),
        decreases n - i,
    {
        let c = line.get_char(i);
        if !is_white_char(c) {
            proof {
                if c != '/' {
                    assert forall|k: int| 0 <= k < line@.len() && line@[k] == '/' implies !(
                    forall|j: int| 0 <= j < k ==> is_white(#[trigger] line@[j])) by {
                        if k > i {
                            assert(!is_white(line@[i as int]));
                        } else if k < i {
                            assert(is_white(line@[k]));
                        }
                    }
                }
            }
            return c == '/';
        }
        i = i + 1;
    }
    proof {
        assert forall|k: int| 0 <= k < line@.len() && line@[k] == '/' implies !(forall|j: int|
            0 <= j < k ==> is_white(#[trigger] line@[j])) by {
            assert(is_white(line@[k]));
        }
    }
    false
}

/// A log line: the compact JSON text of message `m` and a line feed.
pub open spec fn log_line(m: MessageModel) -> Seq<char> {
    message_text(m) + seq!['\n']
}

/// The log line of `m`.
pub fn log_entry(m: &ChatMessage) -> (r: String)
    ensures
        r@ == log_line(m@),
{
    let mut t = m.to_json();
    t.append("\n");
    proof {
        reveal_strlit("\n");
        assert("\n"@ =~= seq!['\n']);
    }
    t
}

/// The first line of a log: the arguments that the session was started with, as a JSON array
/// of strings, and a line feed.
pub fn arguments_entry(args: &Vec<String>) -> (r: String)
    ensures
        r@ == string_array_text(texts(args@)) + seq!['\n'],
{
    let mut t = string_array_of(args);
    t.append("\n");
    proof {
        reveal_strlit("\n");
        assert("\n"@ =~= seq!['\n']);
    }
    t
}

/// A conversation: its messages, in order.
#[derive(Debug)]
pub struct Conversation {
    messages: Vec<ChatMessage>,
}

impl View for Conversation {
    type V = Seq<MessageModel>;

    closed spec fn view(&self) -> Seq<MessageModel> {
        message_models(self.messages@)
    }
}

impl Conversation {
    /// An empty conversation.
    pub fn new() -> (r: Conversation)
        ensures
            r@ == Seq::<MessageModel>::empty(),
    {
        Conversation { messages: Vec::new() }
    }

    /// A copy of the conversation.
    pub fn copy(&self) -> (r: Conversation)
        ensures
            r@ == self@,
    {
        let mut messages: Vec<ChatMessage> = Vec::new();
        let mut i: usize = 0;
        while i < self.messages.len()
            invariant
                0 <= i <= self.messages.len(),
                message_models(messages@) == message_models(self.messages@).take(i as int),
            decreases self.messages.len() - i,
        {
            let ghost prev = messages@;
            messages.push(self.messages[i].copy());
            proof {
                assert(message_models(messages@) == message_models(prev).push(messages@.last()@));
                assert(message_models(self.messages@).take(i + 1) == message_models(
                    self.messages@,
                ).take(i as int).push(self.messages@[i as int]@));
            }
            i = i + 1;
        }
        proof {
            assert(message_models(self.messages@).take(self.messages.len() as int)
                == message_models(self.messages@));
        }
        Conversation { messages }
    }

    /// Adds `message` at the end.
    pub fn push(&mut self, message: ChatMessage)
        ensures
            final(self)@ == old(self)@.push(message@),
    {
        self.messages.push(message);
        proof {
            assert(message_models(self.messages@) == old(self)@.push(message@));
        }
    }

    /// The messages.
    pub fn messages(&self) -> (r: &[ChatMessage])
        ensures
            message_models(r@) == self@,
    {
        self.messages.as_slice()
    }

    /// Keeps at most the first `index` messages.
    pub fn truncate(&mut self, index: usize)
        ensures
            final(self)@ == if index < old(self)@.len() {
                old(self)@.take(index as int)
            } else {
                old(self)@
            },
    {
        self.messages.truncate(index);
        proof {
            if index < old(self)@.len() {
                assert(message_models(self.messages@) == old(self)@.take(index as int));
            } else {
                assert(self.messages@ == old(self).messages@);
            }
        }
    }

    /// Folds the fragments of a reply into one assistant message and adds it; a reply without
    /// content adds nothing.
    pub fn add_assistant_response(&mut self, pieces: Vec<String>)
        ensures
            final(self)@ == if folded_content(texts(pieces@)).len() > 0 {
                old(self)@.push(assistant_message(folded_content(texts(pieces@))))
            } else {
                old(self)@
            },
    {
        let mut content = String::new();
        let mut i: usize = 0;
        while i < pieces.len()
            invariant
                0 <= i <= pieces.len(),
                content@ == folded_content(texts(pieces@).take(i as int)),
            decreases pieces.len() - i,
        {
            let c = content_of(pieces[i].as_str());
            content.append(c.as_str());
            proof {
                assert(texts(pieces@).take(i + 1).drop_last() == texts(pieces@).take(i as int));
            }
            i = i + 1;
        }
        proof {
            assert(texts(pieces@).take(pieces.len() as int) == texts(pieces@));
        }
        if content.unicode_len() > 0 {
            self.push(
                ChatMessage {
                    role: String::from_str("assistant"),
                    content,
                    images: None,
                    tool_calls: None,
                },
            );
        }
    }

    /// A fresh gatherer for the fragments of the next reply.
    pub fn accumulator(&self) -> (r: ConversationAccumulator)
        ensures
            r.received() == Seq::<Seq<char>>::empty(),
    {
        let r = ConversationAccumulator { pieces: Vec::new() };
        proof {
            assert(texts(r.pieces@) =~= Seq::<Seq<char>>::empty());
        }
        r
    }

    /// Ends a turn: folds the gathered reply into the conversation, and gives the log line of
    /// the assistant message where one was added.
    pub fn finish_turn(&mut self, acc: ConversationAccumulator) -> (r: Option<String>)
        ensures
            final(self)@ == if folded_content(acc.received()).len() > 0 {
                old(self)@.push(assistant_message(folded_content(acc.received())))
            } else {
                old(self)@
            },
            r matches Some(l) ==> final(self)@.len() == old(self)@.len() + 1 && l@ == log_line(
                final(self)@.last(),
            ),
            r is None <==> final(self)@ == old(self)@,
    {
        let before = self.messages.len();
        self.add_assistant_response(acc.pieces);
        if self.messages.len() > before {
            let last = self.messages.len() - 1;
            proof {
                assert(message_models(self.messages@)[last as int] == self.messages@[last as int]@);
            }
            Some(log_entry(&self.messages[last]))
        } else {
            None
        }
    }

    /// A streamed chat request to `model` with the conversation's messages.
    pub fn request(self, model: &str) -> (r: ChatRequest)
        ensures
            r.model@ == model@,
            message_models(r.messages@) == self@,
            r.stream == Some(true),
            r.tools is None && r.format is None && r.keep_alive is None,
    {
        ChatRequest {
            model: model.to_owned(),
            messages: self.messages,
            tools: None,
            format: None,
            stream: Some(true),
            keep_alive: None,
        }
    }

    /// Decides what the shell does with what it read.  A line that is a command is run as one
    /// and never reaches the conversation; any other line is added as the user's message, and the
    /// turn records it and then sends the conversation to `model`.  An interrupted or failed
    /// read changes nothing, and the end of the input ends the session.
    pub fn on_input(&mut self, input: Input, model: &str) -> (r: Action)
        ensures
            match input {
                Input::Eof => (r matches Action::Exit) && final(self)@ == old(self)@,
                Input::Interrupted | Input::Failed => {
                    (r matches Action::Prompt) && final(self)@ == old(self)@
                },
                Input::Line(l) => if is_command(l@) {
                    &&& final(self)@ == old(self)@
                    &&& if l@ == "/exit"@ {
                        r matches Action::Exit
                    } else {
                        r matches Action::Unknown(u) && u@ == l@
                    }
                } else {
                    &&& final(self)@ == old(self)@.push(user_message(l@))
                    &&& r matches Action::Send { log, request } && {
                        &&& log@ == log_line(user_message(l@))
                        &&& request.model@ == model@
                        &&& message_models(request.messages@) == final(self)@
                        &&& request.stream == Some(true)
                        &&& request.tools is None && request.format is None
                        &&& request.keep_alive is None
                    }
                },
            },
    {
        match input {
            Input::Eof => Action::Exit,
            Input::Interrupted | Input::Failed => Action::Prompt,
            Input::Line(line) => {
                if command_line(line.as_str()) {
                    let flow = self.command(line.as_str());
                    if matches!(flow, ControlFlow::Break(_)) {
                        Action::Exit
                    } else {
                        Action::Unknown(line)
                    }
                } else {
                    let message = ChatMessage {
                        role: String::from_str("user"),
                        content: line,
                        images: None,
                        tool_calls: None,
                    };
                    let log = log_entry(&message);
                    self.push(message);
                    let request = self.copy().request(model);
                    Action::Send { log, request }
                }
            },
        }
    }

    /// Runs a shell command: `/exit` ends the session; any other asks to be reported.
    pub fn command(&mut self, line: &str) -> (r: ControlFlow<()>)
        ensures
            r is Break <==> line@ == "/exit"@,
            final(self)@ == old(self)@,
    {
        if same_text(line, "/exit") {
            ControlFlow::Break(())
        } else {
            ControlFlow::Continue(())
        }
    }
}

/// The message that a log line holds, where it holds one.
pub open spec fn line_message(line: Seq<u8>) -> Option<MessageModel> {
    match json_of_bytes(line) {
        Some(t) => message_of(t),
        None => None,
    }
}

/// `ms` with the message of `line` added: blank lines and lines that hold no message are
/// dropped.
pub open spec fn add_line(ms: Seq<MessageModel>, line: Seq<u8>) -> Seq<MessageModel> {
    if is_blank(line) {
        ms
    } else {
        match line_message(line) {
            Some(m) => ms.push(m),
            None => ms,
        }
    }
}

/// Where the reading of a log stands: the current line, and the messages read before it.
pub struct LogScan {
    pub line: Seq<u8>,
    pub messages: Seq<MessageModel>,
}

/// Reads one byte of a log.
pub open spec fn log_step(s: LogScan, b: u8) -> LogScan {
    if b == LINE_FEED {
        LogScan { line: Seq::empty(), messages: add_line(s.messages, s.line) }
    } else {
        LogScan { line: s.line.push(b), messages: s.messages }
    }
}

/// Reads `bytes` of a log one after the other.
pub open spec fn log_scan(s: LogScan, bytes: Seq<u8>) -> LogScan
    decreases bytes.len(),
{
    if bytes.len() == 0 {
        s
    } else {
        log_step(log_scan(s, bytes.drop_last()), bytes.last())
    }
}

/// The messages of the log `bytes`, the last line included where it has no line feed.
pub open spec fn read_log(bytes: Seq<u8>) -> Seq<MessageModel> {
    let s = log_scan(LogScan { line: Seq::empty(), messages: Seq::empty() }, bytes);
    add_line(s.messages, s.line)
}

/// The messages of `lines`, each read on its own.
pub open spec fn line_messages(lines: Seq<Seq<u8>>) -> Seq<MessageModel>
    decreases lines.len(),
{
    if lines.len() == 0 {
        Seq::empty()
    } else {
        add_line(line_messages(lines.drop_last()), lines.last())
    }
}

/// `lines`, each followed by a line feed.
pub open spec fn terminated(lines: Seq<Seq<u8>>) -> Seq<u8>
    decreases lines.len(),
{
    if lines.len() == 0 {
        Seq::empty()
    } else {
        terminated(lines.drop_last()) + lines.last().push(LINE_FEED)
    }
}

proof fn lemma_log_scan_append(s: LogScan, a: Seq<u8>, b: Seq<u8>)
    ensures
        log_scan(log_scan(s, a), b) == log_scan(s, a + b),
    decreases b.len(),
{
    if b.len() == 0 {
        assert(a + b == a);
    } else {
        lemma_log_scan_append(s, a, b.drop_last());
        assert((a + b).drop_last() == a + b.drop_last());
    }
}

proof fn lemma_log_scan_gathers(s: LogScan, bytes: Seq<u8>)
    requires
        forall|i: int| 0 <= i < bytes.len() ==> bytes[i] != LINE_FEED,
    ensures
        log_scan(s, bytes) == (LogScan { line: s.line + bytes, messages: s.messages }),
    decreases bytes.len(),
{
    if bytes.len() == 0 {
        assert(s.line + bytes == s.line);
    } else {
        lemma_log_scan_gathers(s, bytes.drop_last());
        assert(bytes[bytes.len() - 1] != LINE_FEED);
        assert((s.line + bytes.drop_last()).push(bytes.last()) == s.line + bytes);
    }
}

/// Reading a log reads each of its lines on its own: blank lines and lines that hold no message
/// are dropped, and the messages of the others come in order; no line stops the reading.  The
/// last line is read too where no line feed ends it (`last`, empty where one does).
pub proof fn log_lines_read_independently(lines: Seq<Seq<u8>>, last: Seq<u8>)
    requires
        forall|i: int, j: int|
            0 <= i < lines.len() && 0 <= j < lines[i].len() ==> #[trigger] lines[i][j] != LINE_FEED,
        forall|j: int| 0 <= j < last.len() ==> #[trigger] last[j] != LINE_FEED,
    ensures
        read_log(terminated(lines)) == line_messages(lines),
        read_log(terminated(lines) + last) == add_line(line_messages(lines), last),
{
    let s0 = LogScan { line: Seq::empty(), messages: Seq::empty() };
    lemma_log_lines(lines);
    assert(is_blank(Seq::<u8>::empty()));
    lemma_log_scan_append(s0, terminated(lines), last);
    let mid = LogScan { line: Seq::empty(), messages: line_messages(lines) };
    lemma_log_scan_gathers(mid, last);
    assert(Seq::<u8>::empty() + last == last);
}

proof fn lemma_log_lines(lines: Seq<Seq<u8>>)
    requires
        forall|i: int, j: int|
            0 <= i < lines.len() && 0 <= j < lines[i].len() ==> #[trigger] lines[i][j] != LINE_FEED,
    ensures
        log_scan(LogScan { line: Seq::empty(), messages: Seq::empty() }, terminated(lines)) == (
        LogScan { line: Seq::empty(), messages: line_messages(lines) }),
    decreases lines.len(),
{
    let s0 = LogScan { line: Seq::empty(), messages: Seq::empty() };
    if lines.len() > 0 {
        let rest = lines.drop_last();
        let last = lines.last();
        assert forall|i: int, j: int|
            0 <= i < rest.len() && 0 <= j < rest[i].len() implies #[trigger] rest[i][j]
                != LINE_FEED by {
            assert(rest[i] == lines[i]);
        }
        lemma_log_lines(rest);
        let mid = LogScan { line: Seq::empty(), messages: line_messages(rest) };
        lemma_log_scan_append(s0, terminated(rest), last.push(LINE_FEED));
        assert forall|j: int| 0 <= j < last.len() implies last[j] != LINE_FEED by {
            assert(lines[lines.len() - 1][j] != LINE_FEED);
        }
        lemma_log_scan_gathers(mid, last);
        assert(Seq::<u8>::empty() + last == last);
        assert(last.push(LINE_FEED).drop_last() == last);
    }
}

/// Reads the messages of a log, one JSON message per line; blank lines and lines that hold no
/// message are skipped.
pub fn read_messages(content: &[u8]) -> (r: Vec<ChatMessage>)
    ensures
        crate::request::message_models(r@) == read_log(content@),
{
    let ghost s0 = LogScan { line: Seq::empty(), messages: Seq::empty() };
    let mut msgs: Vec<ChatMessage> = Vec::new();
    let mut line: Vec<u8> = Vec::new();
    let mut i: usize = 0;
    proof {
        assert(content@.take(0) == Seq::<u8>::empty());
        assert(message_models(msgs@) =~= Seq::<MessageModel>::empty());
    }
    while i < content.len()
        invariant
            0 <= i <= content.len(),
            log_scan(s0, content@.take(i as int)) == (LogScan {
                line: line@,
                messages: message_models(msgs@),
            }),
        decreases content.len() - i,
    {
        proof {
            assert(content@.take(i + 1).drop_last() == content@.take(i as int));
        }
        let b = content[i];
        if b == LINE_FEED {
            add_message(&mut msgs, line.as_slice());
            line = Vec::new();
        } else {
            line.push(b);
        }
        i = i + 1;
    }
    proof {
        assert(content@.take(content.len() as int) == content@);
    }
    add_message(&mut msgs, line.as_slice());
    msgs
}

/// Adds the message of `line` to `msgs`, where it holds one.
fn add_message(msgs: &mut Vec<ChatMessage>, line: &[u8])
    ensures
        message_models(final(msgs)@) == add_line(message_models(old(msgs)@), line@),
{
    if blank(line) {
        return ;
    }
    match parse_json(line) {
        Some(t) => match ChatMessage::from_json(t.as_str()) {
            Some(m) => {
                msgs.push(m);
                proof {
                    assert(message_models(msgs@) == message_models(old(msgs)@).push(msgs@.last()@));
                }
            },
            None => {},
        },
        None => {},
    }
}

} // verus!
