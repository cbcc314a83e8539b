//! Turning a response body into a sequence of JSON values.
//!
//! A body arrives as chunks of bytes whose boundaries may fall anywhere, inside a value or inside
//! a multi-byte character.  A streamed body is read line by line: at each line feed the bytes
//! gathered since the last value are tried as one JSON value.  A value that is an error object
//! ends the response with the service's message; any other value is handed on; bytes that do not
//! parse yet are kept, and the next line is added to them.  Since that decision is taken at line
//! feeds only, where the chunks were cut makes no difference.  A body that is not streamed is
//! gathered whole and read as one value, and the body of a failed request is gathered as the
//! text of an error.

use std::ops::ControlFlow;
use vstd::prelude::*;
use vstd::utf8::{decode_utf8, valid_utf8};

use crate::accumulator::{
    answered, last_goes_on, lemma_answered_chain, lemma_answered_going_on, lemma_never_answered,
    lemma_answered_few, lemma_never_add, lemma_never_extend, lemma_stop_answered, never,
    Accumulator,
};
use crate::error::Error;
use crate::json::{
    blank, is_blank, json_member, json_of_bytes, json_string, member, parse_json, string_of,
};

verus! {

/// The line feed byte.
pub const LINE_FEED: u8 = 10;

/// The status of a successful request.
pub const STATUS_OK: u16 = 200;

/// The text of the UTF-8 bytes `bytes`, or `None` where they are not UTF-8.
pub open spec fn utf8_decoded(bytes: Seq<u8>) -> Option<Seq<char>> {
    if valid_utf8(bytes) {
        Some(decode_utf8(bytes))
    } else {
        None
    }
}

/// Relies on std::str::from_utf8: the text of the bytes where they are well-formed UTF-8,
/// an error otherwise.
#[verifier::external_body]
fn utf8_text(bytes: &[u8]) -> (r: Option<String>)
    ensures
        r is Some <==> valid_utf8(bytes@),
        r matches Some(t) ==> t@ == decode_utf8(bytes@),
{
    std::str::from_utf8(bytes).ok().map(|t| t.to_string())
}

/// An error object of the service: `{"error": "..."}`.
pub struct ErrorResponse {
    pub error: String,
}

/// The message of the error object written `text`: its member `error` where that is a string.
pub open spec fn service_error(text: Seq<char>) -> Option<Seq<char>> {
    match json_member(text, "error"@) {
        Some(e) => json_string(e),
        None => None,
    }
}

impl ErrorResponse {
    /// Reads the JSON value written `text` as an error object.
    pub fn from_json(text: &str) -> (r: Option<ErrorResponse>)
        ensures
            r matches Some(e) ==> service_error(text@) == Some(e.error@),
            r is None ==> service_error(text@) is None,
    {
        match member(text, "error") {
            Some(e) => match string_of(e.as_str()) {
                Some(s) => Some(ErrorResponse { error: s }),
                None => None,
            },
            None => None,
        }
    }
}

/// Where the reading of a streamed body stands.
pub struct Scan {
    /// The bytes read since the last value, not yet a value.
    pub pending: Seq<u8>,
    /// The values read so far, each in compact text.
    pub values: Seq<Seq<char>>,
    /// The service's message, once an error object was read.
    pub failure: Option<Seq<char>>,
}

/// Nothing read yet.
pub open spec fn start() -> Scan {
    Scan { pending: Seq::empty(), values: Seq::empty(), failure: None }
}

/// Tries the gathered bytes `p` as one value: blank bytes are dropped, an error object fails the
/// scan, another value is added to the values, and anything else is kept for the next line.
pub open spec fn settle(s: Scan, p: Seq<u8>) -> Scan {
    if is_blank(p) {
        Scan { pending: Seq::empty(), values: s.values, failure: s.failure }
    } else {
        match json_of_bytes(p) {
            Some(t) => match service_error(t) {
                Some(m) => Scan { pending: Seq::empty(), values: s.values, failure: Some(m) },
                None => Scan { pending: Seq::empty(), values: s.values.push(t), failure: None },
            },
            None => Scan { pending: p, values: s.values, failure: s.failure },
        }
    }
}

/// Reads one byte: a line feed settles what was gathered; a failed scan reads nothing more.
pub open spec fn scan_byte(s: Scan, b: u8) -> Scan {
    if s.failure is Some {
        s
    } else if b == LINE_FEED {
        settle(s, s.pending.push(b))
    } else {
        Scan { pending: s.pending.push(b), values: s.values, failure: s.failure }
    }
}

/// Reads `bytes` one after the other.
pub open spec fn scan(s: Scan, bytes: Seq<u8>) -> Scan
    decreases bytes.len(),
{
    if bytes.len() == 0 {
        s
    } else {
        scan_byte(scan(s, bytes.drop_last()), bytes.last())
    }
}

/// Reads each of `chunks` in turn.
pub open spec fn scan_chunks(s: Scan, chunks: Seq<Seq<u8>>) -> Scan
    decreases chunks.len(),
{
    if chunks.len() == 0 {
        s
    } else {
        scan(scan_chunks(s, chunks.drop_last()), chunks.last())
    }
}

/// The end of the body settles what is left; bytes that are no value then are dropped.
pub open spec fn conclude(s: Scan) -> Scan {
    if s.failure is Some {
        s
    } else {
        settle(s, s.pending)
    }
}

/// Reading more bytes only adds values, and a failure stays.
pub proof fn lemma_scan_extends(s: Scan, bytes: Seq<u8>)
    ensures
        s.values.is_prefix_of(scan(s, bytes).values),
        s.failure is Some ==> scan(s, bytes) == s,
    decreases bytes.len(),
{
    if bytes.len() > 0 {
        lemma_scan_extends(s, bytes.drop_last());
    }
}

/// Reading `a` and then `b` is reading `a + b`.
pub proof fn lemma_scan_append(s: Scan, a: Seq<u8>, b: Seq<u8>)
    ensures
        scan(scan(s, a), b) == scan(s, a + b),
    decreases b.len(),
{
    if b.len() == 0 {
        assert(a + b == a);
    } else {
        lemma_scan_append(s, a, b.drop_last());
        assert((a + b).drop_last() == a + b.drop_last());
        assert((a + b).last() == b.last());
    }
}

/// Where the chunk boundaries of a streamed body fall does not matter: reading the chunks one
/// by one gives what reading their concatenation at once gives, the same values in the same
/// order and the same failure.
pub proof fn chunking_is_invisible(s: Scan, chunks: Seq<Seq<u8>>)
    ensures
        scan_chunks(s, chunks) == scan(s, chunks.flatten()),
        conclude(scan_chunks(s, chunks)) == conclude(scan(s, chunks.flatten())),
    decreases chunks.len(),
{
    if chunks.len() == 0 {
    } else {
        chunking_is_invisible(s, chunks.drop_last());
        chunks.drop_last().lemma_flatten_push(chunks.last());
        assert(chunks.drop_last().push(chunks.last()) == chunks);
        lemma_scan_append(s, chunks.drop_last().flatten(), chunks.last());
    }
}

/// Bytes without a line feed are only gathered.
proof fn lemma_scan_gathers(s: Scan, bytes: Seq<u8>)
    requires
        s.failure is None,
        forall|i: int| 0 <= i < bytes.len() ==> bytes[i] != LINE_FEED,
    ensures
        scan(s, bytes) == (Scan { pending: s.pending + bytes, values: s.values, failure: None }),
    decreases bytes.len(),
{
    if bytes.len() == 0 {
        assert(s.pending + bytes == s.pending);
    } else {
        lemma_scan_gathers(s, bytes.drop_last());
        assert(bytes[bytes.len() - 1] != LINE_FEED);
        assert((s.pending + bytes.drop_last()).push(bytes.last()) == s.pending + bytes);
    }
}

/// An error object on one line fails a streamed body with the service's message, and no value
/// is handed on, however the line was cut into chunks.
pub proof fn error_object_fails_whole(line: Seq<u8>, chunks: Seq<Seq<u8>>, message: Seq<char>)
    requires
        chunks.flatten() == line,
        forall|i: int| 0 <= i < line.len() - 1 ==> line[i] != LINE_FEED,
        !is_blank(line),
        json_of_bytes(line) matches Some(t) && service_error(t) == Some(message),
    ensures
        conclude(scan_chunks(start(), chunks)).failure == Some(message),
        conclude(scan_chunks(start(), chunks)).values.len() == 0,
{
    chunking_is_invisible(start(), chunks);
    if line.len() > 0 && line.last() == LINE_FEED {
        lemma_scan_gathers(start(), line.drop_last());
        assert(Seq::<u8>::empty() + line.drop_last() == line.drop_last());
        assert(line.drop_last().push(line.last()) == line);
    } else {
        assert forall|i: int| 0 <= i < line.len() implies line[i] != LINE_FEED by {
            if i == line.len() - 1 {
            }
        }
        lemma_scan_gathers(start(), line);
        assert(Seq::<u8>::empty() + line == line);
    }
}

/// Appends the bytes of `chunk` to `v`.
fn append_bytes(v: &mut Vec<u8>, chunk: &[u8])
    ensures
        final(v)@ == old(v)@ + chunk@,
{
    let mut i: usize = 0;
    while i < chunk.len()
        invariant
            0 <= i <= chunk.len(),
            v@ == old(v)@ + chunk@.take(i as int),
        decreases chunk.len() - i,
    {
        v.push(chunk[i]);
        i = i + 1;
        proof {
            assert(chunk@.take(i as int) == chunk@.take(i - 1).push(chunk@[i - 1]));
        }
    }
    proof {
        assert(chunk@.take(chunk.len() as int) == chunk@);
    }
}

/// Settling the end only adds a value, and a failure stays.
pub proof fn lemma_conclude_extends(s: Scan)
    ensures
        s.values.is_prefix_of(conclude(s).values),
        s.failure is Some ==> conclude(s) == s,
{
}

/// The bytes of `chunks`, chunk by chunk.
pub open spec fn chunk_seqs(chunks: Seq<Vec<u8>>) -> Seq<Seq<u8>> {
    chunks.map_values(|c: Vec<u8>| c@)
}

/// What handing the body `body` of a response, read as `framing`, to an accumulator did: `r`
/// was returned, the accumulator's fragments went from `seen_before` to `seen_after`, and its
/// answers from `answers_before` to `answers_after`.  A streamed body hands on its values up
/// to the end, up to an error object, or up to and including the first value at which the
/// accumulator asked to stop, and no further.
pub open spec fn body_delivered(
    framing: Framing,
    body: Seq<u8>,
    r: Result<(), Error>,
    seen_before: Seq<Seq<char>>,
    seen_after: Seq<Seq<char>>,
    answers_before: Seq<bool>,
    answers_after: Seq<bool>,
    stopped: bool,
) -> bool {
    match framing {
        Framing::Refused => {
            &&& seen_after == seen_before
            &&& answers_after == answers_before
            &&& match utf8_decoded(body) {
                Some(t) => r matches Err(Error::Message(m)) && m@ == t,
                None => r == Err::<(), Error>(Error::Utf8),
            }
        },
        Framing::Whole => match json_of_bytes(body) {
            Some(t) => {
                &&& r is Ok
                &&& seen_after == seen_before.push(t)
                &&& answered(answers_before, answers_after, 1)
            },
            None => {
                &&& r == Err::<(), Error>(Error::Json)
                &&& seen_after == seen_before
                &&& answers_after == answers_before
            },
        },
        Framing::Lines => {
            let c = conclude(scan(start(), body));
            let k = seen_after.len() - seen_before.len();
            ||| {
                &&& seen_after == seen_before + c.values
                &&& answered(answers_before, answers_after, c.values.len() as int)
                &&& match c.failure {
                    Some(m) => {
                        &&& r matches Err(Error::Message(e)) && e@ == m
                        &&& last_goes_on(answers_before, answers_after)
                    },
                    None => r is Ok,
                }
            }
            ||| {
                &&& stopped
                &&& r is Ok
                &&& 0 < k <= c.values.len()
                &&& seen_after == seen_before + c.values.take(k)
                &&& answered(answers_before, answers_after, k)
                &&& answers_after.last()
            }
        },
    }
}

/// How a body is read.
#[derive(Clone, Copy, Debug, PartialEq, Eq, Structural)]
pub enum Framing {
    /// Gathered whole and read as one value.
    Whole,
    /// Read as a stream of values, one or more lines each.
    Lines,
    /// The body of a failed request: gathered whole as the text of an error.
    Refused,
}

/// How the body of a response with `status` is read.
pub open spec fn framing_for(status: u16, streaming: bool) -> Framing {
    if status != STATUS_OK {
        Framing::Refused
    } else if streaming {
        Framing::Lines
    } else {
        Framing::Whole
    }
}

/// What feeding `chunk` to a streamed body in state `before` did: `r` was returned, `after` is
/// the new state, the accumulator's fragments went from `seen_before` to `seen_after`, and its
/// answers from `answers_before` to `answers_after`: every value handed on but a last one at
/// which it asked to stop got the answer to go on.
pub open spec fn lines_fed(
    before: Scan,
    chunk: Seq<u8>,
    r: Result<ControlFlow<()>, Error>,
    after: Scan,
    halted: bool,
    seen_before: Seq<Seq<char>>,
    seen_after: Seq<Seq<char>>,
    answers_before: Seq<bool>,
    answers_after: Seq<bool>,
    stopped: bool,
) -> bool {
    let s = scan(before, chunk);
    let fresh = s.values.subrange(before.values.len() as int, s.values.len() as int);
    match r {
        Ok(ControlFlow::Continue(())) => {
            &&& !halted
            &&& s.failure is None
            &&& after == s
            &&& seen_after == seen_before + fresh
            &&& answered(answers_before, answers_after, fresh.len() as int)
            &&& last_goes_on(answers_before, answers_after)
        },
        Ok(ControlFlow::Break(())) => {
            let k = seen_after.len() - seen_before.len();
            &&& halted
            &&& stopped
            &&& 0 < k <= fresh.len()
            &&& seen_after == seen_before + fresh.take(k)
            &&& answered(answers_before, answers_after, k)
            &&& answers_after.last()
        },
        Err(e) => {
            &&& halted
            &&& s.failure is Some
            &&& e matches Error::Message(m) && s.failure == Some(m@)
            &&& seen_after == seen_before + fresh
            &&& answered(answers_before, answers_after, fresh.len() as int)
            &&& last_goes_on(answers_before, answers_after)
        },
    }
}

/// Reads a response body, chunk by chunk, and hands its values to an accumulator.
pub struct Decoder {
    framing: Framing,
    pending: Vec<u8>,
    halted: bool,
    values: Ghost<Seq<Seq<char>>>,
    failure: Ghost<Option<Seq<char>>>,
}

impl Decoder {
    /// How the body is read.
    pub closed spec fn framing(&self) -> Framing {
        self.framing
    }

    /// Where the reading stands: the bytes gathered, the values handed on, and the failure.
    pub closed spec fn model(&self) -> Scan {
        Scan { pending: self.pending@, values: self.values@, failure: self.failure@ }
    }

    /// Whether the reading is over: the accumulator asked to stop, or the service failed it.
    pub closed spec fn halted(&self) -> bool {
        self.halted
    }

    /// A reading that goes on has not failed.
    pub closed spec fn wf(&self) -> bool {
        !self.halted ==> self.failure@ is None
    }

    /// A decoder for the body of a response with `status`, streamed or not.
    pub fn new(status: u16, streaming: bool) -> (r: Decoder)
        ensures
            r.wf(),
            r.framing() == framing_for(status, streaming),
            r.model() == start(),
            !r.halted(),
    {
        let framing = if status != STATUS_OK {
            Framing::Refused
        } else if streaming {
            Framing::Lines
        } else {
            Framing::Whole
        };
        Decoder {
            framing,
            pending: Vec::new(),
            halted: false,
            values: Ghost(Seq::empty()),
            failure: Ghost(None),
        }
    }

    /// Whether the reading is over.
    pub fn is_halted(&self) -> (r: bool)
        ensures
            r == self.halted(),
    {
        self.halted
    }

    /// Reads the next chunk of the body.  A streamed body hands each value that the chunk
    /// completes to `acc` and stops at the first one for which `acc` asks to stop, or at an
    /// error object; other bodies are only gathered.  Once halted, nothing more is read.
    pub fn feed<A: Accumulator>(&mut self, chunk: &[u8], acc: &mut A) -> (r: Result<
        ControlFlow<()>,
        Error,
    >)
        requires
            old(self).wf(),
            (*old(acc)).inv(),
        ensures
            final(self).wf(),
            (*final(acc)).inv(),
            final(self).framing() == old(self).framing(),
            old(self).halted() ==> {
                &&& r == Ok::<ControlFlow<()>, Error>(ControlFlow::Break(()))
                &&& *final(self) == *old(self)
                &&& (*final(acc)).received() == (*old(acc)).received()
                &&& (*final(acc)).answers() == (*old(acc)).answers()
            },
            !old(self).halted() && old(self).framing() != Framing::Lines ==> {
                &&& r == Ok::<ControlFlow<()>, Error>(ControlFlow::Continue(()))
                &&& !final(self).halted()
                &&& final(self).model() == (Scan {
                    pending: old(self).model().pending + chunk@,
                    values: old(self).model().values,
                    failure: old(self).model().failure,
                })
                &&& (*final(acc)).received() == (*old(acc)).received()
                &&& (*final(acc)).answers() == (*old(acc)).answers()
            },
            !old(self).halted() && old(self).framing() == Framing::Lines ==> lines_fed(
                old(self).model(),
                chunk@,
                r,
                final(self).model(),
                final(self).halted(),
                (*old(acc)).received(),
                (*final(acc)).received(),
                (*old(acc)).answers(),
                (*final(acc)).answers(),
                (*final(acc)).stopped(),
            ),
    {
        if self.halted {
            return Ok(ControlFlow::Break(()));
        }
        if self.framing != Framing::Lines {
            append_bytes(&mut self.pending, chunk);
            return Ok(ControlFlow::Continue(()));
        }
        let ghost s0 = self.model();
        let ghost seen0 = acc.received();
        let ghost a0 = acc.answers();
        let mut i: usize = 0;
        proof {
            assert(a0 + never(0) =~= a0);
        }
        while i < chunk.len()
            invariant
                0 <= i <= chunk.len(),
                !old(self).halted(),
                old(self).framing() == Framing::Lines,
                s0 == old(self).model(),
                seen0 == (*old(acc)).received(),
                a0 == (*old(acc)).answers(),
                acc.answers() == a0 + never((self.values@.len() - s0.values.len()) as nat),
                self.framing == Framing::Lines,
                !self.halted,
                self.failure@ is None,
                s0.failure is None,
                self.model() == scan(s0, chunk@.take(i as int)),
                acc.inv(),
                s0.values.is_prefix_of(self.values@),
                acc.received() == seen0 + self.values@.subrange(
                    s0.values.len() as int,
                    self.values@.len() as int,
                ),
            decreases chunk.len() - i,
        {
            let b = chunk[i];
            let ghost before = self.model();
            proof {
                assert(chunk@.take(i + 1).drop_last() == chunk@.take(i as int));
                assert(chunk@.take(i + 1).last() == b);
            }
            self.pending.push(b);
            if b == LINE_FEED && blank(self.pending.as_slice()) {
                self.pending.clear();
            } else if b == LINE_FEED {
                match parse_json(self.pending.as_slice()) {
                    Some(t) => {
                        self.pending.clear();
                        match ErrorResponse::from_json(t.as_str()) {
                            Some(e) => {
                                self.failure = Ghost(Some(e.error@));
                                self.halted = true;
                                proof {
                                    self.lemma_rest_is_ignored(s0, chunk@, i as int + 1);
                                    lemma_never_answered(
                                        a0,
                                        (self.values@.len() - s0.values.len()) as nat,
                                    );
                                }
                                return Err(Error::Message(e.error));
                            },
                            None => {
                                let ghost prior = acc.received();
                                let ghost n = (self.values@.len() - s0.values.len()) as nat;
                                self.values = Ghost(self.values@.push(t@));
                                let flow = acc.accumulate(t);
                                proof {
                                    lemma_never_extend(a0, n);
                                    lemma_stop_answered(a0, n);
                                    assert(self.values@.subrange(
                                        s0.values.len() as int,
                                        self.values@.len() as int,
                                    ) == self.values@.subrange(
                                        s0.values.len() as int,
                                        self.values@.len() - 1,
                                    ).push(self.values@.last()));
                                }
                                if matches!(flow, ControlFlow::Break(_)) {
                                    self.halted = true;
                                    proof {
                                        self.lemma_rest_extends(s0, chunk@, i as int + 1);
                                        let full = scan(s0, chunk@).values;
                                        let cur = self.values@;
                                        let fresh = full.subrange(
                                            s0.values.len() as int,
                                            full.len() as int,
                                        );
                                        let k = cur.len() - s0.values.len();
                                        assert(fresh.take(k) == cur.subrange(
                                            s0.values.len() as int,
                                            cur.len() as int,
                                        ));
                                        assert(cur.len() <= full.len());
                                        assert(0 < k <= fresh.len());
                                        assert(acc.received() == seen0 + fresh.take(k));
                                        assert(acc.stopped());
                                    }
                                    return Ok(ControlFlow::Break(()));
                                }
                            },
                        }
                    },
                    None => {},
                }
            }
            i = i + 1;
        }
        proof {
            assert(chunk@.take(chunk.len() as int) == chunk@);
            lemma_never_answered(a0, (self.values@.len() - s0.values.len()) as nat);
        }
        Ok(ControlFlow::Continue(()))
    }

    /// Ends the body.  A body read whole is handed on as its one value; the rest of a streamed
    /// body is settled; the body of a failed request becomes the error's text.
    pub fn finish<A: Accumulator>(self, acc: &mut A) -> (r: Result<(), Error>)
        requires
            self.wf(),
            (*old(acc)).inv(),
        ensures
            (*final(acc)).inv(),
            self.halted() ==> {
                &&& r is Ok
                &&& (*final(acc)).received() == (*old(acc)).received()
                &&& (*final(acc)).answers() == (*old(acc)).answers()
            },
            !self.halted() && self.framing() == Framing::Whole ==> match json_of_bytes(
                self.model().pending,
            ) {
                Some(t) => {
                    &&& r is Ok
                    &&& (*final(acc)).received() == (*old(acc)).received().push(t)
                    &&& answered((*old(acc)).answers(), (*final(acc)).answers(), 1)
                },
                None => {
                    &&& r == Err::<(), Error>(Error::Json)
                    &&& (*final(acc)).received() == (*old(acc)).received()
                    &&& (*final(acc)).answers() == (*old(acc)).answers()
                },
            },
            !self.halted() && self.framing() == Framing::Refused ==> {
                &&& (*final(acc)).received() == (*old(acc)).received()
                &&& (*final(acc)).answers() == (*old(acc)).answers()
                &&& match utf8_decoded(self.model().pending) {
                    Some(t) => r matches Err(Error::Message(m)) && m@ == t,
                    None => r == Err::<(), Error>(Error::Utf8),
                }
            },
            !self.halted() && self.framing() == Framing::Lines ==> {
                let c = conclude(self.model());
                &&& (*final(acc)).received() == (*old(acc)).received() + c.values.subrange(
                    self.model().values.len() as int,
                    c.values.len() as int,
                )
                &&& answered(
                    (*old(acc)).answers(),
                    (*final(acc)).answers(),
                    c.values.len() - self.model().values.len(),
                )
                &&& match c.failure {
                    Some(m) => {
                        &&& r matches Err(Error::Message(e)) && e@ == m
                        &&& (*final(acc)).answers() == (*old(acc)).answers()
                    },
                    None => r is Ok,
                }
            },
    {
        proof {
            lemma_answered_few(acc.answers(), true);
            lemma_answered_few(acc.answers(), false);
        }
        if self.halted {
            return Ok(());
        }
        match self.framing {
            Framing::Whole => match parse_json(self.pending.as_slice()) {
                Some(t) => {
                    let _ = acc.accumulate(t);
                    Ok(())
                },
                None => Err(Error::Json),
            },
            Framing::Refused => match utf8_text(self.pending.as_slice()) {
                Some(t) => Err(Error::Message(t)),
                None => Err(Error::Utf8),
            },
            Framing::Lines => if blank(self.pending.as_slice()) {
                proof {
                    assert(self.values@.subrange(
                        self.values@.len() as int,
                        self.values@.len() as int,
                    ) == Seq::<Seq<char>>::empty());
                }
                Ok(())
            } else {
                match parse_json(self.pending.as_slice()) {
                Some(t) => match ErrorResponse::from_json(t.as_str()) {
                    Some(e) => Err(Error::Message(e.error)),
                    None => {
                        let ghost vs = self.values@;
                        let _ = acc.accumulate(t);
                        proof {
                            assert(vs.push(t@).subrange(vs.len() as int, vs.len() + 1 as int)
                                == seq![t@]);
                        }
                        Ok(())
                    },
                },
                None => {
                    proof {
                        assert(self.values@.subrange(
                            self.values@.len() as int,
                            self.values@.len() as int,
                        ) == Seq::<Seq<char>>::empty());
                    }
                    Ok(())
                },
            }
            },
        }
    }

    /// After a failure at byte `n`, the rest of the chunk changes nothing.
    proof fn lemma_rest_is_ignored(&self, s0: Scan, chunk: Seq<u8>, n: int)
        requires
            0 <= n <= chunk.len(),
            self.model().failure is Some,
            self.model() == scan(s0, chunk.take(n)),
        ensures
            scan(s0, chunk) == self.model(),
    {
        lemma_scan_append(s0, chunk.take(n), chunk.skip(n));
        assert(chunk.take(n) + chunk.skip(n) == chunk);
        lemma_scan_extends(self.model(), chunk.skip(n));
    }

    /// The values read up to byte `n` begin the values of the whole chunk.
    proof fn lemma_rest_extends(&self, s0: Scan, chunk: Seq<u8>, n: int)
        requires
            0 <= n <= chunk.len(),
            self.model() == scan(s0, chunk.take(n)),
        ensures
            self.model().values.is_prefix_of(scan(s0, chunk).values),
    {
        lemma_scan_append(s0, chunk.take(n), chunk.skip(n));
        assert(chunk.take(n) + chunk.skip(n) == chunk);
        lemma_scan_extends(self.model(), chunk.skip(n));
    }
}

/// Reads the body of a response with `status`, received as `chunks`, and hands its values to
/// `acc`: a streamed body value by value, another body as its one value.
pub fn accumulate_chunks<A: Accumulator>(
    status: u16,
    streaming: bool,
    chunks: &Vec<Vec<u8>>,
    acc: &mut A,
) -> (r: Result<(), Error>)
    requires
        (*old(acc)).inv(),
    ensures
        (*final(acc)).inv(),
        body_delivered(
            framing_for(status, streaming),
            chunk_seqs(chunks@).flatten(),
            r,
            (*old(acc)).received(),
            (*final(acc)).received(),
            (*old(acc)).answers(),
            (*final(acc)).answers(),
            (*final(acc)).stopped(),
        ),
{
    let ghost all = chunk_seqs(chunks@);
    let ghost seen0 = acc.received();
    let ghost a0 = acc.answers();
    let mut decoder = Decoder::new(status, streaming);
    let mut i: usize = 0;
    proof {
        assert(a0 + never(0) =~= a0);
        assert(all.take(0) == Seq::<Seq<u8>>::empty());
        assert(all.take(0).flatten() == Seq::<u8>::empty());
        assert(seen0 + Seq::<Seq<char>>::empty() == seen0);
    }
    while i < chunks.len()
        invariant
            0 <= i <= chunks.len(),
            all == chunk_seqs(chunks@),
            seen0 == (*old(acc)).received(),
            a0 == (*old(acc)).answers(),
            decoder.wf(),
            acc.inv(),
            !decoder.halted(),
            decoder.framing() == framing_for(status, streaming),
            decoder.framing() != Framing::Lines ==> {
                &&& decoder.model().pending == all.take(i as int).flatten()
                &&& acc.received() == seen0
                &&& acc.answers() == a0
            },
            decoder.framing() == Framing::Lines ==> {
                &&& decoder.model() == scan(start(), all.take(i as int).flatten())
                &&& acc.received() == seen0 + decoder.model().values
                &&& acc.answers() == a0 + never(decoder.model().values.len())
            },
        decreases chunks.len() - i,
    {
        let ghost before = decoder.model();
        let ghost seen_before = acc.received();
        let ghost answers_before = acc.answers();
        let ghost next = all.take(i + 1).flatten();
        proof {
            assert(all.take(i + 1) == all.take(i as int).push(all[i as int]));
            all.take(i as int).lemma_flatten_push(all[i as int]);
            assert(next == all.take(i as int).flatten() + chunks@[i as int]@);
            lemma_scan_append(start(), all.take(i as int).flatten(), chunks@[i as int]@);
        }
        let fed = decoder.feed(chunks[i].as_slice(), acc);
        match fed {
            Err(e) => {
                proof {
                    let s = scan(before, chunks@[i as int]@);
                    lemma_scan_append(start(), next, all.flatten().skip(next.len() as int));
                    lemma_body_rest(all, i as int + 1);
                    lemma_scan_extends(s, all.flatten().skip(next.len() as int));
                    lemma_conclude_extends(s);
                    lemma_scan_extends(before, chunks@[i as int]@);
                    assert(seen0 + before.values + s.values.subrange(
                        before.values.len() as int,
                        s.values.len() as int,
                    ) =~= seen0 + s.values);
                    lemma_answered_chain(
                        a0,
                        before.values.len(),
                        acc.answers(),
                        s.values.len() - before.values.len(),
                    );
                }
                return Err(e);
            },
            Ok(ControlFlow::Break(())) => {
                proof {
                    let s = scan(before, chunks@[i as int]@);
                    let rest = all.flatten().skip(next.len() as int);
                    lemma_body_rest(all, i as int + 1);
                    lemma_scan_append(start(), next, rest);
                    lemma_scan_extends(s, rest);
                    lemma_conclude_extends(scan(s, rest));
                    lemma_scan_extends(before, chunks@[i as int]@);
                    let c = conclude(scan(start(), all.flatten()));
                    let fresh = s.values.subrange(
                        before.values.len() as int,
                        s.values.len() as int,
                    );
                    let k = acc.received().len() - seen_before.len();
                    let k2 = acc.received().len() - seen0.len();
                    assert(k2 == before.values.len() + k);
                    assert(before.values + fresh.take(k) == c.values.take(k2));
                    assert(acc.received() == seen0 + c.values.take(k2));
                    lemma_answered_chain(a0, before.values.len(), acc.answers(), k);
                }
                return Ok(());
            },
            Ok(ControlFlow::Continue(())) => {
                proof {
                    if decoder.framing() == Framing::Lines {
                        let s = scan(before, chunks@[i as int]@);
                        lemma_scan_extends(before, chunks@[i as int]@);
                        assert(seen0 + before.values + s.values.subrange(
                        before.values.len() as int,
                        s.values.len() as int,
                    ) =~= seen0 + s.values);
                        let n = (s.values.len() - before.values.len()) as nat;
                        lemma_answered_going_on(answers_before, acc.answers(), n);
                        lemma_never_add(a0, before.values.len(), n);
                    }
                }
            },
        }
        i = i + 1;
    }
    proof {
        assert(all.take(chunks.len() as int) == all);
    }
    let ghost last = decoder.model();
    let r = decoder.finish(acc);
    proof {
        if decoder.framing() == Framing::Lines {
            let c = conclude(last);
            lemma_conclude_extends(last);
            assert(seen0 + last.values + c.values.subrange(
                last.values.len() as int,
                c.values.len() as int,
            ) =~= seen0 + c.values);
            lemma_answered_chain(
                a0,
                last.values.len(),
                acc.answers(),
                c.values.len() - last.values.len(),
            );
            lemma_never_answered(a0, last.values.len());
        }
    }
    r
}

/// The body is what the first `n` chunks hold, and then the rest.
proof fn lemma_body_rest(all: Seq<Seq<u8>>, n: int)
    requires
        0 <= n <= all.len(),
    ensures
        all.flatten() == all.take(n).flatten() + all.flatten().skip(
            all.take(n).flatten().len() as int,
        ),
    decreases all.len() - n,
{
    if n == all.len() {
        assert(all.take(n) == all);
        assert(all.flatten().skip(all.flatten().len() as int) == Seq::<u8>::empty());
        assert(all.flatten() + Seq::<u8>::empty() == all.flatten());
    } else {
        lemma_body_rest(all, n + 1);
        assert(all.take(n + 1) == all.take(n).push(all[n]));
        all.take(n).lemma_flatten_push(all[n]);
        let a = all.take(n).flatten();
        let b = all.flatten();
        assert(b == a + all[n] + b.skip((a.len() + all[n].len()) as int));
        assert(b.skip(a.len() as int) == all[n] + b.skip((a.len() + all[n].len()) as int));
    }
}

} // verus!
