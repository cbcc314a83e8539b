//! Consumers of response fragments, and their composition.
//!
//! An accumulator is handed the fragments of a response one at a time, each as the compact text
//! of a JSON value, and answers whether the response should go on.  A group of accumulators
//! (a pair or a triple, nested at will) is itself one: every member sees every fragment, in
//! declared order, and the group asks to stop when any member does.

use std::ops::ControlFlow;
use vstd::prelude::*;

use crate::json::{json_member, json_pretty, json_string, member, pretty, string_of};

verus! {

/// A destination for text.
pub trait Output {
    /// Everything written so far.
    spec fn written(&self) -> Seq<char>;

    /// Writes `text` after what was written before.
    fn write_text(&mut self, text: &str)
        ensures
            final(self).written() == old(self).written() + text@,
    ;
}

impl Output for String {
    open spec fn written(&self) -> Seq<char> {
        self@
    }

    fn write_text(&mut self, text: &str) {
        self.append(text);
    }
}

/// Relies on std::io::Write::write_all for standard output; a failed write is ignored, as a
/// display may drop text.
#[verifier::external_body]
fn stdout_write(text: &str) {
    let _ = std::io::Write::write_all(&mut std::io::stdout(), text.as_bytes());
}

/// Relies on std::io::Write::flush for standard output, so that text shows as it comes.
#[verifier::external_body]
fn stdout_flush() {
    let _ = std::io::Write::flush(&mut std::io::stdout());
}

/// Standard output, flushed after every write.
pub struct Console {
    written: Ghost<Seq<char>>,
}

impl Console {
    pub fn new() -> (r: Console)
        ensures
            r.written() == Seq::<char>::empty(),
    {
        Console { written: Ghost(Seq::empty()) }
    }
}

impl Output for Console {
    closed spec fn written(&self) -> Seq<char> {
        self.written@
    }

    fn write_text(&mut self, text: &str) {
        stdout_write(text);
        stdout_flush();
        self.written = Ghost(self.written@ + text@);
    }
}

/// A consumer of response fragments.
pub trait Accumulator {
    /// What an accumulator was made with (where it writes, what it reads), kept by every call.
    type Settings;

    /// What the accumulator's state guarantees between calls.
    spec fn inv(&self) -> bool;

    /// The fragments handed to it so far, in order.
    spec fn received(&self) -> Seq<Seq<char>>;

    /// Its answer to each of them: whether it asked to stop there.
    spec fn answers(&self) -> Seq<bool>;

    /// Whether it asked to stop at the latest fragment.
    spec fn stopped(&self) -> bool;

    /// What it was made with.
    spec fn settings(&self) -> Self::Settings;

    /// Takes one fragment, the compact text of a JSON value, and says whether to go on.
    fn accumulate(&mut self, message: String) -> (r: ControlFlow<()>)
        requires
            old(self).inv(),
        ensures
            final(self).inv(),
            final(self).received() == old(self).received().push(message@),
            final(self).answers() == old(self).answers().push(r is Break),
            r is Break <==> final(self).stopped(),
            final(self).settings() == old(self).settings(),
    ;
}

/// The answers of an accumulator that never asks to stop, after `n` fragments.
pub open spec fn never(n: nat) -> Seq<bool> {
    Seq::new(n, |i: int| false)
}

pub proof fn lemma_never_push(n: nat)
    ensures
        never(n + 1) == never(n).push(false),
{
    assert(never(n + 1) =~= never(n).push(false));
}

/// `after` is `before` with `n` more answers, each of which goes on but perhaps the last.
pub open spec fn answered(before: Seq<bool>, after: Seq<bool>, n: int) -> bool {
    &&& after.len() == before.len() + n
    &&& after.take(before.len() as int) == before
    &&& forall|i: int| before.len() <= i < after.len() - 1 ==> !#[trigger] after[i]
}

/// The latest of the answers added to `before`, if any was, goes on.
pub open spec fn last_goes_on(before: Seq<bool>, after: Seq<bool>) -> bool {
    after.len() > before.len() ==> !after.last()
}

/// No answer added, or just one.
pub proof fn lemma_answered_few(before: Seq<bool>, x: bool)
    ensures
        answered(before, before, 0),
        answered(before, before.push(x), 1),
{
    assert(before.take(before.len() as int) =~= before);
    assert(before.push(x).take(before.len() as int) =~= before);
}

/// Two runs of answers that go on are one.
pub proof fn lemma_never_add(before: Seq<bool>, x: nat, y: nat)
    ensures
        before + never(x) + never(y) == before + never(x + y),
{
    assert(before + never(x) + never(y) =~= before + never(x + y));
}

/// Answers that all go on.
pub proof fn lemma_never_answered(before: Seq<bool>, n: nat)
    ensures
        answered(before, before + never(n), n as int),
        last_goes_on(before, before + never(n)),
{
    assert((before + never(n)).take(before.len() as int) =~= before);
}

/// One more answer that goes on.
pub proof fn lemma_never_extend(before: Seq<bool>, n: nat)
    ensures
        (before + never(n)).push(false) == before + never(n + 1),
{
    assert((before + never(n)).push(false) =~= before + never(n + 1));
}

/// Answers that go on, and then one that stops.
pub proof fn lemma_stop_answered(before: Seq<bool>, n: nat)
    ensures
        answered(before, (before + never(n)).push(true), n + 1 as int),
        (before + never(n)).push(true).last(),
{
    assert((before + never(n)).push(true).take(before.len() as int) =~= before);
}

/// Answers that all go on, the last one included, are `never`.
pub proof fn lemma_answered_going_on(before: Seq<bool>, after: Seq<bool>, n: nat)
    requires
        answered(before, after, n as int),
        last_goes_on(before, after),
    ensures
        after == before + never(n),
{
    assert forall|i: int| 0 <= i < after.len() implies after[i] == (before + never(n))[i] by {
        if i < before.len() {
            assert(after[i] == after.take(before.len() as int)[i]);
        }
    }
    assert(after =~= before + never(n));
}

/// Answers that went on for `x` fragments, and then `k` more.
pub proof fn lemma_answered_chain(first: Seq<bool>, x: nat, after: Seq<bool>, k: int)
    requires
        0 <= k,
        answered(first + never(x), after, k),
    ensures
        answered(first, after, x + k),
        last_goes_on(first + never(x), after) ==> last_goes_on(first, after),
{
    let mid = first + never(x);
    assert(after.take(first.len() as int) =~= first) by {
        assert forall|i: int| 0 <= i < first.len() implies after[i] == first[i] by {
            assert(after[i] == after.take(mid.len() as int)[i]);
            assert(mid[i] == first[i]);
        }
    }
    assert forall|i: int| first.len() <= i < after.len() - 1 implies !#[trigger] after[i] by {
        if i < mid.len() {
            assert(after[i] == after.take(mid.len() as int)[i]);
        }
    }    if k == 0 && after.len() > first.len() {
        assert(after.last() == after.take(mid.len() as int)[after.len() - 1]);
    }
}

/// The answer of a group: it asks to stop where either member did.
pub open spec fn either(a: Seq<bool>, b: Seq<bool>) -> Seq<bool> {
    Seq::new(a.len(), |i: int| a[i] || b[i])
}

proof fn lemma_either_push(a: Seq<bool>, b: Seq<bool>, x: bool, y: bool)
    requires
        a.len() == b.len(),
    ensures
        either(a.push(x), b.push(y)) == either(a, b).push(x || y),
{
    assert(either(a.push(x), b.push(y)) =~= either(a, b).push(x || y));
}

/// Hands `message` to `a` and then to `b`, and asks to stop when either of them does.  Neither
/// member is skipped: `b` sees the fragment even where `a` asked to stop.
pub fn fan_out<A: Accumulator, B: Accumulator>(a: &mut A, b: &mut B, message: String) -> (r:
    ControlFlow<()>)
    requires
        (*old(a)).inv(),
        (*old(b)).inv(),
    ensures
        (*final(a)).inv(),
        (*final(b)).inv(),
        (*final(a)).received() == (*old(a)).received().push(message@),
        (*final(b)).received() == (*old(b)).received().push(message@),
        (*final(a)).answers() == (*old(a)).answers().push((*final(a)).stopped()),
        (*final(b)).answers() == (*old(b)).answers().push((*final(b)).stopped()),
        (*final(a)).settings() == (*old(a)).settings(),
        (*final(b)).settings() == (*old(b)).settings(),
        r is Break <==> ((*final(a)).stopped() || (*final(b)).stopped()),
{
    let first = a.accumulate(message.clone());
    let second = b.accumulate(message);
    if matches!(first, ControlFlow::Break(_)) || matches!(second, ControlFlow::Break(_)) {
        ControlFlow::Break(())
    } else {
        ControlFlow::Continue(())
    }
}

impl<A: Accumulator, B: Accumulator> Accumulator for (A, B) {
    type Settings = (A::Settings, B::Settings);

    open spec fn inv(&self) -> bool {
        &&& self.0.inv() && self.1.inv()
        &&& self.0.received() == self.1.received()
        &&& self.0.answers().len() == self.1.answers().len()
    }

    open spec fn received(&self) -> Seq<Seq<char>> {
        self.0.received()
    }

    open spec fn answers(&self) -> Seq<bool> {
        either(self.0.answers(), self.1.answers())
    }

    open spec fn stopped(&self) -> bool {
        self.0.stopped() || self.1.stopped()
    }

    open spec fn settings(&self) -> (A::Settings, B::Settings) {
        (self.0.settings(), self.1.settings())
    }

    fn accumulate(&mut self, message: String) -> (r: ControlFlow<()>) {
        let ghost (a0, b0) = (self.0.answers(), self.1.answers());
        let r = fan_out(&mut self.0, &mut self.1, message);
        proof {
            lemma_either_push(a0, b0, self.0.stopped(), self.1.stopped());
        }
        r
    }
}

impl<A: Accumulator, B: Accumulator, C: Accumulator> Accumulator for (A, B, C) {
    type Settings = (A::Settings, B::Settings, C::Settings);

    open spec fn inv(&self) -> bool {
        &&& self.0.inv() && self.1.inv() && self.2.inv()
        &&& self.0.received() == self.1.received()
        &&& self.0.received() == self.2.received()
        &&& self.0.answers().len() == self.1.answers().len()
        &&& self.0.answers().len() == self.2.answers().len()
    }

    open spec fn received(&self) -> Seq<Seq<char>> {
        self.0.received()
    }

    open spec fn answers(&self) -> Seq<bool> {
        either(either(self.0.answers(), self.1.answers()), self.2.answers())
    }

    open spec fn stopped(&self) -> bool {
        self.0.stopped() || self.1.stopped() || self.2.stopped()
    }

    open spec fn settings(&self) -> (A::Settings, B::Settings, C::Settings) {
        (self.0.settings(), self.1.settings(), self.2.settings())
    }

    fn accumulate(&mut self, message: String) -> (r: ControlFlow<()>) {
        let ghost (a0, b0, c0) = (self.0.answers(), self.1.answers(), self.2.answers());
        let first = fan_out(&mut self.0, &mut self.1, message.clone());
        let third = self.2.accumulate(message);
        proof {
            lemma_either_push(a0, b0, self.0.stopped(), self.1.stopped());
            lemma_either_push(
                either(a0, b0),
                c0,
                self.0.stopped() || self.1.stopped(),
                self.2.stopped(),
            );
        }
        if matches!(first, ControlFlow::Break(_)) || matches!(third, ControlFlow::Break(_)) {
            ControlFlow::Break(())
        } else {
            ControlFlow::Continue(())
        }
    }
}

impl<'a, T: Accumulator> Accumulator for &'a mut T {
    type Settings = T::Settings;

    open spec fn inv(&self) -> bool {
        (**self).inv()
    }

    open spec fn received(&self) -> Seq<Seq<char>> {
        (**self).received()
    }

    open spec fn answers(&self) -> Seq<bool> {
        (**self).answers()
    }

    open spec fn stopped(&self) -> bool {
        (**self).stopped()
    }

    open spec fn settings(&self) -> T::Settings {
        (**self).settings()
    }

    fn accumulate(&mut self, message: String) -> (r: ControlFlow<()>) {
        (**self).accumulate(message)
    }
}

/// The text that a field-writing accumulator writes for fragment `v`: the contents of its
/// string member `field`, and nothing where there is no such string member.
pub open spec fn field_text(v: Seq<char>, field: Seq<char>) -> Seq<char> {
    match json_member(v, field) {
        Some(m) => match json_string(m) {
            Some(s) => s,
            None => Seq::empty(),
        },
        None => Seq::empty(),
    }
}

/// The texts of `field` in each of `vs`, one after the other.
pub open spec fn field_texts(vs: Seq<Seq<char>>, field: Seq<char>) -> Seq<char>
    decreases vs.len(),
{
    if vs.len() == 0 {
        Seq::empty()
    } else {
        field_texts(vs.drop_last(), field) + field_text(vs.last(), field)
    }
}

/// The line that a JSON-writing accumulator writes for fragment `v`: its compact text, or its
/// indented text where `pretty` is set, and a line feed.
pub open spec fn json_line(v: Seq<char>, pretty: bool) -> Seq<char> {
    let body = if pretty && json_pretty(v) is Some {
        json_pretty(v)->Some_0
    } else {
        v
    };
    body + seq!['\n']
}

/// The lines written for each of `vs`, one after the other.
pub open spec fn json_lines(vs: Seq<Seq<char>>, pretty: bool) -> Seq<char>
    decreases vs.len(),
{
    if vs.len() == 0 {
        Seq::empty()
    } else {
        json_lines(vs.drop_last(), pretty) + json_line(vs.last(), pretty)
    }
}

/// Writes one string member of each fragment to an output, as it comes.
pub struct FieldWriteAccumulator<W: Output> {
    output: W,
    field: String,
    origin: Ghost<Seq<char>>,
    history: Ghost<Seq<Seq<char>>>,
}

impl<W: Output> FieldWriteAccumulator<W> {
    /// An accumulator that writes member `field` of each fragment to `output`.
    pub fn new(output: W, field: &str) -> (r: Self)
        ensures
            r.inv(),
            r.received() == Seq::<Seq<char>>::empty(),
            r.field() == field@,
            r.origin() == output.written(),
    {
        let ghost origin = output.written();
        FieldWriteAccumulator {
            output,
            field: field.to_owned(),
            origin: Ghost(origin),
            history: Ghost(Seq::empty()),
        }
    }

    /// The name of the member that is written.
    pub closed spec fn field(&self) -> Seq<char> {
        self.field@
    }

    /// What the output held before the first fragment.
    pub closed spec fn origin(&self) -> Seq<char> {
        self.origin@
    }

    /// The output written to.
    pub fn output(&self) -> (r: &W)
        requires
            self.inv(),
        ensures
            r.written() == self.origin() + field_texts(self.received(), self.field()),
    {
        &self.output
    }

    /// Gives the output back.
    pub fn into_output(self) -> (r: W)
        requires
            self.inv(),
        ensures
            r.written() == self.origin() + field_texts(self.received(), self.field()),
    {
        self.output
    }
}

impl<W: Output> Accumulator for FieldWriteAccumulator<W> {
    type Settings = (Seq<char>, Seq<char>);

    open spec fn answers(&self) -> Seq<bool> {
        never(self.received().len())
    }

    open spec fn settings(&self) -> (Seq<char>, Seq<char>) {
        (self.origin(), self.field())
    }

    closed spec fn inv(&self) -> bool {
        self.output.written() == self.origin@ + field_texts(self.history@, self.field@)
    }

    closed spec fn received(&self) -> Seq<Seq<char>> {
        self.history@
    }

    open spec fn stopped(&self) -> bool {
        false
    }

    fn accumulate(&mut self, message: String) -> (r: ControlFlow<()>) {
        let ghost before = self.history@;
        if let Some(m) = member(message.as_str(), self.field.as_str()) {
            if let Some(s) = string_of(m.as_str()) {
                self.output.write_text(s.as_str());
            }
        }
        self.history = Ghost(self.history@.push(message@));
        assert(self.history@.drop_last() == before);
        assert(self.output.written() == self.origin@ + field_texts(self.history@, self.field@));
        proof {
            lemma_never_push(before.len());
        }
        ControlFlow::Continue(())
    }
}

/// Writes each fragment to an output as a line of JSON.
pub struct JsonAccumulator<W: Output> {
    output: W,
    pub pretty: bool,
    origin: Ghost<Seq<char>>,
    history: Ghost<Seq<Seq<char>>>,
}

impl<W: Output> JsonAccumulator<W> {
    /// An accumulator that writes each fragment to `output` in compact form.
    pub fn new(output: W) -> (r: Self)
        ensures
            r.inv(),
            r.received() == Seq::<Seq<char>>::empty(),
            !r.is_pretty(),
            r.origin() == output.written(),
    {
        let ghost origin = output.written();
        JsonAccumulator {
            output,
            pretty: false,
            origin: Ghost(origin),
            history: Ghost(Seq::empty()),
        }
    }

    /// An accumulator that writes each fragment to `output` with indentation.
    pub fn pretty(output: W) -> (r: Self)
        ensures
            r.inv(),
            r.received() == Seq::<Seq<char>>::empty(),
            r.is_pretty(),
            r.origin() == output.written(),
    {
        let ghost origin = output.written();
        JsonAccumulator {
            output,
            pretty: true,
            origin: Ghost(origin),
            history: Ghost(Seq::empty()),
        }
    }

    /// Whether fragments are written with indentation.
    pub closed spec fn is_pretty(&self) -> bool {
        self.pretty
    }

    /// What the output held before the first fragment.
    pub closed spec fn origin(&self) -> Seq<char> {
        self.origin@
    }

    /// The output written to.
    pub fn output(&self) -> (r: &W)
        requires
            self.inv(),
        ensures
            r.written() == self.origin() + json_lines(self.received(), self.is_pretty()),
    {
        &self.output
    }

    /// Gives the output back.
    pub fn into_output(self) -> (r: W)
        requires
            self.inv(),
        ensures
            r.written() == self.origin() + json_lines(self.received(), self.is_pretty()),
    {
        self.output
    }
}

impl<W: Output> Accumulator for JsonAccumulator<W> {
    type Settings = (Seq<char>, bool);

    open spec fn answers(&self) -> Seq<bool> {
        never(self.received().len())
    }

    open spec fn settings(&self) -> (Seq<char>, bool) {
        (self.origin(), self.is_pretty())
    }

    closed spec fn inv(&self) -> bool {
        self.output.written() == self.origin@ + json_lines(self.history@, self.pretty)
    }

    closed spec fn received(&self) -> Seq<Seq<char>> {
        self.history@
    }

    open spec fn stopped(&self) -> bool {
        false
    }

    fn accumulate(&mut self, message: String) -> (r: ControlFlow<()>) {
        let ghost before = self.history@;
        let indented = if self.pretty {
            pretty(message.as_str())
        } else {
            None
        };
        match indented {
            Some(p) => self.output.write_text(p.as_str()),
            None => self.output.write_text(message.as_str()),
        }
        self.output.write_text("\n");
        self.history = Ghost(self.history@.push(message@));
        assert(self.history@.drop_last() == before);
        proof {
            reveal_strlit("\n");
        }
        assert(self.output.written() == self.origin@ + json_lines(self.history@, self.pretty));
        proof {
            lemma_never_push(before.len());
        }
        ControlFlow::Continue(())
    }
}

/// Calls `notify` for each fragment, and never asks to stop: a status indicator hides itself
/// when the first fragment of a reply arrives.
pub struct NotifyAccumulator<F: Fn()> {
    notify: F,
    history: Ghost<Seq<Seq<char>>>,
}

impl<F: Fn()> NotifyAccumulator<F> {
    pub fn new(notify: F) -> (r: Self)
        requires
            notify.requires(()),
        ensures
            r.inv(),
            r.received() == Seq::<Seq<char>>::empty(),
            r.notifier() == notify,
    {
        NotifyAccumulator { notify, history: Ghost(Seq::empty()) }
    }

    /// The function called for each fragment.
    pub closed spec fn notifier(&self) -> F {
        self.notify
    }
}

impl<F: Fn()> Accumulator for NotifyAccumulator<F> {
    type Settings = F;

    open spec fn answers(&self) -> Seq<bool> {
        never(self.received().len())
    }

    open spec fn settings(&self) -> F {
        self.notifier()
    }

    closed spec fn inv(&self) -> bool {
        self.notify.requires(())
    }

    closed spec fn received(&self) -> Seq<Seq<char>> {
        self.history@
    }

    open spec fn stopped(&self) -> bool {
        false
    }

    fn accumulate(&mut self, message: String) -> (r: ControlFlow<()>)
        ensures
            old(self).notifier().ensures((), ()),
    {
        let ghost before = self.history@;
        (self.notify)();
        self.history = Ghost(self.history@.push(message@));
        proof {
            lemma_never_push(before.len());
        }
        ControlFlow::Continue(())
    }
}

/// Keeps every fragment, in order, in a list.
pub struct VecAccumulator {
    pub output: Vec<String>,
}

impl VecAccumulator {
    /// An accumulator that appends each fragment to `output`.
    pub fn new(output: Vec<String>) -> (r: Self)
        ensures
            r.output@ == output@,
    {
        VecAccumulator { output }
    }
}

impl Accumulator for VecAccumulator {
    type Settings = ();

    open spec fn answers(&self) -> Seq<bool> {
        never(self.received().len())
    }

    open spec fn settings(&self) -> () {
        ()
    }

    open spec fn inv(&self) -> bool {
        true
    }

    open spec fn received(&self) -> Seq<Seq<char>> {
        self.output@.map_values(|s: String| s@)
    }

    open spec fn stopped(&self) -> bool {
        false
    }

    fn accumulate(&mut self, message: String) -> (r: ControlFlow<()>) {
        let ghost before = self.output@;
        self.output.push(message);
        assert(self.output@.map_values(|s: String| s@) == before.map_values(|s: String| s@).push(
            self.output@.last()@,
        ));
        proof {
            lemma_never_push(before.len());
        }
        ControlFlow::Continue(())
    }
}

} // verus!
