//! JSON values as the library holds them.
//!
//! A JSON value is carried as its compact text, in the form serde_json writes it.  What the
//! library reads from a value (a member, a string, a boolean, the elements of an array) is asked
//! of serde_json, and each such question has a name below that the contracts speak of.

use vstd::prelude::*;

verus! {

/// The compact text of the JSON value that `bytes` hold, or `None` where they hold no single
/// JSON value (surrounding JSON whitespace aside).
pub uninterp spec fn json_of_bytes(bytes: Seq<u8>) -> Option<Seq<char>>;

/// The compact text of member `key` of the JSON object written `text`; `None` where `text` is
/// no object or has no such member.
pub uninterp spec fn json_member(text: Seq<char>, key: Seq<char>) -> Option<Seq<char>>;

/// The contents of the JSON string written `text`; `None` where `text` is no string.
pub uninterp spec fn json_string(text: Seq<char>) -> Option<Seq<char>>;

/// The JSON boolean written `text`; `None` where `text` is no boolean.
pub uninterp spec fn json_bool(text: Seq<char>) -> Option<bool>;

/// The compact texts of the elements of the JSON array written `text`; `None` where `text` is
/// no array.
pub uninterp spec fn json_elements(text: Seq<char>) -> Option<Seq<Seq<char>>>;

/// The indented form of the JSON value written `text`; `None` where `text` is no JSON value.
pub uninterp spec fn json_pretty(text: Seq<char>) -> Option<Seq<char>>;

/// The hexadecimal digits, in lower case.
pub open spec fn hex_digits() -> Seq<char> {
    seq!['0', '1', '2', '3', '4', '5', '6', '7', '8', '9', 'a', 'b', 'c', 'd', 'e', 'f']
}

/// How `c` is written inside a JSON string: a quote and a backslash are escaped with a
/// backslash, the control characters that have a short escape use it, the other control
/// characters are written `\u00XX`, and every other character stands for itself.
pub open spec fn escaped_char(c: char) -> Seq<char> {
    let u = c as u32;
    if c == '"' {
        seq!['\\', '"']
    } else if c == '\\' {
        seq!['\\', '\\']
    } else if u == 8 {
        seq!['\\', 'b']
    } else if u == 9 {
        seq!['\\', 't']
    } else if u == 10 {
        seq!['\\', 'n']
    } else if u == 12 {
        seq!['\\', 'f']
    } else if u == 13 {
        seq!['\\', 'r']
    } else if u < 32 {
        seq!['\\', 'u', '0', '0', hex_digits()[(u / 16) as int], hex_digits()[(u % 16) as int]]
    } else {
        seq![c]
    }
}

/// The characters of `s`, each written as inside a JSON string.
pub open spec fn escaped(s: Seq<char>) -> Seq<char>
    decreases s.len(),
{
    if s.len() == 0 {
        Seq::empty()
    } else {
        escaped(s.drop_last()) + escaped_char(s.last())
    }
}

/// The JSON string literal that stands for `s`, quoted and escaped.
pub open spec fn json_quoted(s: Seq<char>) -> Seq<char> {
    seq!['"'] + escaped(s) + seq!['"']
}

/// Space, tab, line feed and carriage return: the whitespace that JSON allows between tokens.
pub open spec fn is_json_space(b: u8) -> bool {
    b == 32u8 || b == 9u8 || b == 10u8 || b == 13u8
}

/// Bytes that are all JSON whitespace (an empty sequence included).
pub open spec fn is_blank(bytes: Seq<u8>) -> bool {
    forall|i: int| 0 <= i < bytes.len() ==> is_json_space(#[trigger] bytes[i])
}

pub fn is_json_space_byte(b: u8) -> (r: bool)
    ensures
        r == is_json_space(b),
{
    b == 32u8 || b == 9u8 || b == 10u8 || b == 13u8
}

/// Whether `bytes` hold nothing but JSON whitespace.
pub fn blank(bytes: &[u8]) -> (r: bool)
    ensures
        r == is_blank(bytes@),
{
    let mut i: usize = 0;
    while i < bytes.len()
        invariant
            0 <= i <= bytes.len(),
            forall|j: int| 0 <= j < i ==> is_json_space(#[trigger] bytes@[j]),
        decreases bytes.len() - i,
    {
        if !is_json_space_byte(bytes[i]) {
            return false;
        }
        i = i + 1;
    }
    true
}

/// Relies on serde_json::from_slice, read into a `serde_json::Value` and handed back in the
/// compact form of its `Display`.
#[verifier::external_body]
pub(crate) fn parse_json(bytes: &[u8]) -> (r: Option<String>)
    ensures
        r matches Some(t) ==> json_of_bytes(bytes@) == Some(t@),
        r is None ==> json_of_bytes(bytes@) is None,
        is_blank(bytes@) ==> r is None,
{
    serde_json::from_slice::<serde_json::Value>(bytes).ok().map(|v| v.to_string())
}

/// Relies on serde_json::from_str, to read the text back into a `serde_json::Value`, and on
/// serde_json::Value::get with a string index: the member of an object, `None` for any other
/// value; the member is handed back in compact form.
#[verifier::external_body]
pub(crate) fn member(text: &str, key: &str) -> (r: Option<String>)
    ensures
        r matches Some(m) ==> json_member(text@, key@) == Some(m@),
        r is None ==> json_member(text@, key@) is None,
{
    let v = serde_json::from_str::<serde_json::Value>(text).ok()?;
    v.get(key).map(|m| m.to_string())
}

/// Relies on serde_json::from_str, to read the text back into a `serde_json::Value`, and on
/// serde_json::Value::as_str: the contents of a string value.
#[verifier::external_body]
pub(crate) fn string_of(text: &str) -> (r: Option<String>)
    ensures
        r matches Some(s) ==> json_string(text@) == Some(s@),
        r is None ==> json_string(text@) is None,
{
    let v = serde_json::from_str::<serde_json::Value>(text).ok()?;
    v.as_str().map(|s| s.to_string())
}

/// Relies on serde_json::from_str, to read the text back into a `serde_json::Value`, and on
/// serde_json::Value::as_bool: the value of a boolean.
#[verifier::external_body]
pub(crate) fn bool_of(text: &str) -> (r: Option<bool>)
    ensures
        r == json_bool(text@),
{
    let v = serde_json::from_str::<serde_json::Value>(text).ok()?;
    v.as_bool()
}

/// Relies on serde_json::from_str, to read the text back into a `serde_json::Value`, and on
/// serde_json::Value::as_array: the elements of an array, each in compact form.
#[verifier::external_body]
pub(crate) fn elements_of(text: &str) -> (r: Option<Vec<String>>)
    ensures
        r matches Some(v) ==> json_elements(text@) == Some(v@.map_values(|s: String| s@)),
        r is None ==> json_elements(text@) is None,
{
    let v = serde_json::from_str::<serde_json::Value>(text).ok()?;
    v.as_array().map(|a| a.iter().map(|e| e.to_string()).collect())
}

/// Relies on serde_json::from_str, to read the text back into a `serde_json::Value`, and on
/// serde_json::to_string_pretty: the value written with indentation.
#[verifier::external_body]
pub(crate) fn pretty(text: &str) -> (r: Option<String>)
    ensures
        r matches Some(p) ==> json_pretty(text@) == Some(p@),
        r is None ==> json_pretty(text@) is None,
{
    let v = serde_json::from_str::<serde_json::Value>(text).ok()?;
    serde_json::to_string_pretty(&v).ok()
}

/// Relies on serde_json::to_string on a `str`: the string as a quoted JSON literal, each
/// character escaped as serde_json's escape table has it.
#[verifier::external_body]
pub(crate) fn quote(s: &str) -> (r: String)
    ensures
        r@ == json_quoted(s@),
{
    serde_json::to_string(s).unwrap_or_default()
}

/// Items joined with commas.
pub open spec fn comma_joined(items: Seq<Seq<char>>) -> Seq<char>
    decreases items.len(),
{
    if items.len() == 0 {
        Seq::empty()
    } else if items.len() == 1 {
        items[0]
    } else {
        comma_joined(items.drop_last()) + seq![','] + items.last()
    }
}

/// The text of the member `key` with value text `value`.
pub open spec fn member_text(key: Seq<char>, value: Seq<char>) -> Seq<char> {
    json_quoted(key) + seq![':'] + value
}

/// The text of the members `ms`, each a key and the text of its value, in order.
pub open spec fn member_texts(ms: Seq<(Seq<char>, Seq<char>)>) -> Seq<Seq<char>> {
    ms.map_values(|m: (Seq<char>, Seq<char>)| member_text(m.0, m.1))
}

/// The compact text of the object with members `ms`, in order.
pub open spec fn object_text(ms: Seq<(Seq<char>, Seq<char>)>) -> Seq<char> {
    seq!['{'] + comma_joined(member_texts(ms)) + seq!['}']
}

/// The compact text of the array with elements written `items`.
pub open spec fn array_text(items: Seq<Seq<char>>) -> Seq<char> {
    seq!['['] + comma_joined(items) + seq![']']
}

/// The compact text of the array of the strings `items`.
pub open spec fn string_array_text(items: Seq<Seq<char>>) -> Seq<char> {
    array_text(items.map_values(|s: Seq<char>| json_quoted(s)))
}

proof fn lemma_comma_joined_push(items: Seq<Seq<char>>, item: Seq<char>)
    ensures
        comma_joined(items.push(item)) == if items.len() == 0 {
            item
        } else {
            comma_joined(items) + seq![','] + item
        },
{
    assert(items.push(item).drop_last() == items);
}

/// What the punctuation of JSON text holds.
proof fn lemma_punctuation()
    ensures
        "{"@ == seq!['{'],
        "}"@ == seq!['}'],
        "["@ == seq!['['],
        "]"@ == seq![']'],
        ","@ == seq![','],
        ":"@ == seq![':'],
{
    reveal_strlit("{");
    reveal_strlit("}");
    reveal_strlit("[");
    reveal_strlit("]");
    reveal_strlit(",");
    reveal_strlit(":");
    assert("{"@ =~= seq!['{']);
    assert("}"@ =~= seq!['}']);
    assert("["@ =~= seq!['[']);
    assert("]"@ =~= seq![']']);
    assert(","@ =~= seq![',']);
    assert(":"@ =~= seq![':']);
}

/// An object being written, member by member.
pub struct ObjectWriter {
    text: String,
    empty: bool,
    members: Ghost<Seq<(Seq<char>, Seq<char>)>>,
}

impl ObjectWriter {
    /// The members written so far.
    pub closed spec fn members(&self) -> Seq<(Seq<char>, Seq<char>)> {
        self.members@
    }

    pub closed spec fn wf(&self) -> bool {
        &&& self.text@ == seq!['{'] + comma_joined(member_texts(self.members@))
        &&& self.empty == (self.members@.len() == 0)
    }

    /// An object with no members yet.
    pub fn new() -> (r: ObjectWriter)
        ensures
            r.wf(),
            r.members() == Seq::<(Seq<char>, Seq<char>)>::empty(),
    {
        let text = String::from_str("{");
        proof {
            lemma_punctuation();
            assert(comma_joined(member_texts(Seq::<(Seq<char>, Seq<char>)>::empty())) =~= Seq::<
                char,
            >::empty());
        }
        ObjectWriter { text, empty: true, members: Ghost(Seq::empty()) }
    }

    /// Adds member `key` whose value is written `value`.
    pub fn add(&mut self, key: &str, value: &str)
        requires
            old(self).wf(),
        ensures
            final(self).wf(),
            final(self).members() == old(self).members().push((key@, value@)),
    {
        let ghost before = self.members@;
        if !self.empty {
            self.text.append(",");
        }
        self.empty = false;
        let k = quote(key);
        self.text.append(k.as_str());
        self.text.append(":");
        self.text.append(value);
        self.members = Ghost(before.push((key@, value@)));
        proof {
            lemma_punctuation();
            assert(member_texts(self.members@) == member_texts(before).push(
                member_text(key@, value@),
            ));
            lemma_comma_joined_push(member_texts(before), member_text(key@, value@));
            if before.len() == 0 {
                assert(self.text@ =~= seq!['{'] + member_text(key@, value@));
            } else {
                assert(self.text@ =~= seq!['{'] + comma_joined(member_texts(before)) + seq![',']
                    + member_text(key@, value@));
            }
            assert(self.text@ =~= seq!['{'] + comma_joined(member_texts(self.members@)));
        }
    }

    /// Adds member `key` whose value is the string `value`.
    pub fn add_string(&mut self, key: &str, value: &str)
        requires
            old(self).wf(),
        ensures
            final(self).wf(),
            final(self).members() == old(self).members().push((key@, json_quoted(value@))),
    {
        let v = quote(value);
        self.add(key, v.as_str());
    }

    /// The text of the object.
    pub fn close(self) -> (r: String)
        requires
            self.wf(),
        ensures
            r@ == object_text(self.members()),
    {
        let mut text = self.text;
        text.append("}");
        proof {
            lemma_punctuation();
        }
        text
    }
}

/// The compact text of the array whose elements are written `items`.
pub fn array_of(items: &Vec<String>) -> (r: String)
    ensures
        r@ == array_text(items@.map_values(|s: String| s@)),
{
    let mut text = String::from_str("[");
    let ghost all = items@.map_values(|s: String| s@);
    proof {
        lemma_punctuation();
        assert(comma_joined(all.take(0)) =~= Seq::<char>::empty());
    }
    let mut i: usize = 0;
    while i < items.len()
        invariant
            0 <= i <= items.len(),
            all == items@.map_values(|s: String| s@),
            text@ == seq!['['] + comma_joined(all.take(i as int)),
        decreases items.len() - i,
    {
        proof {
            lemma_punctuation();
            lemma_comma_joined_push(all.take(i as int), all[i as int]);
            assert(all.take(i + 1) == all.take(i as int).push(all[i as int]));
        }
        if i > 0 {
            text.append(",");
        }
        text.append(items[i].as_str());
        i = i + 1;
    }
    text.append("]");
    proof {
        lemma_punctuation();
        assert(all.take(items.len() as int) == all);
    }
    text
}

/// The compact text of the array of the strings `items`.
pub fn string_array_of(items: &Vec<String>) -> (r: String)
    ensures
        r@ == string_array_text(items@.map_values(|s: String| s@)),
{
    let mut quoted: Vec<String> = Vec::new();
    let mut i: usize = 0;
    while i < items.len()
        invariant
            0 <= i <= items.len(),
            quoted@.len() == i,
            forall|j: int| 0 <= j < i ==> (#[trigger] quoted@[j])@ == json_quoted(items@[j]@),
        decreases items.len() - i,
    {
        quoted.push(quote(items[i].as_str()));
        i = i + 1;
    }
    let r = array_of(&quoted);
    proof {
        assert(quoted@.map_values(|s: String| s@) == items@.map_values(|s: String| s@).map_values(
            |s: Seq<char>| json_quoted(s),
        ));
    }
    r
}

} // verus!
