//! File names of a session, written as patterns: `%s` stands for the seconds since the epoch,
//! `%m` for the model, and `%%` for a percent sign.

use vstd::prelude::*;
use vstd::string::StrSliceExecFns;

verus! {

/// The decimal digit of `d`.
pub open spec fn digit(d: nat) -> char {
    if d == 0 {
        '0'
    } else if d == 1 {
        '1'
    } else if d == 2 {
        '2'
    } else if d == 3 {
        '3'
    } else if d == 4 {
        '4'
    } else if d == 5 {
        '5'
    } else if d == 6 {
        '6'
    } else if d == 7 {
        '7'
    } else if d == 8 {
        '8'
    } else {
        '9'
    }
}

/// `n` written in decimal, without leading zeros.
pub open spec fn decimal(n: nat) -> Seq<char>
    decreases n,
{
    if n < 10 {
        seq![digit(n)]
    } else {
        decimal(n / 10).push(digit(n % 10))
    }
}

/// The text of the decimal digit `d`.
fn digit_text(d: u64) -> (r: &'static str)
    requires
        d < 10,
    ensures
        r@ == seq![digit(d as nat)],
{
    proof {
        reveal_strlit("0");
        reveal_strlit("1");
        reveal_strlit("2");
        reveal_strlit("3");
        reveal_strlit("4");
        reveal_strlit("5");
        reveal_strlit("6");
        reveal_strlit("7");
        reveal_strlit("8");
        reveal_strlit("9");
    }
    let r = if d == 0 {
        "0"
    } else if d == 1 {
        "1"
    } else if d == 2 {
        "2"
    } else if d == 3 {
        "3"
    } else if d == 4 {
        "4"
    } else if d == 5 {
        "5"
    } else if d == 6 {
        "6"
    } else if d == 7 {
        "7"
    } else if d == 8 {
        "8"
    } else {
        "9"
    };
    assert(r@ =~= seq![digit(d as nat)]);
    r
}

/// Appends `n` in decimal to `out`.
fn append_decimal(out: &mut String, n: u64)
    ensures
        final(out)@ == old(out)@ + decimal(n as nat),
    decreases n,
{
    if n < 10 {
        out.append(digit_text(n));
    } else {
        append_decimal(out, n / 10);
        out.append(digit_text(n % 10));
        assert(old(out)@ + decimal((n / 10) as nat) + seq![digit((n % 10) as nat)] =~= old(out)@
            + decimal(n as nat));
    }
}

/// Where the expansion of a pattern stands: the text so far, and whether a `%` waits for the
/// character that says what it stands for.
pub struct Expansion {
    pub text: Seq<char>,
    pub escaped: bool,
}

/// Reads one character of a pattern.  A `%` that is followed by neither `s`, `m` nor `%`
/// stands for itself, and so does the character after it.
pub open spec fn expand_step(e: Expansion, c: char, seconds: nat, model: Seq<char>) -> Expansion {
    if e.escaped {
        let text = if c == 's' {
            e.text + decimal(seconds)
        } else if c == 'm' {
            e.text + model
        } else if c == '%' {
            e.text.push('%')
        } else {
            e.text.push('%').push(c)
        };
        Expansion { text, escaped: false }
    } else if c == '%' {
        Expansion { text: e.text, escaped: true }
    } else {
        Expansion { text: e.text.push(c), escaped: false }
    }
}

/// Reads the characters of `pattern` one after the other.
pub open spec fn expand(pattern: Seq<char>, seconds: nat, model: Seq<char>) -> Expansion
    decreases pattern.len(),
{
    if pattern.len() == 0 {
        Expansion { text: Seq::empty(), escaped: false }
    } else {
        expand_step(expand(pattern.drop_last(), seconds, model), pattern.last(), seconds, model)
    }
}

/// The file name that `pattern` stands for, at `seconds` since the epoch and for `model`; a
/// pattern that stands for the empty name gives none.  A `%` at the very end is dropped.
pub fn expand_file_name(pattern: &str, seconds: u64, model: &str) -> (r: Option<String>)
    ensures
        r matches Some(t) ==> t@ == expand(pattern@, seconds as nat, model@).text && t@.len() > 0,
        r is None ==> expand(pattern@, seconds as nat, model@).text.len() == 0,
{
    let n = pattern.unicode_len();
    let mut text = String::new();
    let mut escaped = false;
    let mut i: usize = 0;
    proof {
        assert(pattern@.take(0) == Seq::<char>::empty());
    }
    while i < n
        invariant
            0 <= i <= n,
            n == pattern@.len(),
            expand(pattern@.take(i as int), seconds as nat, model@) == (Expansion {
                text: text@,
                escaped,
            }),
        decreases n - i,
    {
        let c = pattern.get_char(i);
        let ghost t0 = text@;
        proof {
            assert(pattern@.take(i + 1).last() == c);
            assert(pattern@.take(i + 1).drop_last() == pattern@.take(i as int));
            reveal_strlit("%");
            assert("%"@ =~= seq!['%']);
        }
        if escaped {
            if c == 's' {
                append_decimal(&mut text, seconds);
            } else if c == 'm' {
                text.append(model);
            } else if c == '%' {
                text.append("%");
                assert(text@ =~= t0.push('%'));
            } else {
                text.append("%");
                let mut one = String::new();
                one.append(pattern.substring_char(i, i + 1));
                assert(one@ =~= seq![c]);
                text.append(one.as_str());
                assert(text@ =~= t0.push('%').push(c));
            }
            escaped = false;
        } else if c == '%' {
            escaped = true;
        } else {
            let piece = pattern.substring_char(i, i + 1);
            assert(piece@ =~= seq![c]);
            text.append(piece);
            assert(text@ =~= t0.push(c));
        }
        i = i + 1;
    }
    proof {
        assert(pattern@.take(n as int) == pattern@);
    }
    if text.unicode_len() > 0 {
        Some(text)
    } else {
        None
    }
}

} // verus!
