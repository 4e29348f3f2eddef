//! The decisions of a one-time-code input: what the code becomes when a
//! box is typed into, erased, or pasted over, and which box gets focus.
use vstd::prelude::*;
use crate::text::{chars_of, string_of};

verus! {

/// `s` padded with spaces up to `len` characters (left as it is when it is
/// already that long).
pub open spec fn pad_to(s: Seq<char>, len: nat) -> Seq<char> {
    if s.len() >= len {
        s
    } else {
        s + Seq::new((len - s.len()) as nat, |i: int| ' ')
    }
}

/// `s` without its spaces, the rest in order.
pub open spec fn without_spaces(s: Seq<char>) -> Seq<char>
    decreases s.len(),
{
    if s.len() == 0 {
        s
    } else if s.last() == ' ' {
        without_spaces(s.drop_last())
    } else {
        without_spaces(s.drop_last()).push(s.last())
    }
}

pub open spec fn is_ascii_digit(c: char) -> bool {
    '0' <= c && c <= '9'
}

fn padded_chars(value: &str, length: usize) -> (v: Vec<char>)
    ensures
        v@ == pad_to(value@, length as nat),
{
    let mut v = chars_of(value);
    let ghost start = v@;
    while v.len() < length
        invariant
            start == value@,
            start.len() <= v@.len(),
            v@.subrange(0, start.len() as int) == start,
            forall|i: int| start.len() <= i < v@.len() ==> v@[i] == ' ',
            start.len() < length ==> v@.len() <= length,
            start.len() >= length ==> v@.len() == start.len(),
        decreases length - v.len(),
    {
        v.push(' ');
    }
    proof {
        if start.len() < length {
            assert(v@ =~= pad_to(start, length as nat));
        } else {
            assert(v@ =~= start);
        }
    }
    v
}

fn collect_non_spaces(v: &Vec<char>) -> (s: String)
    ensures
        s@ == without_spaces(v@),
{
    let mut out: Vec<char> = Vec::new();
    let mut i: usize = 0;
    while i < v.len()
        invariant
            i <= v@.len(),
            out@ == without_spaces(v@.take(i as int)),
        decreases v@.len() - i,
    {
        assert(v@.take(i + 1).drop_last() =~= v@.take(i as int));
        if v[i] != ' ' {
            out.push(v[i]);
        }
        i = i + 1;
    }
    assert(v@.take(v@.len() as int) =~= v@);
    string_of(&out)
}

/// The code after `typed` is entered into box `index`: its last character,
/// when that is an ASCII digit, fills the box (the code padded with spaces
/// to `length` first, spaces dropped after). `None` when nothing changes.
pub fn otp_after_input(value: &str, length: usize, index: usize, typed: &str) -> (r: Option<String>)
    requires
        index < length,
    ensures
        r is Some <==> (typed@.len() > 0 && is_ascii_digit(typed@.last())),
        r matches Some(s) ==> s@ == without_spaces(
            pad_to(value@, length as nat).update(index as int, typed@.last()),
        ),
{
    let t = chars_of(typed);
    if t.len() == 0 {
        return None;
    }
    let c = t[t.len() - 1];
    if !('0' <= c && c <= '9') {
        return None;
    }
    let mut chars = padded_chars(value, length);
    chars.set(index, c);
    Some(collect_non_spaces(&chars))
}

/// What a backspace in box `index` does: it clears that box when it holds
/// a character, else the box before it (and then focus moves back). The
/// new code, if any, and whether focus moves to the previous box.
pub fn otp_after_backspace(value: &str, length: usize, index: usize) -> (r: (Option<String>, bool))
    requires
        index < length,
    ensures
        pad_to(value@, length as nat)[index as int] != ' ' ==> (r.1 == false && r.0 is Some && r.0->0@ == without_spaces(pad_to(value@, length as nat).update(index as int, ' '))),
        pad_to(value@, length as nat)[index as int] == ' ' && index > 0 ==> (r.1 == true && r.0 is Some && r.0->0@ == without_spaces(pad_to(value@, length as nat).update(index - 1, ' '))),
        pad_to(value@, length as nat)[index as int] == ' ' && index == 0 ==> r.0 is None && !r.1,
{
    let mut chars = padded_chars(value, length);
    if chars[index] != ' ' {
        chars.set(index, ' ');
        (Some(collect_non_spaces(&chars)), false)
    } else if index > 0 {
        chars.set(index - 1, ' ');
        (Some(collect_non_spaces(&chars)), true)
    } else {
        (None, false)
    }
}

/// A pasted code, cut to its first `length` characters.
pub fn otp_from_paste(text: &str, length: usize) -> (s: String)
    ensures
        s@ == text@.take(if text@.len() < length {
            text@.len() as int
        } else {
            length as int
        }),
{
    let t = chars_of(text);
    let mut out: Vec<char> = Vec::new();
    let mut i: usize = 0;
    while i < t.len() && i < length
        invariant
            i <= t@.len(),
            i <= length,
            out@ == t@.take(i as int),
        decreases t@.len() - i,
    {
        out.push(t[i]);
        i = i + 1;
        assert(out@ =~= t@.take(i as int));
    }
    string_of(&out)
}

/// The box focused after a paste: the one after the pasted characters, or
/// the last box.
pub fn otp_paste_focus(pasted_len: usize, length: usize) -> (i: usize)
    requires
        length > 0,
    ensures
        i == (if pasted_len < length - 1 {
            pasted_len
        } else {
            (length - 1) as usize
        }),
{
    if pasted_len < length - 1 {
        pasted_len
    } else {
        length - 1
    }
}

} // verus!
