//! Text in messages: names that end at a zero byte, and strings with a
//! terminator.

use crate::bytes::{get_u16, le_u16};
use vstd::prelude::*;
use vstd::string::StringSliceAdditionalSpecFns;

verus! {

/// The index of the first zero byte of `s` at or after `i`, or the length of
/// `s` if there is none.
pub open spec fn first_zero(s: Seq<u8>, i: int) -> int
    decreases s.len() - i,
{
    if i < 0 || i >= s.len() || s[i] == 0 {
        i
    } else {
        first_zero(s, i + 1)
    }
}

/// The text of a name field: the bytes before the first zero byte, each
/// taken as the character with that number.
pub open spec fn name_text(field: Seq<u8>) -> Seq<char> {
    Seq::new(first_zero(field, 0) as nat, |i: int| field[i] as char)
}

/// `String::push`: appends one character.
#[verifier::external_body]
pub(crate) fn push_char(s: &mut String, c: char)
    ensures
        final(s)@ == old(s)@.push(c),
{
    s.push(c)
}

/// `core::str::from_utf8`: the string that `bytes` encode, if they are valid
/// UTF-8.
#[verifier::external_body]
pub(crate) fn str_from_utf8(bytes: &[u8]) -> (r: Option<&str>)
    ensures
        r is Some <==> vstd::utf8::valid_utf8(bytes@),
        r matches Some(s) ==> s.spec_bytes() == bytes@,
{
    core::str::from_utf8(bytes).ok()
}

/// `char::from_u32`: the character with the number `v`, if `v` is a Unicode
/// scalar value, that is, no surrogate and no more than 0x10FFFF.
#[verifier::external_body]
pub(crate) fn char_from_u32(v: u32) -> (r: Option<char>)
    ensures
        r == (if vstd::utf8::is_scalar(v) {
            Some(v as char)
        } else {
            None::<char>
        }),
{
    char::from_u32(v)
}

/// The text of a string of 16-bit units in little-endian order, from the
/// offset `pos` on: it ends at a zero unit or where fewer than two bytes are
/// left; a unit that is no character by itself is passed over.
pub open spec fn wide_text(s: Seq<u8>, pos: int) -> Seq<char>
    decreases s.len() - pos,
{
    if pos < 0 || pos + 2 > s.len() {
        Seq::empty()
    } else {
        let unit = le_u16(s.subrange(pos, pos + 2));
        if unit == 0 {
            Seq::empty()
        } else if vstd::utf8::is_scalar(unit as u32) {
            seq![(unit as u32) as char] + wide_text(s, pos + 2)
        } else {
            wide_text(s, pos + 2)
        }
    }
}

/// The text of a string of 16-bit units in little-endian order, as a
/// string.
pub fn wide_string(field: &[u8]) -> (r: String)
    ensures
        r@ == wide_text(field@, 0),
{
    let mut text = String::new();
    let len = field.len();
    let mut pos: usize = 0;
    while len - pos >= 2
        invariant
            pos <= len == field@.len(),
            text@ + wide_text(field@, pos as int) == wide_text(field@, 0),
        decreases len - pos,
    {
        let unit = get_u16(field, pos);
        if unit == 0 {
            assert(text@ + Seq::<char>::empty() =~= text@);
            return text;
        }
        let ghost before = text@;
        match char_from_u32(unit as u32) {
            Some(c) => {
                push_char(&mut text, c);
                assert(before + (seq![c] + wide_text(field@, pos + 2)) =~= before.push(c) + wide_text(
                    field@,
                    pos + 2,
                ));
            },
            None => {},
        }
        pos += 2;
    }
    assert(text@ + Seq::<char>::empty() =~= text@);
    text
}

/// The text of a name field, as a string.
pub fn name_string(field: &[u8]) -> (r: String)
    ensures
        r@ == name_text(field@),
{
    let mut name = String::new();
    let mut i: usize = 0;
    while i < field.len() && field[i] != 0
        invariant
            i <= field.len(),
            first_zero(field@, 0) == first_zero(field@, i as int),
            name@ == Seq::new(i as nat, |k: int| field@[k] as char),
        decreases field.len() - i,
    {
        push_char(&mut name, field[i] as char);
        i += 1;
        assert(name@ =~= Seq::new(i as nat, |k: int| field@[k] as char));
    }
    name
}

} // verus!
