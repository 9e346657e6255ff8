//! What the library takes from outside: the calls whose contracts are stated
//! here rather than proved.

use vstd::prelude::*;
use vstd::utf8::{decode_utf8, encode_utf8, valid_utf8};
use x11rb::protocol::xproto::{AtomEnum, KeyButMask};

use crate::digits::decimal;

verus! {

/// `String::push` appends one character.
pub assume_specification[ String::push ](s: &mut String, c: char)
    ensures
        final(s)@ == old(s)@.push(c),
;

/// The text that `String::from_utf8_lossy` makes of some bytes.
pub uninterp spec fn lossy_text(bytes: Seq<u8>) -> Seq<char>;

/// Calls `String::from_utf8_lossy`, which depends on the bytes alone. Of bytes
/// that are valid UTF-8 it gives the text that they encode. Other bytes leave a
/// replacement character somewhere in it. The text is never shorter than the
/// bytes: an invalid sequence has at most three of them, and the replacement
/// character that takes its place is encoded in three. Where the invalid
/// sequences are, and how long each is, is left unsaid.
#[verifier::external_body]
pub(crate) fn decode_lossy(bytes: &Vec<u8>) -> (text: String)
    ensures
        text@ == lossy_text(bytes@),
        valid_utf8(bytes@) ==> text@ == decode_utf8(bytes@),
        !valid_utf8(bytes@) ==> text@.contains('\u{fffd}'),
        bytes@.len() <= encode_utf8(text@).len(),
{
    String::from_utf8_lossy(bytes).into_owned()
}

/// Calls x11rb's `KeyButMask::intersects`: whether two masks have a bit in
/// common.
#[verifier::external_body]
pub(crate) fn masks_intersect(mask: u16, flags: u16) -> (r: bool)
    ensures
        r == ((mask & flags) != 0),
{
    KeyButMask::from(mask).intersects(flags)
}

/// x11rb's `KeyButMask::BUTTON1`, as bits.
#[verifier::external_body]
pub(crate) fn button1() -> (mask: u16)
    ensures
        mask == 0x100,
{
    u16::from(KeyButMask::BUTTON1)
}

/// x11rb's `KeyButMask::BUTTON2`, as bits.
#[verifier::external_body]
pub(crate) fn button2() -> (mask: u16)
    ensures
        mask == 0x200,
{
    u16::from(KeyButMask::BUTTON2)
}

/// x11rb's `KeyButMask::BUTTON3`, as bits.
#[verifier::external_body]
pub(crate) fn button3() -> (mask: u16)
    ensures
        mask == 0x400,
{
    u16::from(KeyButMask::BUTTON3)
}

/// x11rb's `AtomEnum::PRIMARY`, as an atom.
#[verifier::external_body]
pub(crate) fn primary_atom() -> (atom: u32)
    ensures
        atom == 1,
{
    u32::from(AtomEnum::PRIMARY)
}

/// x11rb's `NONE`, the null atom.
#[verifier::external_body]
pub(crate) fn null_atom() -> (atom: u32)
    ensures
        atom == 0,
{
    x11rb::NONE
}

/// Bold text in one of the terminal's colours on another, up to a reset.
pub open spec fn bold_in(text: Seq<char>, fg: u8, bg: u8) -> Seq<char> {
    "\x1b[38;5;"@ + decimal(fg as nat) + ";48;5;"@ + decimal(bg as nat) + ";1m"@ + text
        + "\x1b[0m"@
}

/// Calls crust's `style::styled` with a foreground, a background and the
/// attribute of bold: one escape sequence that sets the three, the text as it
/// is, and a reset.
#[verifier::external_body]
pub(crate) fn styled(text: &str, fg: u8, bg: u8, attrs: &str) -> (out: String)
    requires
        attrs@ == "b"@,
    ensures
        out@ == bold_in(text@, fg, bg),
{
    crust::style::styled(text, Some(fg), Some(bg), attrs)
}

} // verus!
