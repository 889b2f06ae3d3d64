//! Character classes: Unicode `White_Space`, written out as `char::is_whitespace` reports it, and
//! `XID_Start` / `XID_Continue` from the `unicode-ident` crate.
use vstd::prelude::*;

verus! {

/// Whether a character has the Unicode `White_Space` property, as `char::is_whitespace`
/// reports it: the controls U+0009 to U+000D, space, U+0085, no-break space, ogham space mark,
/// the spaces U+2000 to U+200A, the line and paragraph separators, narrow no-break space,
/// medium mathematical space and ideographic space.
pub open spec fn white_space(c: char) -> bool {
    let n = c as u32;
    ||| 0x09 <= n <= 0x0D
    ||| n == 0x20
    ||| n == 0x85
    ||| n == 0xA0
    ||| n == 0x1680
    ||| 0x2000 <= n <= 0x200A
    ||| n == 0x2028
    ||| n == 0x2029
    ||| n == 0x202F
    ||| n == 0x205F
    ||| n == 0x3000
}

/// Whether a character has the Unicode `XID_Start` property.
pub uninterp spec fn xid_start(c: char) -> bool;

/// Whether a character has the Unicode `XID_Continue` property.
pub uninterp spec fn xid_continue(c: char) -> bool;

/// ASCII letter.
pub open spec fn ascii_alpha(c: char) -> bool {
    ('a' <= c && c <= 'z') || ('A' <= c && c <= 'Z')
}

/// ASCII decimal digit.
pub open spec fn ascii_digit(c: char) -> bool {
    '0' <= c && c <= '9'
}

/// Whether `c` has the Unicode `White_Space` property, as `char::is_whitespace` reports it.
pub(crate) fn is_whitespace(c: char) -> (r: bool)
    ensures
        r == white_space(c),
{
    let n = c as u32;
    (0x09u32 <= n && n <= 0x0Du32) || n == 0x20u32 || n == 0x85u32 || n == 0xA0u32 || n == 0x1680u32 || (0x2000u32 <= n
        && n <= 0x200Au32) || n == 0x2028u32 || n == 0x2029u32 || n == 0x202Fu32 || n == 0x205Fu32 || n == 0x3000u32
}

/// `unicode_ident::is_xid_start`: reports the Unicode `XID_Start` property of `c`.
/// For ASCII input the crate answers from a bit table whose set bits are exactly the
/// ASCII letters, which the contract states; other characters are only named.
#[verifier::external_body]
pub(crate) fn is_xid_start(c: char) -> (r: bool)
    ensures
        r == xid_start(c),
        (c as u32) < 0x80 ==> (r <==> ascii_alpha(c)),
{
    unicode_ident::is_xid_start(c)
}

/// `unicode_ident::is_xid_continue`: reports the Unicode `XID_Continue` property of `c`.
/// For ASCII input the crate answers from a bit table whose set bits are exactly the
/// ASCII letters, digits and `_`, which the contract states; other characters are only named.
#[verifier::external_body]
pub(crate) fn is_xid_continue(c: char) -> (r: bool)
    ensures
        r == xid_continue(c),
        (c as u32) < 0x80 ==> (r <==> (ascii_alpha(c) || ascii_digit(c) || c == '_')),
{
    unicode_ident::is_xid_continue(c)
}

/// ASCII decimal digit test.
pub fn is_ascii_digit(c: char) -> (r: bool)
    ensures
        r == ascii_digit(c),
{
    '0' <= c && c <= '9'
}

} // verus!
