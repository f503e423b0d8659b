//! The POSIX path separator.

use vstd::prelude::*;

verus! {

/// The path separator as a character.
pub const SEP: char = '/';

/// The path separator as a byte.
pub const SEP_BYTE: u8 = 47;

/// Whether the given byte is the path separator.
pub fn is_sep_byte(u: &u8) -> (r: bool)
    ensures
        r == (*u == SEP_BYTE),
{
    *u == SEP_BYTE
}

/// Whether the given character is the path separator.
pub fn is_sep(c: char) -> (r: bool)
    ensures
        r == (c == SEP),
{
    c == SEP
}

} // verus!
