//! Identifiers of objects: 128 bits, written as 32 hexadecimal digits in
//! groups of 8, 4, 4, 4 and 12.

use crate::outside::uuid_text;
use vstd::prelude::*;

verus! {

/// The number of characters in the text of an identifier.
pub const ID_TEXT_LENGTH: usize = 36;

/// The hexadecimal digit for `n`, which is less than 16.
pub open spec fn spec_hex_digit(n: u128) -> char {
    if n == 0 {
        '0'
    } else if n == 1 {
        '1'
    } else if n == 2 {
        '2'
    } else if n == 3 {
        '3'
    } else if n == 4 {
        '4'
    } else if n == 5 {
        '5'
    } else if n == 6 {
        '6'
    } else if n == 7 {
        '7'
    } else if n == 8 {
        '8'
    } else if n == 9 {
        '9'
    } else if n == 10 {
        'a'
    } else if n == 11 {
        'b'
    } else if n == 12 {
        'c'
    } else if n == 13 {
        'd'
    } else if n == 14 {
        'e'
    } else {
        'f'
    }
}

/// Whether a hyphen stands at position `i` of the text of an identifier.
pub open spec fn is_hyphen_position(i: int) -> bool {
    i == 8 || i == 13 || i == 18 || i == 23
}

/// The number of hexadecimal digits before position `i` of the text of an
/// identifier.
pub open spec fn digits_before(i: int) -> int {
    if i <= 8 {
        i
    } else if i <= 13 {
        i - 1
    } else if i <= 18 {
        i - 2
    } else if i <= 23 {
        i - 3
    } else {
        i - 4
    }
}

/// The `k`-th hexadecimal digit of `id`, counted from the most significant
/// one.
pub open spec fn spec_nibble(id: u128, k: int) -> u128 {
    (id >> ((4 * (31 - k)) as u128)) & 0xf
}

/// The character at position `i` of the text of `id`.
pub open spec fn id_char(id: u128, i: int) -> char {
    if is_hyphen_position(i) {
        '-'
    } else {
        spec_hex_digit(spec_nibble(id, digits_before(i)))
    }
}

/// The text of `id`: its 32 hexadecimal digits in lower case, most
/// significant first, with a hyphen after the 8th, 12th, 16th and 20th.
pub open spec fn spec_id_text(id: u128) -> Seq<char> {
    Seq::new(ID_TEXT_LENGTH as nat, |i: int| id_char(id, i))
}

/// The text of `id`, as the `uuid` crate writes it.
pub fn id_text(id: u128) -> (text: String)
    ensures
        text@ == spec_id_text(id),
        text@.len() == ID_TEXT_LENGTH,
{
    uuid_text(id)
}

} // verus!
