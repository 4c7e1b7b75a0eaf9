//! Identifiers of virtual LANs.

use crate::error::ApiError;
use crate::error::ApiErrorView;
use crate::outside::push_char;
use vstd::prelude::*;
use vstd::string::*;

verus! {

/// The greatest identifier that a VLAN can have.
pub const VLAN_MAX: u16 = 4094;

/// The decimal digit for `n`, which is less than 10.
pub open spec fn spec_decimal_digit(n: nat) -> char {
    if n == 0 {
        '0'
    } else if n == 1 {
        '1'
    } else if n == 2 {
        '2'
    } else if n == 3 {
        '3'
    } else if n == 4 {
        '4'
    } else if n == 5 {
        '5'
    } else if n == 6 {
        '6'
    } else if n == 7 {
        '7'
    } else if n == 8 {
        '8'
    } else {
        '9'
    }
}

/// The number that the decimal digit `c` stands for, if `c` is one.
pub open spec fn spec_digit_value(c: char) -> Option<nat> {
    if '0' <= c <= '9' {
        Some((c as nat - '0' as nat) as nat)
    } else {
        None
    }
}

/// `n` in decimal, without leading zeros.
pub open spec fn decimal_text(n: nat) -> Seq<char>
    decreases n,
{
    if n < 10 {
        seq![spec_decimal_digit(n)]
    } else {
        decimal_text(n / 10).push(spec_decimal_digit(n % 10))
    }
}

/// Why a text is no 16-bit number.
#[derive(Clone, Copy, Debug, PartialEq, Eq, Structural)]
pub enum ParseFault {
    /// The text is empty.
    Empty,
    /// The text holds something other than digits after an optional `+`, or
    /// no digit at all.
    InvalidDigit,
    /// The number does not fit in 16 bits.
    TooLarge,
}

impl ParseFault {
    pub open spec fn spec_message(self) -> Seq<char> {
        match self {
            ParseFault::Empty => "cannot parse integer from empty string"@,
            ParseFault::InvalidDigit => "invalid digit found in string"@,
            ParseFault::TooLarge => "number too large to fit in target type"@,
        }
    }

    /// The text that reports the fault.
    pub fn message(self) -> (r: &'static str)
        ensures
            r@ == self.spec_message(),
    {
        match self {
            ParseFault::Empty => "cannot parse integer from empty string",
            ParseFault::InvalidDigit => "invalid digit found in string",
            ParseFault::TooLarge => "number too large to fit in target type",
        }
    }
}

/// The number that the digits of `s` from position `i` on add to `acc`,
/// read from left to right, or the first fault met on the way.
pub open spec fn scan_digits(s: Seq<char>, i: int, acc: nat) -> Result<u16, ParseFault>
    decreases s.len() - i,
{
    if i >= s.len() {
        Ok(acc as u16)
    } else {
        match spec_digit_value(s[i]) {
            None => Err(ParseFault::InvalidDigit),
            Some(d) => if acc * 10 + d > u16::MAX {
                Err(ParseFault::TooLarge)
            } else {
                scan_digits(s, i + 1, acc * 10 + d)
            },
        }
    }
}

/// The 16-bit number that `s` denotes: decimal digits, with `+` allowed in
/// front of them.
pub open spec fn parse_u16_spec(s: Seq<char>) -> Result<u16, ParseFault> {
    if s.len() == 0 {
        Err(ParseFault::Empty)
    } else {
        let start: int = if s[0] == '+' {
            1
        } else {
            0
        };
        if start >= s.len() {
            Err(ParseFault::InvalidDigit)
        } else {
            scan_digits(s, start, 0)
        }
    }
}

/// Reads a 16-bit number.
pub fn parse_u16(s: &str) -> (r: Result<u16, ParseFault>)
    ensures
        r == parse_u16_spec(s@),
{
    let n = s.unicode_len();
    if n == 0 {
        return Err(ParseFault::Empty);
    }
    let mut i: usize = if s.get_char(0) == '+' {
        1
    } else {
        0
    };
    if i >= n {
        return Err(ParseFault::InvalidDigit);
    }
    let mut acc: u16 = 0;
    while i < n
        invariant
            i <= n,
            n == s@.len(),
            n > 0,
            parse_u16_spec(s@) == scan_digits(s@, i as int, acc as nat),
        decreases n - i,
    {
        let c = s.get_char(i);
        if !(c >= '0' && c <= '9') {
            return Err(ParseFault::InvalidDigit);
        }
        let d: u16 = (c as u32 - '0' as u32) as u16;
        if acc > (u16::MAX - d) / 10 {
            assert(acc * 10 + d > u16::MAX);
            return Err(ParseFault::TooLarge);
        }
        acc = acc * 10 + d;
        i += 1;
    }
    Ok(acc)
}

/// Appends `n` in decimal to `text`.
pub fn push_decimal(text: &mut String, n: u16)
    ensures
        final(text)@ == old(text)@ + decimal_text(n as nat),
    decreases n,
{
    if n >= 10 {
        push_decimal(text, n / 10);
    }
    let d = n % 10;
    let c = if d == 0 {
        '0'
    } else if d == 1 {
        '1'
    } else if d == 2 {
        '2'
    } else if d == 3 {
        '3'
    } else if d == 4 {
        '4'
    } else if d == 5 {
        '5'
    } else if d == 6 {
        '6'
    } else if d == 7 {
        '7'
    } else if d == 8 {
        '8'
    } else {
        '9'
    };
    push_char(text, c);
    assert(final(text)@ =~= old(text)@ + decimal_text(n as nat));
}

/// The identifier of a VLAN: a number up to [`VLAN_MAX`].
#[derive(Clone, Copy, Debug, PartialEq, Eq, Structural)]
pub struct VlanID(u16);

/// The error for a number that is too large for a VLAN identifier: the
/// request is refused, and the message shows the number.
pub open spec fn vlan_out_of_range(id: u16) -> ApiErrorView {
    ApiErrorView::InvalidRequest { message: "Invalid VLAN value: "@ + decimal_text(id as nat) }
}

impl View for VlanID {
    type V = u16;

    closed spec fn view(&self) -> u16 {
        self.0
    }
}

impl VlanID {
    #[verifier::type_invariant]
    spec fn in_range(self) -> bool {
        self.0 <= VLAN_MAX
    }

    /// The VLAN identifier `id`, or the error that says that `id` is too
    /// large.
    pub fn new(id: u16) -> (r: Result<VlanID, ApiError>)
        ensures
            match r {
                Ok(vlan) => id <= VLAN_MAX && vlan@ == id,
                Err(e) => id > VLAN_MAX && e@ == vlan_out_of_range(id),
            },
    {
        if VLAN_MAX < id {
            let mut message = String::from_str("Invalid VLAN value: ");
            push_decimal(&mut message, id);
            return Err(ApiError::InvalidRequest { message });
        }
        Ok(VlanID(id))
    }

    /// The identifier as a number, which is at most [`VLAN_MAX`].
    pub fn get(&self) -> (id: u16)
        ensures
            id == self@,
            id <= VLAN_MAX,
    {
        proof {
            use_type_invariant(self);
        }
        self.0
    }

    /// The identifier in decimal.
    pub fn to_text(&self) -> (text: String)
        ensures
            text@ == decimal_text(self@ as nat),
    {
        let mut text = String::new();
        push_decimal(&mut text, self.0);
        assert(text@ =~= decimal_text(self@ as nat));
        text
    }

    /// Reads a VLAN identifier.  A text that is no 16-bit number is refused
    /// with the fault found in it; a number beyond [`VLAN_MAX`] is refused
    /// as [`VlanID::new`] refuses it.
    pub fn from_str(s: &str) -> (r: Result<VlanID, ApiError>)
        ensures
            match parse_u16_spec(s@) {
                Err(fault) => r matches Err(e) && e@ == (ApiErrorView::InvalidValue {
                    label: s@,
                    message: fault.spec_message(),
                }),
                Ok(id) => match r {
                    Ok(vlan) => id <= VLAN_MAX && vlan@ == id,
                    Err(e) => id > VLAN_MAX && e@ == vlan_out_of_range(id),
                },
            },
    {
        match parse_u16(s) {
            Err(fault) => Err(
                ApiError::InvalidValue {
                    label: String::from_str(s),
                    message: String::from_str(fault.message()),
                },
            ),
            Ok(id) => VlanID::new(id),
        }
    }
}

} // verus!
