//! Names of projects and instances.
//!
//! A name begins with a lower-case ASCII letter and goes on with lower-case
//! ASCII letters, digits and `-`, up to [`NAME_MAX_LENGTH`] characters in
//! all.  Names are ordered as dictionaries order words.

use crate::outside::push_char;
use vstd::prelude::*;
use vstd::string::*;
use vstd::utf8::is_ascii_chars;
use vstd::utf8::is_ascii_chars_encode_utf8;

verus! {

/// The greatest number of characters in a name.
pub const NAME_MAX_LENGTH: usize = 63;

/// Whether a name may begin with `c`.
pub open spec fn is_name_start(c: char) -> bool {
    'a' <= c <= 'z'
}

/// Whether `c` may stand in a name after its first character.
pub open spec fn is_name_char(c: char) -> bool {
    ('a' <= c <= 'z') || ('0' <= c <= '9') || c == '-'
}

/// The first character of `s` at or after position `from` that may not
/// stand in a name, if there is one.
pub open spec fn first_bad_char(s: Seq<char>, from: int) -> Option<char>
    decreases s.len() - from,
{
    if from >= s.len() {
        None
    } else if !is_name_char(s[from]) {
        Some(s[from])
    } else {
        first_bad_char(s, from + 1)
    }
}

/// Why a text is no name.
#[derive(Clone, Copy, Debug, PartialEq, Eq, Structural)]
pub enum NameError {
    /// The text has more than [`NAME_MAX_LENGTH`] characters.
    TooLong,
    /// The text is empty.
    Empty,
    /// The first character is no lower-case ASCII letter.
    BadStart,
    /// The text holds this character, which no name may hold.
    InvalidCharacter(char),
}

/// What is wrong with `s` as a name, if anything.  The checks come in this
/// order: the length, the first character, then the rest from left to right,
/// so that the character reported is the first that is out of place.
pub open spec fn name_fault(s: Seq<char>) -> Option<NameError> {
    if s.len() > NAME_MAX_LENGTH {
        Some(NameError::TooLong)
    } else if s.len() == 0 {
        Some(NameError::Empty)
    } else if !is_name_start(s[0]) {
        Some(NameError::BadStart)
    } else {
        match first_bad_char(s, 1) {
            Some(c) => Some(NameError::InvalidCharacter(c)),
            None => None,
        }
    }
}

/// Whether `s` is a name.
pub open spec fn is_name(s: Seq<char>) -> bool {
    &&& 1 <= s.len() <= NAME_MAX_LENGTH
    &&& is_name_start(s[0])
    &&& forall|i: int| 0 <= i < s.len() ==> is_name_char(#[trigger] s[i])
}

/// Whether `a` comes before `b` where only the characters from position
/// `from` on are looked at.
pub open spec fn lex_lt_from(a: Seq<char>, b: Seq<char>, from: int) -> bool
    decreases a.len() - from,
{
    if from >= b.len() {
        false
    } else if from >= a.len() {
        true
    } else if a[from] != b[from] {
        a[from] < b[from]
    } else {
        lex_lt_from(a, b, from + 1)
    }
}

/// Whether `a` comes before `b` in dictionary order: at the first position
/// where they differ `a` has the lesser character, or `a` ends there and `b`
/// goes on.
pub open spec fn lex_lt(a: Seq<char>, b: Seq<char>) -> bool {
    lex_lt_from(a, b, 0)
}

impl NameError {
    pub open spec fn spec_message(self) -> Seq<char> {
        match self {
            NameError::TooLong => "name may contain at most 63 characters"@,
            NameError::Empty => "name requires at least one character"@,
            NameError::BadStart => "name must begin with an ASCII lowercase character"@,
            NameError::InvalidCharacter(c) => "name contains invalid character: \""@.push(c)
                + "\" (allowed characters are lowercase ASCII, digits, and \"-\")"@,
        }
    }

    /// The text that reports the fault.  Where a character is out of place,
    /// the text shows it between double quotes.
    pub fn message(self) -> (text: String)
        ensures
            text@ == self.spec_message(),
    {
        match self {
            NameError::TooLong => String::from_str("name may contain at most 63 characters"),
            NameError::Empty => String::from_str("name requires at least one character"),
            NameError::BadStart => String::from_str(
                "name must begin with an ASCII lowercase character",
            ),
            NameError::InvalidCharacter(c) => {
                let mut text = String::from_str("name contains invalid character: \"");
                push_char(&mut text, c);
                text.append("\" (allowed characters are lowercase ASCII, digits, and \"-\")");
                text
            },
        }
    }
}

/// How one name stands to another in dictionary order.
#[derive(Clone, Copy, Debug, PartialEq, Eq, Structural)]
pub enum Precedence {
    Before,
    Same,
    After,
}

/// The precedence of `a` relative to `b`.
pub open spec fn precedence(a: Seq<char>, b: Seq<char>) -> Precedence {
    if lex_lt(a, b) {
        Precedence::Before
    } else if a == b {
        Precedence::Same
    } else {
        Precedence::After
    }
}

/// A validated name.
#[derive(Debug, PartialEq, Eq, PartialOrd, Ord, Hash)]
pub struct Name {
    text: String,
}

impl View for Name {
    type V = Seq<char>;

    closed spec fn view(&self) -> Seq<char> {
        self.text@
    }
}

impl Clone for Name {
    fn clone(&self) -> (r: Name)
        ensures
            r == *self,
    {
        proof {
            use_type_invariant(self);
        }
        Name { text: self.text.clone() }
    }
}

impl Name {
    #[verifier::type_invariant]
    spec fn valid(self) -> bool {
        is_name(self.text@)
    }

    /// Checks `value` and makes a name of it.
    pub fn new(value: &str) -> (r: Result<Name, NameError>)
        ensures
            match r {
                Ok(name) => name@ == value@ && name_fault(value@) is None && is_name(value@),
                Err(fault) => name_fault(value@) == Some(fault),
            },
    {
        let n = value.unicode_len();
        if n > NAME_MAX_LENGTH {
            return Err(NameError::TooLong);
        }
        if n == 0 {
            return Err(NameError::Empty);
        }
        let first = value.get_char(0);
        if !(first >= 'a' && first <= 'z') {
            return Err(NameError::BadStart);
        }
        let mut i: usize = 1;
        while i < n
            invariant
                1 <= i <= n <= NAME_MAX_LENGTH,
                n == value@.len(),
                is_name_start(value@[0]),
                forall|j: int| 0 <= j < i ==> is_name_char(#[trigger] value@[j]),
                first_bad_char(value@, 1) == first_bad_char(value@, i as int),
            decreases n - i,
        {
            let c = value.get_char(i);
            assert(first_bad_char(value@, i as int) == if !is_name_char(c) {
                Some(c)
            } else {
                first_bad_char(value@, i + 1)
            });
            if !((c >= 'a' && c <= 'z') || (c >= '0' && c <= '9') || c == '-') {
                return Err(NameError::InvalidCharacter(c));
            }
            i += 1;
        }
        assert(first_bad_char(value@, n as int) is None);
        assert(is_name(value@));
        Ok(Name { text: String::from_str(value) })
    }

    /// The name as text.  Every name that exists has passed the checks of
    /// [`Name::new`].
    pub fn as_str(&self) -> (r: &str)
        ensures
            r@ == self@,
            is_name(self@),
    {
        proof {
            use_type_invariant(self);
        }
        self.text.as_str()
    }

    /// How `self` stands to `other` in dictionary order.
    pub fn precedence(&self, other: &Name) -> (r: Precedence)
        ensures
            r == precedence(self@, other@),
    {
        proof {
            use_type_invariant(self);
            use_type_invariant(other);
        }
        let a = self.text.as_str();
        let b = other.text.as_str();
        proof {
            lemma_name_is_ascii(a@);
            lemma_name_is_ascii(b@);
            is_ascii_chars_encode_utf8(a@);
            is_ascii_chars_encode_utf8(b@);
        }
        let na = a.len();
        let nb = b.len();
        let mut i: usize = 0;
        while i < na && i < nb
            invariant
                i <= na,
                i <= nb,
                a@ == self@,
                b@ == other@,
                na == a@.len(),
                nb == b@.len(),
                is_ascii_chars(a@),
                is_ascii_chars(b@),
                forall|j: int| 0 <= j < i ==> a@[j] == b@[j],
                lex_lt(a@, b@) == lex_lt_from(a@, b@, i as int),
            decreases na - i,
        {
            let x = a.get_ascii(i);
            let y = b.get_ascii(i);
            proof {
                lemma_ascii_order(a@[i as int], b@[i as int]);
            }
            if x < y {
                return Precedence::Before;
            }
            if x > y {
                proof {
                    lemma_lex_lt_prefix(b@, a@, i as int);
                    lemma_lex_lt_asymmetric(a@, b@, 0);
                }
                return Precedence::After;
            }
            i += 1;
        }
        if i < nb {
            Precedence::Before
        } else if i < na {
            proof {
                lemma_lex_lt_prefix(b@, a@, i as int);
                lemma_lex_lt_asymmetric(a@, b@, 0);
            }
            Precedence::After
        } else {
            assert(a@ =~= b@);
            proof {
                lemma_lex_lt_irreflexive(a@, 0);
            }
            Precedence::Same
        }
    }
}

/// ASCII characters are ordered as their codes are.
pub proof fn lemma_ascii_order(c: char, d: char)
    requires
        '\0' <= c <= '\u{7f}',
        '\0' <= d <= '\u{7f}',
    ensures
        (c as u8) < (d as u8) <==> c < d,
        (c as u8) == (d as u8) <==> c == d,
{
}

/// A name holds ASCII characters only.
pub proof fn lemma_name_is_ascii(s: Seq<char>)
    requires
        is_name(s),
    ensures
        is_ascii_chars(s),
{
    assert forall|i: int| 0 <= i < s.len() implies '\0' <= #[trigger] s[i] <= '\u{7f}' by {
        assert(is_name_char(s[i]));
    }
}

/// Looking at `a` and `b` from position `from` on gives the same answer as
/// looking at all of them, where they agree before `from`.
pub proof fn lemma_lex_lt_prefix(a: Seq<char>, b: Seq<char>, from: int)
    requires
        0 <= from <= a.len(),
        from <= b.len(),
        forall|j: int| 0 <= j < from ==> a[j] == b[j],
    ensures
        lex_lt(a, b) == lex_lt_from(a, b, from),
    decreases from,
{
    if from > 0 {
        lemma_lex_lt_prefix(a, b, from - 1);
    }
}

/// No text comes before itself.
pub proof fn lemma_lex_lt_irreflexive(a: Seq<char>, from: int)
    ensures
        !lex_lt_from(a, a, from),
    decreases a.len() - from,
{
    if from < a.len() {
        lemma_lex_lt_irreflexive(a, from + 1);
    }
}

/// Of two texts at most one comes before the other.
pub proof fn lemma_lex_lt_asymmetric(a: Seq<char>, b: Seq<char>, from: int)
    ensures
        !(lex_lt_from(a, b, from) && lex_lt_from(b, a, from)),
    decreases a.len() - from,
{
    if from < a.len() && from < b.len() && a[from] == b[from] {
        lemma_lex_lt_asymmetric(a, b, from + 1);
    }
}

/// Of two different texts one comes before the other.
pub proof fn lemma_lex_lt_total(a: Seq<char>, b: Seq<char>)
    ensures
        lex_lt(a, b) || lex_lt(b, a) || a == b,
{
    if !lex_lt(a, b) && !lex_lt(b, a) {
        lemma_lex_lt_total_from(a, b, 0);
        assert(a =~= b);
    }
}

/// Where neither of two texts comes before the other from `from` on, they
/// have the same length and the same characters from `from` on.
pub proof fn lemma_lex_lt_total_from(a: Seq<char>, b: Seq<char>, from: int)
    requires
        0 <= from <= a.len(),
        from <= b.len(),
        !lex_lt_from(a, b, from),
        !lex_lt_from(b, a, from),
    ensures
        a.len() == b.len(),
        forall|j: int| from <= j < a.len() ==> a[j] == b[j],
    decreases a.len() - from,
{
    if from < a.len() && from < b.len() && a[from] == b[from] {
        lemma_lex_lt_total_from(a, b, from + 1);
    }
}

/// Dictionary order is transitive.
pub proof fn lemma_lex_lt_transitive(a: Seq<char>, b: Seq<char>, c: Seq<char>, from: int)
    requires
        lex_lt_from(a, b, from),
        lex_lt_from(b, c, from),
    ensures
        lex_lt_from(a, c, from),
    decreases a.len() - from,
{
    if from < a.len() && from < b.len() && from < c.len() && a[from] == b[from] && b[from]
        == c[from] {
        lemma_lex_lt_transitive(a, b, c, from + 1);
    }
}

/// A text that passes every check is a name, and a name passes every check:
/// checking the text of a name again yields the same name.
pub proof fn lemma_name_fault_none_iff_is_name(s: Seq<char>)
    ensures
        name_fault(s) is None <==> is_name(s),
{
    if s.len() >= 1 {
        lemma_first_bad_char(s, 1);
        if is_name_start(s[0]) {
            assert(is_name_char(s[0]));
        }
    }
}

/// `first_bad_char` finds the first character from `from` on that may not
/// stand in a name, and finds none only if there is none.
pub proof fn lemma_first_bad_char(s: Seq<char>, from: int)
    requires
        0 <= from,
    ensures
        match first_bad_char(s, from) {
            None => forall|i: int| from <= i < s.len() ==> is_name_char(#[trigger] s[i]),
            Some(c) => exists|i: int|
                {
                    &&& from <= i < s.len()
                    &&& #[trigger] s[i] == c
                    &&& !is_name_char(c)
                    &&& forall|j: int| from <= j < i ==> is_name_char(#[trigger] s[j])
                },
        },
    decreases s.len() - from,
{
    if from < s.len() {
        if is_name_char(s[from]) {
            lemma_first_bad_char(s, from + 1);
            match first_bad_char(s, from + 1) {
                None => {},
                Some(c) => {
                    let i = choose|i: int|
                        {
                            &&& from + 1 <= i < s.len()
                            &&& #[trigger] s[i] == c
                            &&& !is_name_char(c)
                            &&& forall|j: int| from + 1 <= j < i ==> is_name_char(#[trigger] s[j])
                        };
                    assert(from <= i < s.len() && s[i] == c);
                },
            }
        } else {
            assert(s[from] == s[from]);
        }
    }
}

/// Every rejection that blames a character names the first character of the
/// text that is out of place, and shows it in its message.
pub proof fn lemma_rejection_names_offender(s: Seq<char>, c: char)
    requires
        name_fault(s) == Some(NameError::InvalidCharacter(c)),
    ensures
        !is_name_char(c),
        exists|i: int|
            {
                &&& 1 <= i < s.len()
                &&& #[trigger] s[i] == c
                &&& forall|j: int| 1 <= j < i ==> is_name_char(#[trigger] s[j])
            },
        NameError::InvalidCharacter(c).spec_message() == "name contains invalid character: \""@
            + seq![c] + "\" (allowed characters are lowercase ASCII, digits, and \"-\")"@,
{
    lemma_first_bad_char(s, 1);
    assert("name contains invalid character: \""@.push(c)
        =~= "name contains invalid character: \""@ + seq![c]);
}

} // verus!
