//! What the description of an endpoint is made of: the name of its method
//! and the text of its documentation.

use vstd::prelude::*;
use vstd::string::*;

verus! {

/// The methods that an endpoint can be registered for.
#[derive(Clone, Copy, Debug, PartialEq, Eq, Structural)]
pub enum MethodType {
    DELETE,
    GET,
    PATCH,
    POST,
    PUT,
}

impl MethodType {
    pub open spec fn spec_as_str(self) -> Seq<char> {
        match self {
            MethodType::DELETE => "DELETE"@,
            MethodType::GET => "GET"@,
            MethodType::PATCH => "PATCH"@,
            MethodType::POST => "POST"@,
            MethodType::PUT => "PUT"@,
        }
    }

    /// The name of the method, in capitals.
    pub fn as_str(self) -> (r: &'static str)
        ensures
            r@ == self.spec_as_str(),
    {
        match self {
            MethodType::DELETE => "DELETE",
            MethodType::GET => "GET",
            MethodType::PATCH => "PATCH",
            MethodType::POST => "POST",
            MethodType::PUT => "PUT",
        }
    }
}

/// A line of documentation without the blank that sets it off from the
/// comment marker: a line that begins with exactly one blank loses it, every
/// other line stays as it is.
pub open spec fn trimmed_doc_line(line: Seq<char>) -> Seq<char> {
    if line.len() >= 1 && line[0] == ' ' && !(line.len() >= 2 && line[1] == ' ') {
        line.skip(1)
    } else {
        line
    }
}

/// The first `n` of `lines`, each trimmed, one after the other.
pub open spec fn joined_doc(lines: Seq<String>, n: int) -> Seq<char>
    decreases n,
{
    if n <= 0 {
        Seq::empty()
    } else {
        joined_doc(lines, n - 1) + trimmed_doc_line(lines[n - 1]@)
    }
}

/// The documentation that `lines` make, if there are any lines.
pub open spec fn doc_of(lines: Seq<String>) -> Option<Seq<char>> {
    if lines.len() == 0 {
        None
    } else {
        Some(joined_doc(lines, lines.len() as int))
    }
}

/// A line of documentation without the blank that sets it off from the
/// comment marker.
pub fn trim_doc_line(line: &str) -> (r: &str)
    ensures
        r@ == trimmed_doc_line(line@),
{
    let n = line.unicode_len();
    if n >= 1 && line.get_char(0) == ' ' && !(n >= 2 && line.get_char(1) == ' ') {
        let r = line.substring_char(1, n);
        assert(line@.subrange(1, n as int) =~= line@.skip(1));
        r
    } else {
        line
    }
}

/// The documentation of an item from the lines of its documentation
/// comments: the lines, each trimmed, one after the other; nothing where
/// there is no line.
pub fn extract_doc(lines: &Vec<String>) -> (r: Option<String>)
    ensures
        match r {
            Some(doc) => doc_of(lines@) == Some(doc@),
            None => doc_of(lines@) is None,
        },
{
    if lines.len() == 0 {
        return None;
    }
    let mut doc = String::new();
    let mut i: usize = 0;
    while i < lines.len()
        invariant
            i <= lines@.len(),
            doc@ == joined_doc(lines@, i as int),
        decreases lines@.len() - i,
    {
        doc.append(trim_doc_line(lines[i].as_str()));
        i += 1;
    }
    Some(doc)
}

} // verus!
