//! One cookie: a name and a value, and the text form `name=value` that a
//! request header carries it in.

use crate::text::trim;
use vstd::prelude::*;

verus! {

/// A cookie: a name and a value.
#[derive(Debug, PartialEq, Eq)]
pub struct Cookie {
    pub(crate) name: String,
    pub(crate) value: String,
}

impl View for Cookie {
    type V = (Seq<char>, Seq<char>);

    closed spec fn view(&self) -> (Seq<char>, Seq<char>) {
        (self.name@, self.value@)
    }
}

impl Cookie {
    /// A cookie with the given name and value.
    pub fn new(name: String, value: String) -> (cookie: Cookie)
        ensures
            cookie@ == (name@, value@),
    {
        Cookie { name, value }
    }

    /// The cookie's name.
    pub fn name(&self) -> (name: &str)
        ensures
            name@ == self@.0,
    {
        self.name.as_str()
    }

    /// The cookie's value.
    pub fn value(&self) -> (value: &str)
        ensures
            value@ == self@.1,
    {
        self.value.as_str()
    }
}

impl Clone for Cookie {
    fn clone(&self) -> (copy: Cookie)
        ensures
            copy@ == self@,
    {
        Cookie { name: self.name.clone(), value: self.value.clone() }
    }
}

/// A segment of a `Cookie` header that is no `name=value` pair.
#[derive(Clone, Copy, Debug, PartialEq, Eq)]
pub struct CookieParseError;

/// `s` without the double quotes around it, if it stands between two.
pub open spec fn unquote(s: Seq<char>) -> Seq<char> {
    if s.len() >= 2 && s.first() == '"' && s.last() == '"' {
        s.subrange(1, s.len() - 1)
    } else {
        s
    }
}

/// The name that the pair `text` gives: what stands before its first `=`,
/// trimmed.
pub open spec fn pair_name(text: Seq<char>) -> Seq<char> {
    trim(text.take(text.index_of_first('=').unwrap()))
}

/// The value that the pair `text` gives: what stands after its first `=`,
/// trimmed, taken out of its double quotes, and trimmed again.
pub open spec fn pair_value(text: Seq<char>) -> Seq<char> {
    trim(unquote(trim(text.skip(text.index_of_first('=').unwrap() + 1))))
}

/// Whether `text` is a pair: it holds a `=`, and a name before it.
pub open spec fn is_pair(text: Seq<char>) -> bool {
    text.contains('=') && pair_name(text).len() > 0
}

/// `cookie::ParseError`, the reason why `cookie::Cookie::parse` failed. It
/// is handed on unread.
#[verifier::external_type_specification]
#[verifier::external_body]
pub struct ExParseError(cookie::ParseError);

/// `cookie::Cookie::parse` on text without a `;`, so without attributes. It
/// fails where the text has no `=` or no name before it, and otherwise gives
/// the name and the value as `pair_name` and `pair_value` state them.
#[verifier::external_body]
pub(crate) fn parse_pair(text: &str) -> (parsed: Result<Cookie, cookie::ParseError>)
    requires
        !text@.contains(';'),
    ensures
        parsed is Ok <==> is_pair(text@),
        parsed matches Ok(cookie) ==> cookie@ == (pair_name(text@), pair_value(text@)),
{
    cookie::Cookie::parse(text.to_owned()).map(
        |parsed| Cookie::new(parsed.name().to_owned(), parsed.value().to_owned()),
    )
}

} // verus!
