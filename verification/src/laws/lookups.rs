//! Lookups on a request: what they go by, and when they find nothing.

use crate::cookies::{
    cached_cookies, cookie_header_name, header_value, lookup, value_text, Context, ExtractCookies,
};
use crate::jar::well_formed;
use vstd::prelude::*;

verus! {

/// The header is read once. A lookup leaves among the extensions the
/// cookies that it went by; so the lookup after it goes by the same
/// cookies, and so does every later one, whatever has become of the headers
/// in between.
pub proof fn lemma_header_is_read_once(first: Context, then: Context, later: Context)
    requires
        cached_cookies(*then.extensions()) == Some(first.cookies()),
        cached_cookies(*later.extensions()) == cached_cookies(*then.extensions()),
    ensures
        then.cookies() == first.cookies(),
        later.cookies() == first.cookies(),
{
}

/// A request without a `Cookie` header, and with no cookies kept yet, has
/// no cookie of any name.
pub proof fn lemma_no_header_no_cookie(context: Context, name: Seq<char>)
    requires
        cached_cookies(*context.extensions()) is None,
        header_value(*context.headers(), cookie_header_name()) is None,
    ensures
        lookup(context.cookies(), name) is None,
{
}

/// A request whose `Cookie` header is no text, or is not well formed, and
/// with no cookies kept yet, has no cookie of any name: not even those of
/// the segments that are pairs.
pub proof fn lemma_bad_header_no_cookie(context: Context, name: Seq<char>)
    requires
        cached_cookies(*context.extensions()) is None,
        match header_value(*context.headers(), cookie_header_name()) {
            Some(bytes) => match value_text(bytes) {
                Some(text) => !well_formed(text),
                None => true,
            },
            None => false,
        },
    ensures
        lookup(context.cookies(), name) is None,
{
}

/// A lookup goes by the exact name: a cookie of another name, however
/// close, neither answers it nor stands in its way.
pub proof fn lemma_lookup_is_by_exact_name(
    cookies: Map<Seq<char>, Seq<char>>,
    name: Seq<char>,
    other: Seq<char>,
    value: Seq<char>,
)
    requires
        other != name,
    ensures
        lookup(cookies.insert(other, value), name) == lookup(cookies, name),
        lookup(cookies.insert(name, value), name) == Some((name, value)),
{
}

} // verus!
