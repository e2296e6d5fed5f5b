//! Cookies of a request: read from its headers on the first lookup, kept
//! among its extensions for the later ones.

use crate::jar::{header_cookies, jar_cookies, jar_get, jar_new, parse_from_header, well_formed};
use crate::pair::Cookie;
use std::sync::Arc;
use vstd::prelude::*;

verus! {

/// `http::HeaderMap`, the headers of a request. Nothing is known of what
/// is inside but what `header_value` names.
#[verifier::external_type_specification]
#[verifier::external_body]
#[verifier::reject_recursive_types(T)]
pub struct ExHeaderMap<T>(http::HeaderMap<T>);

/// `http::header::HeaderValue`, the value of one header. Nothing is known
/// of what is inside but what `value_bytes` names.
#[verifier::external_type_specification]
#[verifier::external_body]
pub struct ExHeaderValue(http::header::HeaderValue);

/// `http::Extensions`, what is kept beside a request, one value of a type.
/// Nothing is known of what is inside but what `cached_data` names.
#[verifier::external_type_specification]
#[verifier::external_body]
pub struct ExExtensions(http::Extensions);

/// The bytes of a header value.
pub uninterp spec fn value_bytes(value: http::header::HeaderValue) -> Seq<u8>;

/// The bytes of the value that `HeaderMap::get` finds under `name`: the
/// first one, where the map holds several under that name.
pub uninterp spec fn header_value(headers: http::HeaderMap, name: Seq<char>) -> Option<Seq<u8>>;

/// The `CookieData` that a request's extensions hold, if they hold one.
pub uninterp spec fn cached_data(extensions: http::Extensions) -> Option<CookieData>;

/// The cookies that a request's extensions hold: those of the `CookieData`
/// among them, if there is one.
pub open spec fn cached_cookies(extensions: http::Extensions) -> Option<Map<Seq<char>, Seq<char>>> {
    match cached_data(extensions) {
        Some(kept) => Some(kept@),
        None => None,
    }
}

/// The name of the header that carries a request's cookies.
pub open spec fn cookie_header_name() -> Seq<char> {
    seq!['C', 'o', 'o', 'k', 'i', 'e']
}

/// Whether a header value's byte can stand in text: visible ASCII, a space
/// or a tab.
pub open spec fn is_visible_ascii(byte: u8) -> bool {
    32 <= byte < 127 || byte == 9
}

/// The text of a header value, each byte being one character, if each can
/// stand in text.
pub open spec fn value_text(bytes: Seq<u8>) -> Option<Seq<char>> {
    if forall|i: int| 0 <= i < bytes.len() ==> is_visible_ascii(#[trigger] bytes[i]) {
        Some(Seq::new(bytes.len(), |i: int| bytes[i] as char))
    } else {
        None
    }
}

/// The cookies of a request whose `Cookie` header has the value `raw`, or
/// has none. A request without the header has no cookies, nor has one whose
/// header is no text or is not well formed.
pub open spec fn request_cookies(raw: Option<Seq<u8>>) -> Map<Seq<char>, Seq<char>> {
    match raw {
        Some(bytes) => match value_text(bytes) {
            Some(text) => if well_formed(text) {
                header_cookies(text)
            } else {
                Map::empty()
            },
            None => Map::empty(),
        },
        None => Map::empty(),
    }
}

/// `HeaderMap::get` with a name given as text: the first value that the map
/// holds under the name, if it holds one. The call panics on a name of 65536
/// bytes or more; one of fewer than 16384 characters is shorter than that.
#[verifier::external_body]
pub(crate) fn header_get<'a>(headers: &'a http::HeaderMap, name: &str) -> (found: Option<
    &'a http::header::HeaderValue,
>)
    requires
        name@.len() < 16384,
    ensures
        match found {
            Some(value) => header_value(*headers, name@) == Some(value_bytes(*value)),
            None => header_value(*headers, name@) is None,
        },
{
    headers.get(name)
}

/// `HeaderValue::to_str`: the value as text, each byte being one character,
/// unless one of its bytes is neither visible ASCII nor a space nor a tab.
#[verifier::external_body]
pub(crate) fn value_to_str<'a>(value: &'a http::header::HeaderValue) -> (text: Option<&'a str>)
    ensures
        match text {
            Some(read) => value_text(value_bytes(*value)) == Some(read@),
            None => value_text(value_bytes(*value)) is None,
        },
{
    value.to_str().ok()
}

/// `Extensions::new`: extensions that hold nothing.
#[verifier::external_body]
pub(crate) fn extensions_new() -> (extensions: http::Extensions)
    ensures
        cached_data(extensions) is None,
{
    http::Extensions::new()
}

/// `Extensions::remove` for `CookieData`: takes out the one that the
/// extensions hold, if they hold one.
#[verifier::external_body]
pub(crate) fn extensions_remove(extensions: &mut http::Extensions) -> (taken: Option<CookieData>)
    ensures
        taken == cached_data(*old(extensions)),
        cached_data(*final(extensions)) is None,
{
    extensions.remove::<CookieData>()
}

/// `Extensions::insert` for `CookieData`: the extensions then hold `data`,
/// in place of any that they held.
#[verifier::external_body]
pub(crate) fn extensions_insert(extensions: &mut http::Extensions, data: CookieData)
    ensures
        cached_data(*final(extensions)) == Some(data),
{
    extensions.insert(data);
}

/// The cookies of one request, shared by whoever looked them up.
pub struct CookieData {
    pub(crate) content: Arc<cookie::CookieJar>,
}

impl View for CookieData {
    type V = Map<Seq<char>, Seq<char>>;

    closed spec fn view(&self) -> Map<Seq<char>, Seq<char>> {
        jar_cookies(*self.content)
    }
}

impl CookieData {
    /// The cookies of a request with the given headers, read from its
    /// `Cookie` header. There are none where the request has no such
    /// header, or one that is no text or is not well formed.
    pub fn from_headers(headers: &http::HeaderMap) -> (data: CookieData)
        ensures
            data@ == request_cookies(header_value(*headers, cookie_header_name())),
    {
        proof {
            reveal_strlit("Cookie");
            assert("Cookie"@ == cookie_header_name());
        }
        let jar = match header_get(headers, "Cookie") {
            Some(raw) => match value_to_str(raw) {
                Some(text) => match parse_from_header(text) {
                    Ok(jar) => jar,
                    Err(_) => jar_new(),
                },
                None => jar_new(),
            },
            None => jar_new(),
        };
        CookieData { content: Arc::new(jar) }
    }

    /// The cookie of the given name, if there is one. Names match exactly,
    /// letter case included.
    pub fn get(&self, name: &str) -> (found: Option<Cookie>)
        ensures
            found_pair(found) == lookup(self@, name@),
    {
        jar_get(&self.content, name)
    }
}

/// The name and the value that `cookies` hold under `name`, if they hold
/// one under it.
pub open spec fn lookup(cookies: Map<Seq<char>, Seq<char>>, name: Seq<char>) -> Option<
    (Seq<char>, Seq<char>),
> {
    if cookies.contains_key(name) {
        Some((name, cookies[name]))
    } else {
        None
    }
}

/// The name and the value of the cookie that a lookup found, if it found
/// one.
pub open spec fn found_pair(found: Option<Cookie>) -> Option<(Seq<char>, Seq<char>)> {
    match found {
        Some(cookie) => Some(cookie@),
        None => None,
    }
}

/// A request as a handler sees it: its headers, and the extensions that
/// handlers and middleware keep beside it.
pub struct Context {
    headers: http::HeaderMap,
    extensions: http::Extensions,
}

impl Context {
    /// The request's headers.
    pub closed spec fn spec_headers(&self) -> &http::HeaderMap {
        &self.headers
    }

    /// The request's extensions.
    pub closed spec fn spec_extensions(&self) -> &http::Extensions {
        &self.extensions
    }

    /// A request with the given headers and no extensions yet.
    pub fn new(headers: http::HeaderMap) -> (context: Context)
        ensures
            *context.headers() == headers,
            cached_data(*context.extensions()) is None,
    {
        Context { headers, extensions: extensions_new() }
    }

    /// The request's headers.
    #[verifier::when_used_as_spec(spec_headers)]
    pub fn headers(&self) -> (headers: &http::HeaderMap)
        ensures
            headers == self.spec_headers(),
    {
        &self.headers
    }

    /// The request's headers, to change them.
    pub fn headers_mut(&mut self) -> (headers: &mut http::HeaderMap)
        ensures
            *headers == *old(self).headers(),
            *final(self).headers() == *final(headers),
            *final(self).extensions() == *old(self).extensions(),
    {
        &mut self.headers
    }

    /// The request's extensions.
    #[verifier::when_used_as_spec(spec_extensions)]
    pub fn extensions(&self) -> (extensions: &http::Extensions)
        ensures
            extensions == self.spec_extensions(),
    {
        &self.extensions
    }

    /// The request's extensions, to change them.
    pub fn extensions_mut(&mut self) -> (extensions: &mut http::Extensions)
        ensures
            *extensions == *old(self).extensions(),
            *final(self).extensions() == *final(extensions),
            *final(self).headers() == *old(self).headers(),
    {
        &mut self.extensions
    }
}

/// Cached access to the cookies of a request.
pub trait ExtractCookies {
    /// The cookies that a lookup goes by.
    spec fn cookies(&self) -> Map<Seq<char>, Seq<char>>;

    /// The cookie of the given name, if the request has one. A lookup
    /// leaves what the next one goes by as it was.
    fn cookie(&mut self, name: &str) -> (found: Option<Cookie>)
        ensures
            found_pair(found) == lookup(old(self).cookies(), name@),
            final(self).cookies() == old(self).cookies(),
    ;
}

impl ExtractCookies for Context {
    /// The cookies kept among the extensions, or, where none are kept yet,
    /// those of the `Cookie` header.
    open spec fn cookies(&self) -> Map<Seq<char>, Seq<char>> {
        match cached_cookies(*self.extensions()) {
            Some(kept) => kept,
            None => request_cookies(header_value(*self.headers(), cookie_header_name())),
        }
    }

    /// The first lookup reads the `Cookie` header and keeps what it read
    /// among the extensions. Each later one goes by what is kept there and
    /// keeps it as it is, whatever has become of the headers since: the
    /// header is read once. The headers stay as they were.
    fn cookie(&mut self, name: &str) -> (found: Option<Cookie>)
        ensures
            match cached_data(*old(self).extensions()) {
                Some(kept) => cached_data(*final(self).extensions()) == Some(kept),
                None => cached_cookies(*final(self).extensions()) == Some(old(self).cookies()),
            },
            *final(self).headers() == *old(self).headers(),
    {
        let cookie_data = match extensions_remove(&mut self.extensions) {
            Some(kept) => kept,
            None => CookieData::from_headers(&self.headers),
        };
        let found = cookie_data.get(name);
        extensions_insert(&mut self.extensions, cookie_data);
        found
    }
}

} // verus!
