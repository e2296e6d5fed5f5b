//! The jar: the cookies of one `Cookie` header, by name.

use crate::pair::{is_pair, pair_name, pair_value, parse_pair, Cookie, CookieParseError};
use crate::text::{
    chars_of, find_from, lemma_split_at_first, lemma_split_without, split, trim, trim_bounds,
};
use vstd::prelude::*;
use vstd::string::StrSliceExecFns;

verus! {

/// `cookie::CookieJar`, a collection of cookies by name. Nothing is known
/// of what is inside but what `jar_cookies` names.
#[verifier::external_type_specification]
#[verifier::external_body]
pub struct ExCookieJar(cookie::CookieJar);

/// What a jar holds: the value of each cookie that `CookieJar::get` finds in
/// it, under the cookie's name.
pub uninterp spec fn jar_cookies(jar: cookie::CookieJar) -> Map<Seq<char>, Seq<char>>;

/// `cookie::CookieJar::new`: a jar that holds nothing.
#[verifier::external_body]
pub(crate) fn jar_new() -> (jar: cookie::CookieJar)
    ensures
        jar_cookies(jar) == (Map::<Seq<char>, Seq<char>>::empty()),
{
    cookie::CookieJar::new()
}

/// `cookie::CookieJar::add`: the jar then holds the cookie under its name,
/// in place of any that it held under that name, and the others as before.
#[verifier::external_body]
pub(crate) fn jar_add(jar: &mut cookie::CookieJar, cookie: Cookie)
    ensures
        jar_cookies(*final(jar)) == jar_cookies(*old(jar)).insert(cookie@.0, cookie@.1),
{
    jar.add(cookie::Cookie::new(cookie.name, cookie.value))
}

/// `cookie::CookieJar::get`: the cookie that the jar holds under `name`, if
/// it holds one.
#[verifier::external_body]
pub(crate) fn jar_get(jar: &cookie::CookieJar, name: &str) -> (found: Option<Cookie>)
    ensures
        found is Some <==> jar_cookies(*jar).contains_key(name@),
        found matches Some(cookie) ==> cookie@ == (name@, jar_cookies(*jar)[name@]),
{
    jar.get(name).map(|held| Cookie::new(held.name().to_owned(), held.value().to_owned()))
}

/// The segments of a header: the pieces between its semicolons.
pub open spec fn segments(header: Seq<char>) -> Seq<Seq<char>> {
    split(header, ';')
}

/// Whether a segment is accepted: trimmed, it is empty or a pair.
pub open spec fn segment_accepted(segment: Seq<char>) -> bool {
    trim(segment).len() == 0 || is_pair(trim(segment))
}

/// Whether a header is well formed: each of its segments is accepted.
pub open spec fn well_formed(header: Seq<char>) -> bool {
    forall|i: int| 0 <= i < segments(header).len() ==> segment_accepted(#[trigger] segments(header)[i])
}

/// The cookies that accepted segments give, later ones replacing earlier
/// ones of the same name. An empty segment gives none.
pub open spec fn cookies_of(segments: Seq<Seq<char>>) -> Map<Seq<char>, Seq<char>>
    decreases segments.len(),
{
    if segments.len() == 0 {
        Map::empty()
    } else {
        let earlier = cookies_of(segments.drop_last());
        let text = trim(segments.last());
        if text.len() == 0 {
            earlier
        } else {
            earlier.insert(pair_name(text), pair_value(text))
        }
    }
}

/// The cookies of a well-formed header.
pub open spec fn header_cookies(header: Seq<char>) -> Map<Seq<char>, Seq<char>> {
    cookies_of(segments(header))
}

/// Reads a `Cookie` header into a jar. The header is split at its
/// semicolons and each segment is trimmed; an empty segment is passed over,
/// any other has to be a `name=value` pair, and one that is not fails the
/// whole header. Where a name comes twice, the jar keeps the later value.
pub fn parse_from_header(s: &str) -> (parsed: Result<cookie::CookieJar, CookieParseError>)
    ensures
        parsed is Ok <==> well_formed(s@),
        parsed matches Ok(jar) ==> jar_cookies(jar) == header_cookies(s@),
{
    let chars = chars_of(s);
    let mut jar = jar_new();
    let mut from: usize = 0;
    let ghost mut done: Seq<Seq<char>> = Seq::empty();
    proof {
        assert(s@.skip(0) == s@);
        assert(done + segments(s@) == segments(s@));
    }
    loop
        invariant
            chars@ == s@,
            from <= chars.len(),
            segments(s@) == done + split(s@.skip(from as int), ';'),
            forall|i: int| 0 <= i < done.len() ==> segment_accepted(#[trigger] done[i]),
            jar_cookies(jar) == cookies_of(done),
        decreases chars.len() - from,
    {
        let to = find_from(&chars, from, ';');
        let (lo, hi) = trim_bounds(&chars, from, to);
        let ghost segment = s@.subrange(from as int, to as int);
        proof {
            let rest = s@.skip(from as int);
            assert(rest.take(to - from) == segment);
            if to < chars.len() {
                lemma_split_at_first(rest, ';', to - from);
                assert(rest.skip(to - from + 1) == s@.skip(to + 1));
            } else {
                lemma_split_without(rest, ';');
            }
            assert(segments(s@)[done.len() as int] == segment);
        }
        if lo < hi {
            let text = s.substring_char(lo, hi);
            match parse_pair(text) {
                Ok(cookie) => jar_add(&mut jar, cookie),
                Err(_) => {
                    return Err(CookieParseError);
                },
            }
        }
        proof {
            assert(done.push(segment).drop_last() == done);
            done = done.push(segment);
        }
        if to == chars.len() {
            assert(segments(s@) == done);
            return Ok(jar);
        }
        from = to + 1;
    }
}

} // verus!
