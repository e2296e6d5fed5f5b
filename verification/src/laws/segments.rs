//! The segments of a header: white space around them, bad ones among them,
//! and which of two with one name wins.

use crate::jar::{cookies_of, header_cookies, segment_accepted, segments, well_formed};
use crate::laws::splitting::{free_of, join, lemma_split_of_join};
use crate::pair::{pair_name, pair_value};
use crate::text::trim;
use vstd::prelude::*;

verus! {

/// Whether two lists of segments are alike but for the white space around
/// each segment.
pub open spec fn alike_up_to_padding(a: Seq<Seq<char>>, b: Seq<Seq<char>>) -> bool {
    &&& a.len() == b.len()
    &&& forall|i: int| 0 <= i < a.len() ==> trim(#[trigger] a[i]) == trim(b[i])
}

/// Segments that are alike but for the white space around them give the
/// same cookies.
pub proof fn lemma_cookies_ignore_padding(a: Seq<Seq<char>>, b: Seq<Seq<char>>)
    requires
        alike_up_to_padding(a, b),
    ensures
        cookies_of(a) == cookies_of(b),
    decreases a.len(),
{
    if a.len() > 0 {
        assert(trim(a[a.len() - 1]) == trim(b[a.len() - 1]));
        assert forall|i: int| 0 <= i < a.drop_last().len() implies trim(
            #[trigger] a.drop_last()[i],
        ) == trim(b.drop_last()[i]) by {
            assert(trim(a[i]) == trim(b[i]));
        }
        lemma_cookies_ignore_padding(a.drop_last(), b.drop_last());
    }
}

/// White space around the segments of a header is of no account: two
/// headers whose segments are alike but for it are well formed together,
/// and have the same cookies.
pub proof fn lemma_headers_ignore_padding(a: Seq<char>, b: Seq<char>)
    requires
        alike_up_to_padding(segments(a), segments(b)),
    ensures
        well_formed(a) == well_formed(b),
        header_cookies(a) == header_cookies(b),
{
    lemma_cookies_ignore_padding(segments(a), segments(b));
    assert forall|i: int| 0 <= i < segments(a).len() implies segment_accepted(segments(a)[i])
        == segment_accepted(segments(b)[i]) by {
        assert(trim(segments(a)[i]) == trim(segments(b)[i]));
    }
}

/// The same of headers written out: where each segment of one is the
/// segment of the other with white space around it, the two are well formed
/// together and have the same cookies.
pub proof fn lemma_padded_segments_read_alike(plain: Seq<Seq<char>>, padded: Seq<Seq<char>>)
    requires
        plain.len() > 0,
        alike_up_to_padding(plain, padded),
        forall|i: int| 0 <= i < plain.len() ==> free_of(#[trigger] plain[i], ';'),
        forall|i: int| 0 <= i < padded.len() ==> free_of(#[trigger] padded[i], ';'),
    ensures
        well_formed(join(plain, ';')) == well_formed(join(padded, ';')),
        header_cookies(join(plain, ';')) == header_cookies(join(padded, ';')),
{
    lemma_split_of_join(plain, ';');
    lemma_split_of_join(padded, ';');
    lemma_headers_ignore_padding(join(plain, ';'), join(padded, ';'));
}

/// One segment that is not accepted fails the whole header.
pub proof fn lemma_one_bad_segment_fails_the_header(header: Seq<char>, i: int)
    requires
        0 <= i < segments(header).len(),
        !segment_accepted(segments(header)[i]),
    ensures
        !well_formed(header),
{
}

/// The later of two segments with one name wins: a name has the value of
/// the last segment that gives it.
pub proof fn lemma_last_segment_wins(segments: Seq<Seq<char>>, i: int)
    requires
        0 <= i < segments.len(),
        trim(segments[i]).len() > 0,
        forall|j: int|
            i < j < segments.len() && trim(#[trigger] segments[j]).len() > 0 ==> pair_name(
                trim(segments[j]),
            ) != pair_name(trim(segments[i])),
    ensures
        cookies_of(segments).contains_key(pair_name(trim(segments[i]))),
        cookies_of(segments)[pair_name(trim(segments[i]))] == pair_value(trim(segments[i])),
    decreases segments.len(),
{
    if i < segments.len() - 1 {
        let before = segments.drop_last();
        assert(before[i] == segments[i]);
        assert forall|j: int| i < j < before.len() && trim(#[trigger] before[j]).len() > 0 implies
            pair_name(trim(before[j])) != pair_name(trim(before[i])) by {
            assert(before[j] == segments[j]);
        }
        lemma_last_segment_wins(before, i);
        assert(trim(segments[segments.len() - 1]).len() > 0 ==> pair_name(
            trim(segments[segments.len() - 1]),
        ) != pair_name(trim(segments[i])));
    }
}

/// Every cookie comes from a segment: a name that the cookies hold is the
/// name of some segment that is not empty.
pub proof fn lemma_cookies_come_from_segments(segments: Seq<Seq<char>>, name: Seq<char>)
    requires
        cookies_of(segments).contains_key(name),
    ensures
        exists|i: int|
            0 <= i < segments.len() && trim(#[trigger] segments[i]).len() > 0 && pair_name(
                trim(segments[i]),
            ) == name,
    decreases segments.len(),
{
    if segments.len() > 0 {
        let last = segments.len() - 1;
        if trim(segments[last]).len() > 0 && pair_name(trim(segments[last])) == name {
        } else {
            let before = segments.drop_last();
            lemma_cookies_come_from_segments(before, name);
            let i = choose|i: int|
                0 <= i < before.len() && trim(#[trigger] before[i]).len() > 0 && pair_name(
                    trim(before[i]),
                ) == name;
            assert(before[i] == segments[i]);
        }
    }
}

} // verus!
