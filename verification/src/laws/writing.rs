//! Writing cookies out as a header and reading them back.

use crate::jar::{cookies_of, header_cookies, segment_accepted, segments, well_formed};
use crate::laws::splitting::{free_of, lemma_split_concat};
use crate::laws::trimming::{lemma_trim_ignores_padding, lemma_trim_keeps_tight_text};
use crate::pair::{is_pair, pair_name, pair_value, unquote};
use crate::text::{is_white_space, lemma_split_without, trim};
use vstd::prelude::*;

verus! {

/// A pair as a header carries it: the name, `=`, the value.
pub open spec fn pair_text(name: Seq<char>, value: Seq<char>) -> Seq<char> {
    name + seq!['='] + value
}

/// Whether a header can carry `name` as it stands: it is not empty, holds
/// neither `;` nor `=`, and neither starts nor ends with white space.
pub open spec fn is_plain_name(name: Seq<char>) -> bool {
    &&& name.len() > 0
    &&& free_of(name, ';')
    &&& free_of(name, '=')
    &&& !is_white_space(name.first())
    &&& !is_white_space(name.last())
}

/// Whether a header can carry `value` as it stands: it holds no `;`,
/// neither starts nor ends with white space, and does not stand between
/// double quotes.
pub open spec fn is_plain_value(value: Seq<char>) -> bool {
    &&& free_of(value, ';')
    &&& value.len() > 0 ==> !is_white_space(value.first()) && !is_white_space(value.last())
    &&& unquote(value) == value
}

/// Whether a header can carry each of the pairs as it stands.
pub open spec fn all_plain(pairs: Seq<(Seq<char>, Seq<char>)>) -> bool {
    forall|i: int|
        0 <= i < pairs.len() ==> is_plain_name((#[trigger] pairs[i]).0) && is_plain_value(
            pairs[i].1,
        )
}

/// The header that carries the pairs, in their order, `; ` between each
/// two.
pub open spec fn header_of(pairs: Seq<(Seq<char>, Seq<char>)>) -> Seq<char>
    decreases pairs.len(),
{
    if pairs.len() == 0 {
        Seq::empty()
    } else if pairs.len() == 1 {
        pair_text(pairs[0].0, pairs[0].1)
    } else {
        header_of(pairs.drop_last()) + seq![';', ' '] + pair_text(pairs.last().0, pairs.last().1)
    }
}

/// The cookies that the pairs make, a later pair replacing an earlier one
/// of the same name.
pub open spec fn cookies_from(pairs: Seq<(Seq<char>, Seq<char>)>) -> Map<Seq<char>, Seq<char>>
    decreases pairs.len(),
{
    if pairs.len() == 0 {
        Map::empty()
    } else {
        cookies_from(pairs.drop_last()).insert(pairs.last().0, pairs.last().1)
    }
}

/// A plain name and a plain value, written as a pair, are read back as
/// they were.
pub proof fn lemma_pair_reads_back(name: Seq<char>, value: Seq<char>)
    requires
        is_plain_name(name),
        is_plain_value(value),
    ensures
        free_of(pair_text(name, value), ';'),
        trim(pair_text(name, value)) == pair_text(name, value),
        is_pair(pair_text(name, value)),
        pair_name(pair_text(name, value)) == name,
        pair_value(pair_text(name, value)) == value,
{
    let text = pair_text(name, value);
    let at = name.len() as int;
    assert(text[at] == '=');
    assert(text.contains('='));
    assert forall|j: int| 0 <= j < at implies text[j] != '=' by {
        assert(text[j] == name[j]);
    }
    text.index_of_first_ensures('=');
    assert(text.index_of_first('=') == Some(at));
    assert(text.take(at) == name);
    assert(text.skip(at + 1) == value);
    lemma_trim_keeps_tight_text(name);
    lemma_trim_keeps_tight_text(value);
    assert(text.first() == name.first());
    assert(!is_white_space('='));
    assert(text.last() == if value.len() > 0 {
        value.last()
    } else {
        '='
    });
    lemma_trim_keeps_tight_text(text);
    assert forall|j: int| 0 <= j < text.len() implies text[j] != ';' by {
        if j < at {
            assert(text[j] == name[j]);
        } else if j > at {
            assert(text[j] == value[j - at - 1]);
        }
    }
}

/// Plain pairs, written as a header, are read back as the cookies that
/// they make.
pub proof fn lemma_header_reads_back(pairs: Seq<(Seq<char>, Seq<char>)>)
    requires
        all_plain(pairs),
    ensures
        well_formed(header_of(pairs)),
        header_cookies(header_of(pairs)) == cookies_from(pairs),
    decreases pairs.len(),
{
    let header = header_of(pairs);
    if pairs.len() == 0 {
        lemma_split_without(header, ';');
        assert(segments(header) == seq![header]);
        assert(seq![header].drop_last() == Seq::<Seq<char>>::empty());
        assert(cookies_of(Seq::<Seq<char>>::empty()) == Map::<Seq<char>, Seq<char>>::empty());
        assert(trim(header) == header);
    } else {
        let text = pair_text(pairs.last().0, pairs.last().1);
        assert(is_plain_name(pairs[pairs.len() - 1].0));
        lemma_pair_reads_back(pairs.last().0, pairs.last().1);
        if pairs.len() == 1 {
            lemma_split_without(text, ';');
            assert(segments(header) == seq![text]);
            assert(seq![text].drop_last() == Seq::<Seq<char>>::empty());
            assert(cookies_of(Seq::<Seq<char>>::empty()) == Map::<Seq<char>, Seq<char>>::empty());
            assert(cookies_from(pairs.drop_last()) == Map::<Seq<char>, Seq<char>>::empty());
        } else {
            let before = pairs.drop_last();
            assert forall|i: int| 0 <= i < before.len() implies is_plain_name(
                (#[trigger] before[i]).0,
            ) && is_plain_value(before[i].1) by {
                assert(before[i] == pairs[i]);
            }
            lemma_header_reads_back(before);
            let padded = seq![' '] + text;
            assert(header == header_of(before) + seq![';'] + padded);
            lemma_split_concat(header_of(before), padded, ';');
            assert forall|j: int| 0 <= j < padded.len() implies padded[j] != ';' by {
                if j > 0 {
                    assert(padded[j] == text[j - 1]);
                }
            }
            lemma_split_without(padded, ';');
            let earlier = segments(header_of(before));
            assert(segments(header) == earlier.push(padded));
            assert(earlier.push(padded).drop_last() == earlier);
            assert(padded == seq![' '] + text + Seq::<char>::empty());
            lemma_trim_ignores_padding(seq![' '], text, Seq::empty());
            assert(trim(padded) == text);
            assert forall|i: int| 0 <= i < segments(header).len() implies segment_accepted(
                #[trigger] segments(header)[i],
            ) by {
                if i < earlier.len() {
                    assert(segments(header)[i] == earlier[i]);
                }
            }
        }
    }
}

/// Reading, writing and reading again gives the same cookies: where plain
/// pairs list what a jar holds, each name at least once and nothing else,
/// the header that carries them is well formed and has the jar's cookies.
pub proof fn lemma_round_trip(cookies: Map<Seq<char>, Seq<char>>, pairs: Seq<(Seq<char>, Seq<char>)>)
    requires
        all_plain(pairs),
        forall|i: int|
            0 <= i < pairs.len() ==> cookies.contains_pair((#[trigger] pairs[i]).0, pairs[i].1),
        forall|name: Seq<char>| #[trigger]
            cookies.contains_key(name) ==> exists|i: int|
                0 <= i < pairs.len() && (#[trigger] pairs[i]).0 == name,
    ensures
        well_formed(header_of(pairs)),
        header_cookies(header_of(pairs)) == cookies,
{
    lemma_header_reads_back(pairs);
    lemma_cookies_from_listing(cookies, pairs);
    assert(cookies_from(pairs) =~= cookies) by {
        assert forall|name: Seq<char>| cookies.contains_key(name) implies cookies_from(
            pairs,
        ).contains_key(name) by {
            let i = choose|i: int| 0 <= i < pairs.len() && (#[trigger] pairs[i]).0 == name;
            assert(cookies_from(pairs).contains_key(pairs[i].0));
        }
    }
}

proof fn lemma_cookies_from_listing(
    cookies: Map<Seq<char>, Seq<char>>,
    pairs: Seq<(Seq<char>, Seq<char>)>,
)
    requires
        forall|i: int|
            0 <= i < pairs.len() ==> cookies.contains_pair((#[trigger] pairs[i]).0, pairs[i].1),
    ensures
        forall|name: Seq<char>| #[trigger]
            cookies_from(pairs).contains_key(name) ==> cookies.contains_pair(
                name,
                cookies_from(pairs)[name],
            ),
        forall|i: int| 0 <= i < pairs.len() ==> cookies_from(pairs).contains_key((#[trigger] pairs[i]).0),
    decreases pairs.len(),
{
    if pairs.len() > 0 {
        let before = pairs.drop_last();
        assert forall|i: int| 0 <= i < before.len() implies cookies.contains_pair(
            (#[trigger] before[i]).0,
            before[i].1,
        ) by {
            assert(before[i] == pairs[i]);
        }
        lemma_cookies_from_listing(cookies, before);
        assert(cookies.contains_pair(pairs[pairs.len() - 1].0, pairs[pairs.len() - 1].1));
        assert forall|name: Seq<char>| #[trigger]
            cookies_from(pairs).contains_key(name) implies cookies.contains_pair(
            name,
            cookies_from(pairs)[name],
        ) by {
            if name != pairs.last().0 {
                assert(cookies_from(before).contains_key(name));
            }
        }
        assert forall|i: int| 0 <= i < pairs.len() implies cookies_from(pairs).contains_key(
            (#[trigger] pairs[i]).0,
        ) by {
            if i < before.len() {
                assert(before[i] == pairs[i]);
            }
        }
    }
}

} // verus!
