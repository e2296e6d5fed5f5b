//! Splitting and joining: each undoes the other.

use crate::text::{lemma_split_at_first, lemma_split_without, split};
use vstd::prelude::*;

verus! {

/// The pieces put together again, `sep` standing between each two.
pub open spec fn join(pieces: Seq<Seq<char>>, sep: char) -> Seq<char>
    decreases pieces.len(),
{
    if pieces.len() == 0 {
        Seq::empty()
    } else if pieces.len() == 1 {
        pieces[0]
    } else {
        join(pieces.drop_last(), sep) + seq![sep] + pieces.last()
    }
}

/// Whether `sep` occurs nowhere in `s`.
pub open spec fn free_of(s: Seq<char>, sep: char) -> bool {
    forall|i: int| 0 <= i < s.len() ==> #[trigger] s[i] != sep
}

/// The pieces of two texts with a separator between them are the pieces of
/// the first, then those of the second.
pub proof fn lemma_split_concat(x: Seq<char>, y: Seq<char>, sep: char)
    ensures
        split(x + seq![sep] + y, sep) == split(x, sep) + split(y, sep),
    decreases x.len(),
{
    let whole = x + seq![sep] + y;
    x.index_of_first_ensures(sep);
    match x.index_of_first(sep) {
        Some(i) => {
            assert(whole[i] == sep);
            assert forall|j: int| 0 <= j < i implies whole[j] != sep by {
                assert(whole[j] == x[j]);
            }
            lemma_split_at_first(whole, sep, i);
            lemma_split_at_first(x, sep, i);
            assert(whole.take(i) == x.take(i));
            assert(whole.skip(i + 1) == x.skip(i + 1) + seq![sep] + y);
            lemma_split_concat(x.skip(i + 1), y, sep);
            assert(seq![x.take(i)] + (split(x.skip(i + 1), sep) + split(y, sep)) == (seq![
                x.take(i),
            ] + split(x.skip(i + 1), sep)) + split(y, sep));
        },
        None => {
            let n = x.len() as int;
            assert(whole[n] == sep);
            assert forall|j: int| 0 <= j < n implies whole[j] != sep by {
                assert(whole[j] == x[j]);
                assert(x.contains(x[j]));
            }
            lemma_split_at_first(whole, sep, n);
            assert forall|j: int| 0 <= j < x.len() implies x[j] != sep by {
                assert(x.contains(x[j]));
            }
            lemma_split_without(x, sep);
            assert(whole.take(n) == x);
            assert(whole.skip(n + 1) == y);
        },
    }
}

/// Splitting undoes joining: pieces that are free of the separator come
/// back as they were.
pub proof fn lemma_split_of_join(pieces: Seq<Seq<char>>, sep: char)
    requires
        pieces.len() > 0,
        forall|i: int| 0 <= i < pieces.len() ==> free_of(#[trigger] pieces[i], sep),
    ensures
        split(join(pieces, sep), sep) == pieces,
    decreases pieces.len(),
{
    if pieces.len() == 1 {
        assert(free_of(pieces[0], sep));
        lemma_split_without(pieces[0], sep);
    } else {
        let before = pieces.drop_last();
        assert forall|i: int| 0 <= i < before.len() implies free_of(#[trigger] before[i], sep) by {
            assert(before[i] == pieces[i]);
        }
        lemma_split_of_join(before, sep);
        lemma_split_concat(join(before, sep), pieces.last(), sep);
        assert(free_of(pieces[pieces.len() - 1], sep));
        lemma_split_without(pieces.last(), sep);
        assert(before + seq![pieces.last()] == pieces);
    }
}

/// Joining undoes splitting: a text has at least one piece, each piece is
/// free of the separator, and the pieces joined are the text.
pub proof fn lemma_join_of_split(s: Seq<char>, sep: char)
    ensures
        split(s, sep).len() > 0,
        forall|i: int| 0 <= i < split(s, sep).len() ==> free_of(#[trigger] split(s, sep)[i], sep),
        join(split(s, sep), sep) == s,
    decreases s.len(),
{
    s.index_of_first_ensures(sep);
    match s.index_of_first(sep) {
        Some(i) => {
            let head = s.take(i);
            let rest = s.skip(i + 1);
            lemma_join_of_split(rest, sep);
            lemma_split_at_first(s, sep, i);
            let pieces = split(s, sep);
            assert forall|j: int| 0 <= j < pieces.len() implies free_of(#[trigger] pieces[j], sep) by {
                if j == 0 {
                    assert(pieces[0] == head);
                } else {
                    assert(pieces[j] == split(rest, sep)[j - 1]);
                }
            }
            lemma_join_front(head, split(rest, sep), sep);
            assert(head + seq![sep] + rest == s);
        },
        None => {
            assert forall|j: int| 0 <= j < s.len() implies s[j] != sep by {
                assert(s.contains(s[j]));
            }
            lemma_split_without(s, sep);
        },
    }
}

proof fn lemma_join_front(head: Seq<char>, rest: Seq<Seq<char>>, sep: char)
    requires
        rest.len() > 0,
    ensures
        join(seq![head] + rest, sep) == head + seq![sep] + join(rest, sep),
    decreases rest.len(),
{
    let all = seq![head] + rest;
    if rest.len() == 1 {
        assert(all.drop_last() == seq![head]);
        assert(join(seq![head], sep) == head);
        assert(join(rest, sep) == rest[0]);
    } else {
        assert(all.drop_last() == seq![head] + rest.drop_last());
        assert(all.last() == rest.last());
        lemma_join_front(head, rest.drop_last(), sep);
        assert((head + seq![sep] + join(rest.drop_last(), sep)) + seq![sep] + rest.last() == head
            + seq![sep] + (join(rest.drop_last(), sep) + seq![sep] + rest.last()));
    }
}

} // verus!
