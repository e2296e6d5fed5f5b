//! Trimming: what white space at the two ends of a text comes to.

use crate::text::{is_white_space, trim, trim_end, trim_start};
use vstd::prelude::*;

verus! {

/// Whether each character of `s` is white space.
pub open spec fn all_white_space(s: Seq<char>) -> bool {
    forall|i: int| 0 <= i < s.len() ==> is_white_space(#[trigger] s[i])
}

/// Trimming at the start takes away exactly the white space before the
/// first character that is none.
pub proof fn lemma_trim_start_skips(s: Seq<char>, k: int)
    requires
        0 <= k <= s.len(),
        all_white_space(s.take(k)),
        k < s.len() ==> !is_white_space(s[k]),
    ensures
        trim_start(s) == s.skip(k),
    decreases k,
{
    if k == 0 {
        assert(s.skip(0) == s);
    } else {
        assert(s.take(k)[0] == s[0]);
        let rest = s.drop_first();
        assert(rest.take(k - 1) == s.take(k).drop_first());
        assert(all_white_space(rest.take(k - 1))) by {
            assert forall|i: int| 0 <= i < k - 1 implies is_white_space(
                #[trigger] rest.take(k - 1)[i],
            ) by {
                assert(rest.take(k - 1)[i] == s.take(k)[i + 1]);
            }
        }
        lemma_trim_start_skips(rest, k - 1);
        assert(rest.skip(k - 1) == s.skip(k));
    }
}

/// Trimming at the end takes away exactly the white space after the last
/// character that is none.
pub proof fn lemma_trim_end_takes(s: Seq<char>, k: int)
    requires
        0 <= k <= s.len(),
        all_white_space(s.skip(k)),
        k > 0 ==> !is_white_space(s[k - 1]),
    ensures
        trim_end(s) == s.take(k),
    decreases s.len() - k,
{
    if k == s.len() {
        assert(s.take(k) == s);
    } else {
        assert(s.skip(k)[s.len() - k - 1] == s.last());
        let rest = s.drop_last();
        assert forall|i: int| 0 <= i < rest.skip(k).len() implies is_white_space(
            #[trigger] rest.skip(k)[i],
        ) by {
            assert(rest.skip(k)[i] == s.skip(k)[i]);
        }
        lemma_trim_end_takes(rest, k);
        assert(rest.take(k) == s.take(k));
    }
}

/// Text that neither starts nor ends with white space is its own trimmed
/// form.
pub proof fn lemma_trim_keeps_tight_text(s: Seq<char>)
    requires
        s.len() > 0 ==> !is_white_space(s.first()) && !is_white_space(s.last()),
    ensures
        trim(s) == s,
{
}

/// White space around a text does not change its trimmed form.
pub proof fn lemma_trim_ignores_padding(left: Seq<char>, s: Seq<char>, right: Seq<char>)
    requires
        all_white_space(left),
        all_white_space(right),
    ensures
        trim(left + s + right) == trim(s),
{
    let padded = left + s + right;
    let k = leading_white_space(s);
    lemma_leading_white_space(s);
    // the start
    assert(padded.take(left.len() + k) == left + s.take(k));
    assert(all_white_space(padded.take(left.len() + k))) by {
        assert forall|i: int| 0 <= i < left.len() + k implies is_white_space(
            #[trigger] padded.take(left.len() + k)[i],
        ) by {
            if i < left.len() {
                assert(padded.take(left.len() + k)[i] == left[i]);
            } else {
                assert(padded.take(left.len() + k)[i] == s.take(k)[i - left.len()]);
            }
        }
    }
    lemma_trim_start_skips(s, k);
    if k < s.len() {
        assert(padded[left.len() + k] == s[k]);
        lemma_trim_start_skips(padded, left.len() + k);
        assert(padded.skip(left.len() + k) == s.skip(k) + right);
        let tail = s.skip(k);
        let m = tail.len() - trailing_white_space(tail);
        lemma_trailing_white_space(tail);
        lemma_trim_end_takes(tail, m);
        let padded_tail = tail + right;
        assert(padded_tail.skip(m) == tail.skip(m) + right);
        assert(all_white_space(padded_tail.skip(m))) by {
            assert forall|i: int| 0 <= i < padded_tail.skip(m).len() implies is_white_space(
                #[trigger] padded_tail.skip(m)[i],
            ) by {
                if i < tail.skip(m).len() {
                    assert(padded_tail.skip(m)[i] == tail.skip(m)[i]);
                } else {
                    assert(padded_tail.skip(m)[i] == right[i - tail.skip(m).len()]);
                }
            }
        }
        assert(m > 0) by {
            if m == 0 {
                assert(tail.skip(0)[0] == s[k]);
            }
        }
        assert(padded_tail[m - 1] == tail[m - 1]);
        lemma_trim_end_takes(padded_tail, m);
        assert(padded_tail.take(m) == tail.take(m));
    } else {
        // `s` is white space throughout, and so is the padded text
        assert(s.take(k) == s);
        assert(padded.take(left.len() + k) + right == padded);
        assert(all_white_space(padded)) by {
            assert forall|i: int| 0 <= i < padded.len() implies is_white_space(
                #[trigger] padded[i],
            ) by {
                if i < left.len() + k {
                    assert(padded[i] == padded.take(left.len() + k)[i]);
                } else {
                    assert(padded[i] == right[i - left.len() - k]);
                }
            }
        }
        assert(padded.take(padded.len() as int) == padded);
        lemma_trim_start_skips(padded, padded.len() as int);
        assert(padded.skip(padded.len() as int) == Seq::<char>::empty());
        assert(s.skip(k) == Seq::<char>::empty());
    }
}

/// How many characters of white space `s` starts with.
spec fn leading_white_space(s: Seq<char>) -> int
    decreases s.len(),
{
    if s.len() > 0 && is_white_space(s.first()) {
        1 + leading_white_space(s.drop_first())
    } else {
        0
    }
}

/// How many characters of white space `s` ends with.
spec fn trailing_white_space(s: Seq<char>) -> int
    decreases s.len(),
{
    if s.len() > 0 && is_white_space(s.last()) {
        1 + trailing_white_space(s.drop_last())
    } else {
        0
    }
}

proof fn lemma_leading_white_space(s: Seq<char>)
    ensures
        0 <= leading_white_space(s) <= s.len(),
        all_white_space(s.take(leading_white_space(s))),
        leading_white_space(s) < s.len() ==> !is_white_space(s[leading_white_space(s)]),
    decreases s.len(),
{
    if s.len() > 0 && is_white_space(s.first()) {
        let rest = s.drop_first();
        lemma_leading_white_space(rest);
        let k = leading_white_space(rest);
        assert forall|i: int| 0 <= i < k + 1 implies is_white_space(#[trigger] s.take(k + 1)[i]) by {
            if i > 0 {
                assert(s.take(k + 1)[i] == rest.take(k)[i - 1]);
            }
        }
    }
}

proof fn lemma_trailing_white_space(s: Seq<char>)
    ensures
        0 <= trailing_white_space(s) <= s.len(),
        all_white_space(s.skip(s.len() - trailing_white_space(s))),
        trailing_white_space(s) < s.len() ==> !is_white_space(
            s[s.len() - trailing_white_space(s) - 1],
        ),
    decreases s.len(),
{
    if s.len() > 0 && is_white_space(s.last()) {
        let rest = s.drop_last();
        lemma_trailing_white_space(rest);
        let k = trailing_white_space(rest);
        let from = s.len() - k - 1;
        assert forall|i: int| 0 <= i < k + 1 implies is_white_space(#[trigger] s.skip(from)[i]) by {
            if i < k {
                assert(s.skip(from)[i] == rest.skip(rest.len() - k)[i]);
            }
        }
    }
}

} // verus!
