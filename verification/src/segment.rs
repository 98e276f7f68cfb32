//! Unicode text segmentation (`unicode_segmentation`): UAX #29 word-boundary
//! segments and extended grapheme clusters, as `(start, length)` byte ranges.

use unicode_segmentation::UnicodeSegmentation;
use vstd::prelude::*;

use crate::boundary::{bytes_of, is_boundary};

verus! {

/// The UAX #29 word-boundary segments of a text, as `(byte start, byte length)`.
pub uninterp spec fn word_segments(s: Seq<char>) -> Seq<(usize, usize)>;

/// The extended grapheme clusters of a text, as `(byte start, byte length)`.
pub uninterp spec fn grapheme_segments(s: Seq<char>) -> Seq<(usize, usize)>;

/// Non-empty segments that follow one another from byte 0 to the end of `b`,
/// each starting and ending on a character boundary.
pub open spec fn tiles(b: Seq<u8>, segs: Seq<(usize, usize)>) -> bool {
    &&& (segs.len() == 0 <==> b.len() == 0)
    &&& segs.len() > 0 ==> segs[0].0 == 0 && segs.last().0 + segs.last().1 == b.len()
    &&& forall|k: int| 0 <= k < segs.len() - 1 ==> #[trigger] segs[k + 1].0 == segs[k].0 + segs[k].1
    &&& forall|k: int|
        0 <= k < segs.len() ==> #[trigger] segs[k].1 > 0 && is_boundary(b, segs[k].0 as int)
            && is_boundary(b, segs[k].0 + segs[k].1)
}

/// `UnicodeSegmentation::split_word_bound_indices`: the word-boundary segments
/// of `s` (their concatenation is `s`).
#[verifier::external_body]
pub(crate) fn word_bound_segments(s: &str) -> (r: Vec<(usize, usize)>)
    ensures
        r@ == word_segments(s@),
        tiles(bytes_of(s@), r@),
{
    s.split_word_bound_indices().map(|(start, word)| (start, word.len())).collect()
}

/// `UnicodeSegmentation::grapheme_indices(s, true)`: the extended grapheme
/// clusters of `s` (their concatenation is `s`).
#[verifier::external_body]
pub(crate) fn grapheme_clusters(s: &str) -> (r: Vec<(usize, usize)>)
    ensures
        r@ == grapheme_segments(s@),
        tiles(bytes_of(s@), r@),
{
    s.grapheme_indices(true).map(|(start, cluster)| (start, cluster.len())).collect()
}

/// Segments that tile `b` end strictly after they start, so there are at
/// most as many of them as bytes.
pub proof fn lemma_tiles_count(b: Seq<u8>, segs: Seq<(usize, usize)>, k: int)
    requires
        tiles(b, segs),
        0 <= k < segs.len(),
    ensures
        segs[k].0 >= k,
        segs[k].0 + segs[k].1 <= b.len(),
        segs[k].0 + segs[k].1 >= k + 1,
    decreases segs.len() - k,
{
    if k == 0 {
        assert(segs[0].1 > 0);
    }
    if k > 0 {
        lemma_tiles_start(segs, k);
    }
    if k < segs.len() - 1 {
        lemma_tiles_count(b, segs, k + 1);
        assert(segs[k + 1].0 == segs[k].0 + segs[k].1);
        assert(segs[k + 1].1 > 0);
    } else {
        assert(segs[k].0 + segs[k].1 == b.len());
    }
    assert(segs[k].1 > 0);
}

proof fn lemma_tiles_start(segs: Seq<(usize, usize)>, k: int)
    requires
        0 < k < segs.len(),
        segs[0].0 == 0,
        forall|j: int| 0 <= j < segs.len() - 1 ==> #[trigger] segs[j + 1].0 == segs[j].0 + segs[j].1,
        forall|j: int| 0 <= j < segs.len() ==> #[trigger] segs[j].1 > 0,
    ensures
        segs[k].0 >= k,
    decreases k,
{
    let j = k - 1;
    assert(segs[j].1 > 0);
    assert(segs[j + 1].0 == segs[j].0 + segs[j].1);
    if k > 1 {
        lemma_tiles_start(segs, k - 1);
    }
}

} // verus!
