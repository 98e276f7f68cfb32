//! Pointer-driven selection: word and line ranges under the pointer, and the
//! caret/anchor a press, double/triple press or drag produces.

use vstd::prelude::*;
use vstd::utf8::*;

use crate::boundary::{
    bytes_of, is_boundary, lemma_boundary_equiv, lemma_line_range_boundaries, line_range_at,
    line_range_spec, min_int,
};
use crate::segment::{tiles, word_bound_segments, word_segments};

verus! {

broadcast use vstd::utf8::group_utf8_lib;

/// The semantic phase of a pointer-selection gesture in an editable text
/// control. Hosts send one of the press variants followed by `Drag` while the
/// primary button remains down.
#[derive(Debug, Clone, Copy, PartialEq, Eq, Structural)]
pub enum TextPointerAction {
    /// A normal press, or a Shift-press when `extend` is true.
    Place { extend: bool },
    /// Select the Unicode word-boundary segment under the pointer.
    SelectWord,
    /// Select the pointer's logical line; selects all in a single-line input.
    SelectLine,
    /// Add or remove a collapsed caret without disturbing existing selections.
    AddCaret,
    /// Extend the selection from the press that started the current gesture.
    Drag,
}

/// The unit a pointer gesture selects by.
#[derive(Debug, Clone, Copy, PartialEq, Eq, Structural)]
pub enum PointerGranularity {
    Character,
    Word,
    Line,
}

/// The range selected by the press that started the current gesture.
#[derive(Debug, Clone, Copy, PartialEq, Eq, Structural)]
pub struct PointerOrigin {
    pub start: usize,
    pub end: usize,
    pub granularity: PointerGranularity,
}

/// The first word segment containing `i`.
pub open spec fn segment_containing(segs: Seq<(usize, usize)>, i: int, k: int) -> (int, int)
    decreases segs.len() - k,
{
    if k < 0 || k >= segs.len() {
        (i, i)
    } else if segs[k].0 <= i < segs[k].0 + segs[k].1 {
        (segs[k].0 as int, segs[k].0 + segs[k].1)
    } else {
        segment_containing(segs, i, k + 1)
    }
}

/// The word-boundary segment containing `i` (clamped); collapsed at the end.
pub open spec fn word_range_spec(s: Seq<char>, i: int) -> (int, int) {
    let len = bytes_of(s).len() as int;
    let i = min_int(i, len);
    if i == len {
        (i, i)
    } else {
        segment_containing(word_segments(s), i, 0)
    }
}

proof fn lemma_segment_containing(b: Seq<u8>, segs: Seq<(usize, usize)>, i: int, k: int)
    requires
        tiles(b, segs),
        0 <= i < b.len(),
        0 <= k,
        k < segs.len() ==> segs[k].0 <= i,
    ensures
        segment_containing(segs, i, k).0 <= i < segment_containing(segs, i, k).1 || (k >= segs.len()
            && segment_containing(segs, i, k) == (i, i)),
        k < segs.len() ==> segment_containing(segs, i, k).0 <= i < segment_containing(segs, i, k).1,
        k < segs.len() ==> is_boundary(b, segment_containing(segs, i, k).0) && is_boundary(
            b,
            segment_containing(segs, i, k).1,
        ),
    decreases segs.len() - k,
{
    if k < segs.len() {
        assert(segs[k].1 > 0);
        if !(segs[k].0 <= i < segs[k].0 + segs[k].1) {
            if k + 1 < segs.len() {
                assert(segs[k + 1].0 == segs[k].0 + segs[k].1);
            } else {
                assert(segs[k].0 + segs[k].1 == b.len());
            }
            lemma_segment_containing(b, segs, i, k + 1);
        }
    }
}

/// The word range under `i`, its ends on character boundaries and around `i`
/// when `i` lies inside the text.
pub proof fn lemma_word_range(s: Seq<char>, i: int)
    requires
        0 <= i,
        tiles(bytes_of(s), word_segments(s)),
    ensures
        is_boundary(bytes_of(s), min_int(i, bytes_of(s).len() as int)) ==> is_boundary(
            bytes_of(s),
            word_range_spec(s, i).0,
        ) && is_boundary(bytes_of(s), word_range_spec(s, i).1),
        i < bytes_of(s).len() ==> word_range_spec(s, i).0 <= i < word_range_spec(s, i).1,
        word_range_spec(s, i).0 <= word_range_spec(s, i).1 <= bytes_of(s).len(),
{
    let b = bytes_of(s);
    let segs = word_segments(s);
    if i < b.len() {
        assert(segs.len() > 0);
        lemma_segment_containing(b, segs, i, 0);
        let r = segment_containing(segs, i, 0);
        assert(r.1 <= b.len()) by {
            lemma_segment_end_bounded(b, segs, i, 0);
        }
    }
}

proof fn lemma_segment_end_bounded(b: Seq<u8>, segs: Seq<(usize, usize)>, i: int, k: int)
    requires
        tiles(b, segs),
        0 <= i < b.len(),
        0 <= k,
    ensures
        segment_containing(segs, i, k).1 <= b.len(),
    decreases segs.len() - k,
{
    if k < segs.len() {
        if segs[k].0 <= i < segs[k].0 + segs[k].1 {
            crate::segment::lemma_tiles_count(b, segs, k);
        } else {
            lemma_segment_end_bounded(b, segs, i, k + 1);
        }
    }
}

/// The Unicode word-boundary segment containing `i`. Word-like segments,
/// punctuation runs and whitespace runs stay distinct. A pointer at or beyond
/// the end produces a collapsed range at the end.
pub fn word_range_at(s: &str, i: usize) -> (r: (usize, usize))
    ensures
        r.0 == word_range_spec(s@, i as int).0,
        r.1 == word_range_spec(s@, i as int).1,
        r.0 <= r.1 <= bytes_of(s@).len(),
        (i as int) < bytes_of(s@).len() ==> r.0 <= i < r.1,
        is_boundary(bytes_of(s@), min_int(i as int, bytes_of(s@).len() as int)) ==> is_boundary(
            bytes_of(s@),
            r.0 as int,
        ) && is_boundary(bytes_of(s@), r.1 as int),
{
    let len = s.as_bytes().len();
    let ci = if i < len {
        i
    } else {
        len
    };
    if ci == len {
        proof {
            encode_utf8_valid_utf8(s@);
            is_char_boundary_start_end_of_seq(bytes_of(s@));
            lemma_boundary_equiv(bytes_of(s@), len as int);
        }
        return (ci, ci);
    }
    let segs = word_bound_segments(s);
    proof {
        lemma_word_range(s@, i as int);
    }
    let mut k: usize = 0;
    while k < segs.len()
        invariant
            segs@ == word_segments(s@),
            tiles(bytes_of(s@), segs@),
            (ci as int) < bytes_of(s@).len(),
            ci == i,
            bytes_of(s@).len() <= usize::MAX,
            word_range_spec(s@, i as int) == segment_containing(segs@, ci as int, 0),
            k <= segs@.len(),
            segment_containing(segs@, ci as int, 0) == segment_containing(
                segs@,
                ci as int,
                k as int,
            ),
        decreases segs@.len() - k,
    {
        let (start, seg_len) = segs[k];
        proof {
            crate::segment::lemma_tiles_count(bytes_of(s@), segs@, k as int);
        }
        if start <= ci && ci < start + seg_len {
            return (start, start + seg_len);
        }
        k = k + 1;
    }
    (ci, ci)
}

/// The caret/anchor a pointer action produces, and the gesture origin it
/// records for later drags.
pub open spec fn pointer_selection_spec(
    value: Seq<char>,
    anchor: int,
    origin: Option<PointerOrigin>,
    idx: int,
    action: TextPointerAction,
    multiline: bool,
) -> (int, int, Option<PointerOrigin>) {
    let len = bytes_of(value).len() as int;
    let idx = min_int(idx, len);
    match action {
        TextPointerAction::Place { extend } => if !extend {
            (
                idx,
                idx,
                Some(
                    PointerOrigin {
                        start: idx as usize,
                        end: idx as usize,
                        granularity: PointerGranularity::Character,
                    },
                ),
            )
        } else {
            (
                idx,
                anchor,
                Some(
                    PointerOrigin {
                        start: anchor as usize,
                        end: anchor as usize,
                        granularity: PointerGranularity::Character,
                    },
                ),
            )
        },
        TextPointerAction::SelectWord => {
            let (start, end) = word_range_spec(value, idx);
            (
                end,
                start,
                Some(
                    PointerOrigin {
                        start: start as usize,
                        end: end as usize,
                        granularity: PointerGranularity::Word,
                    },
                ),
            )
        },
        TextPointerAction::SelectLine => {
            let (start, end) = if multiline {
                line_range_spec(bytes_of(value), idx)
            } else {
                (0, len)
            };
            (
                end,
                start,
                Some(
                    PointerOrigin {
                        start: start as usize,
                        end: end as usize,
                        granularity: PointerGranularity::Line,
                    },
                ),
            )
        },
        TextPointerAction::AddCaret => (idx, anchor, origin),
        TextPointerAction::Drag => {
            let base = match origin {
                Some(o) => o,
                None => PointerOrigin {
                    start: anchor as usize,
                    end: anchor as usize,
                    granularity: PointerGranularity::Character,
                },
            };
            match base.granularity {
                PointerGranularity::Character => (idx, base.start as int, origin),
                _ => {
                    let (ts, te) = if base.granularity == PointerGranularity::Word {
                        word_range_spec(value, idx)
                    } else {
                        line_range_spec(bytes_of(value), idx)
                    };
                    if te <= base.start {
                        (ts, base.end as int, origin)
                    } else if ts >= base.end {
                        (te, base.start as int, origin)
                    } else {
                        (base.end as int, base.start as int, origin)
                    }
                },
            }
        },
    }
}

/// The origin lies on character boundaries of `b`.
pub open spec fn origin_on_boundaries(b: Seq<u8>, origin: Option<PointerOrigin>) -> bool {
    match origin {
        Some(o) => is_boundary(b, o.start as int) && is_boundary(b, o.end as int),
        None => true,
    }
}

/// Applies a pointer action (not `AddCaret`, which only the retained editor
/// state handles). Returns `(caret, anchor)` and updates the gesture origin
/// used by subsequent drags.
pub fn apply_pointer_selection(
    value: &str,
    anchor: usize,
    origin: &mut Option<PointerOrigin>,
    idx: usize,
    action: TextPointerAction,
    multiline: bool,
) -> (r: (usize, usize))
    requires
        action != TextPointerAction::AddCaret,
        is_boundary(bytes_of(value@), anchor as int),
        is_boundary(bytes_of(value@), min_int(idx as int, bytes_of(value@).len() as int)),
        action == TextPointerAction::Drag ==> origin_on_boundaries(bytes_of(value@), *old(origin)),
    ensures
        ({
            let spec_r = pointer_selection_spec(
                value@,
                anchor as int,
                *old(origin),
                idx as int,
                action,
                multiline,
            );
            &&& r.0 == spec_r.0
            &&& r.1 == spec_r.1
            &&& *final(origin) == spec_r.2
        }),
        is_boundary(bytes_of(value@), r.0 as int),
        is_boundary(bytes_of(value@), r.1 as int),
        origin_on_boundaries(bytes_of(value@), *final(origin)),
{
    let ghost b = bytes_of(value@);
    let len = value.as_bytes().len();
    let idx = if idx < len {
        idx
    } else {
        len
    };
    proof {
        encode_utf8_valid_utf8(value@);
        is_char_boundary_start_end_of_seq(b);
        lemma_boundary_equiv(b, 0);
        lemma_boundary_equiv(b, len as int);
        lemma_line_range_boundaries(b, idx as int);
    }
    match action {
        TextPointerAction::Place { extend } => {
            if !extend {
                *origin = Some(
                    PointerOrigin {
                        start: idx,
                        end: idx,
                        granularity: PointerGranularity::Character,
                    },
                );
                (idx, idx)
            } else {
                *origin = Some(
                    PointerOrigin {
                        start: anchor,
                        end: anchor,
                        granularity: PointerGranularity::Character,
                    },
                );
                (idx, anchor)
            }
        },
        TextPointerAction::SelectWord => {
            let (start, end) = word_range_at(value, idx);
            *origin = Some(PointerOrigin { start, end, granularity: PointerGranularity::Word });
            (end, start)
        },
        TextPointerAction::SelectLine => {
            let (start, end) = if multiline {
                line_range_at(value, idx)
            } else {
                (0, len)
            };
            *origin = Some(PointerOrigin { start, end, granularity: PointerGranularity::Line });
            (end, start)
        },
        TextPointerAction::AddCaret => (idx, anchor),
        TextPointerAction::Drag => {
            let base = match *origin {
                Some(o) => o,
                None => PointerOrigin {
                    start: anchor,
                    end: anchor,
                    granularity: PointerGranularity::Character,
                },
            };
            match base.granularity {
                PointerGranularity::Character => (idx, base.start),
                _ => {
                    let (target_start, target_end) = if base.granularity
                        == PointerGranularity::Word {
                        word_range_at(value, idx)
                    } else {
                        line_range_at(value, idx)
                    };
                    if target_end <= base.start {
                        (target_start, base.end)
                    } else if target_start >= base.end {
                        (target_end, base.start)
                    } else {
                        (base.end, base.start)
                    }
                },
            }
        },
    }
}

/// Which pointer hit drives the selection: word/line gestures select the text
/// *under* the pointer; caret placement uses the nearest caret boundary.
pub open spec fn pointer_index_spec(
    action: TextPointerAction,
    origin: Option<PointerOrigin>,
    caret_idx: usize,
    hit_idx: usize,
) -> usize {
    match action {
        TextPointerAction::SelectWord | TextPointerAction::SelectLine => hit_idx,
        TextPointerAction::Drag => match origin {
            Some(base) => if base.granularity != PointerGranularity::Character {
                hit_idx
            } else {
                caret_idx
            },
            None => caret_idx,
        },
        _ => caret_idx,
    }
}

pub fn pointer_selection_index(
    action: TextPointerAction,
    origin: Option<PointerOrigin>,
    caret_idx: usize,
    hit_idx: usize,
) -> (r: usize)
    ensures
        r == pointer_index_spec(action, origin, caret_idx, hit_idx),
{
    match action {
        TextPointerAction::SelectWord | TextPointerAction::SelectLine => hit_idx,
        TextPointerAction::Drag => match origin {
            Some(base) => if base.granularity != PointerGranularity::Character {
                hit_idx
            } else {
                caret_idx
            },
            None => caret_idx,
        },
        _ => caret_idx,
    }
}

} // verus!
