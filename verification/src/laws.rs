//! Properties of the editing, clipboard and pointer rules that span several
//! operations or hold for every input.

use vstd::prelude::*;
use vstd::utf8::*;

use crate::boundary::{bytes_of, is_boundary, line_end_spec, line_range_spec, lemma_line_range_boundaries, prev_boundary_spec, lemma_boundary_below, lemma_boundary_equiv, min_int};
use crate::clipboard::{
    clipboard_ranges, is_line_break, range_lt, strictly_sorted, unix_line_breaks,
    without_line_breaks,
};
use crate::dispatch::set_value_post;
use crate::display::display_spec;
use crate::edit::{
    dedup_secondary, first_index, mapped_secondary, motion_post, move_target, same_range, toggle_spec,
    EditKey, EditState,
};
use crate::pointer::{
    lemma_word_range, pointer_selection_spec, word_range_spec, PointerGranularity, PointerOrigin,
    TextPointerAction,
};
use crate::segment::{grapheme_segments, tiles, word_segments};
use crate::selection::{
    insert_sorted, normalize, raw_edits, replace_edits, replace_positions, sort_edits, splice,
    splice_prefix, Change, Edit, ReplaceMode,
};
use crate::small_vec::TextSelection;

verus! {

broadcast use vstd::utf8::group_utf8_lib;

// ---------------------------------------------------------------------------
// typing and deleting at a single caret
// ---------------------------------------------------------------------------

proof fn lemma_single_edit(b: Seq<u8>, s: TextSelection, mode: ReplaceMode, e: Edit)
    requires
        raw_edits(b, seq![s], mode)[0] == e,
    ensures
        replace_edits(b, seq![s], mode) == seq![e],
{
    let raw = raw_edits(b, seq![s], mode);
    assert(raw =~= seq![e]);
    assert(raw.drop_last() =~= Seq::<Edit>::empty());
    assert(sort_edits(Seq::<Edit>::empty()) == Seq::<Edit>::empty());
    assert(insert_sorted(Seq::<Edit>::empty(), e) == seq![e]);
    assert(sort_edits(raw) == seq![e]);
    assert(seq![e].drop_last() =~= Seq::<Edit>::empty());
    assert(normalize(Seq::<Edit>::empty()) == Seq::<Edit>::empty());
    assert(Seq::<Edit>::empty().push(e) =~= seq![e]);
    assert(normalize(seq![e]) == seq![e]);
}

/// The text and caret after replacing the single range `[start, end)` with `rb`.
proof fn lemma_single_splice(b: Seq<u8>, start: int, end: int, rb: Seq<u8>)
    requires
        0 <= start <= end <= b.len(),
        start <= usize::MAX,
        end <= usize::MAX,
    ensures
        splice(b, seq![Edit { start: start as usize, end: end as usize, primary: true }], rb)
            == b.subrange(0, start) + rb + b.subrange(end, b.len() as int),
        replace_positions(
            b,
            seq![Edit { start: start as usize, end: end as usize, primary: true }],
            rb,
        )[0] == start + rb.len(),
{
    let es = seq![Edit { start: start as usize, end: end as usize, primary: true }];
    assert(splice_prefix(b, es, rb, 0) == Seq::<u8>::empty());
    assert(splice_prefix(b, es, rb, 1) =~= b.subrange(0, start) + rb);
}

/// Typing at a single collapsed caret inserts the text there and leaves the
/// caret right after it.
pub proof fn law_typing_inserts_at_the_caret(b: Seq<u8>, caret: usize, rb: Seq<u8>)
    requires
        caret <= b.len(),
    ensures
        ({
            let es = replace_edits(b, seq![TextSelection { caret, anchor: caret }], ReplaceMode::Selection);
            &&& splice(b, es, rb) == b.subrange(0, caret as int) + rb + b.subrange(
                caret as int,
                b.len() as int,
            )
            &&& replace_positions(b, es, rb)[0] == caret + rb.len()
        }),
{
    let e = Edit { start: caret, end: caret, primary: true };
    lemma_single_edit(b, TextSelection { caret, anchor: caret }, ReplaceMode::Selection, e);
    lemma_single_splice(b, caret as int, caret as int, rb);
}

/// Typing over a selection replaces exactly the selected range, whichever
/// end the caret is at; after Select All it replaces the whole value.
pub proof fn law_typing_replaces_the_selection(b: Seq<u8>, caret: usize, anchor: usize, rb: Seq<u8>)
    requires
        caret <= b.len(),
        anchor <= b.len(),
    ensures
        ({
            let (start, end) = if caret <= anchor {
                (caret as int, anchor as int)
            } else {
                (anchor as int, caret as int)
            };
            let es = replace_edits(b, seq![TextSelection { caret, anchor }], ReplaceMode::Selection);
            &&& splice(b, es, rb) == b.subrange(0, start) + rb + b.subrange(end, b.len() as int)
            &&& replace_positions(b, es, rb)[0] == start + rb.len()
        }),
{
    let (start, end) = if caret <= anchor {
        (caret, anchor)
    } else {
        (anchor, caret)
    };
    let e = Edit { start, end, primary: true };
    lemma_single_edit(b, TextSelection { caret, anchor }, ReplaceMode::Selection, e);
    lemma_single_splice(b, start as int, end as int, rb);
}

/// Backspace at a single caret after the start removes exactly the character
/// before it and leaves the caret where that character began.
pub proof fn law_backspace_removes_the_previous_character(b: Seq<u8>, caret: usize)
    requires
        valid_utf8(b),
        0 < caret <= b.len(),
    ensures
        ({
            let p = prev_boundary_spec(b, caret as int);
            let es = replace_edits(b, seq![TextSelection { caret, anchor: caret }], ReplaceMode::Backspace);
            &&& 0 <= p < caret
            &&& is_boundary(b, p)
            &&& splice(b, es, Seq::empty()) == b.subrange(0, p) + b.subrange(caret as int, b.len() as int)
            &&& replace_positions(b, es, Seq::empty())[0] == p
        }),
{
    lemma_boundary_below(b, caret as int);
    let p = prev_boundary_spec(b, caret as int);
    assert(min_int(caret as int, b.len() as int) == caret);
    let e = Edit { start: p as usize, end: caret, primary: true };
    lemma_single_edit(b, TextSelection { caret, anchor: caret }, ReplaceMode::Backspace, e);
    lemma_single_splice(b, p, caret as int, Seq::empty());
    assert(b.subrange(0, p) + Seq::<u8>::empty() =~= b.subrange(0, p));
}

// ---------------------------------------------------------------------------
// caret motion and additional carets
// ---------------------------------------------------------------------------

proof fn lemma_dedup_distinct(rest: Seq<TextSelection>, primary: TextSelection)
    ensures
        ({
            let d = dedup_secondary(rest, primary);
            &&& forall|i: int| 0 <= i < d.len() ==> !same_range(#[trigger] d[i], primary)
            &&& forall|i: int, j: int|
                0 <= i < j < d.len() ==> !same_range(#[trigger] d[i], #[trigger] d[j])
        }),
    decreases rest.len(),
{
    if rest.len() > 0 {
        lemma_dedup_distinct(rest.drop_last(), primary);
        let d0 = dedup_secondary(rest.drop_last(), primary);
        let s = rest.last();
        if !(same_range(s, primary) || (exists|k: int| 0 <= k < d0.len() && same_range(d0[k], s))) {
            let d = d0.push(s);
            assert forall|i: int, j: int| 0 <= i < j < d.len() implies !same_range(
                #[trigger] d[i],
                #[trigger] d[j],
            ) by {
                if j == d0.len() {
                    assert(d[i] == d0[i]);
                    if same_range(d0[i], s) {
                        assert(exists|k: int| 0 <= k < d0.len() && same_range(d0[k], s));
                    }
                } else {
                    assert(d[i] == d0[i] && d[j] == d0[j]);
                }
            }
            assert forall|i: int| 0 <= i < d.len() implies !same_range(#[trigger] d[i], primary) by {
                if i < d0.len() {
                    assert(d[i] == d0[i]);
                }
            }
        }
    }
}

/// After any caret motion no two selections cover the same range: moved
/// selections that land on the primary's range, or on an earlier one's, are
/// dropped.
pub proof fn law_moved_selections_are_distinct(after: Seq<TextSelection>)
    requires
        after.len() > 0,
    ensures
        ({
            let d = mapped_secondary(after);
            &&& forall|i: int| 0 <= i < d.len() ==> !same_range(#[trigger] d[i], after[0])
            &&& forall|i: int, j: int|
                0 <= i < j < d.len() ==> !same_range(#[trigger] d[i], #[trigger] d[j])
        }),
{
    lemma_dedup_distinct(after.drop_first(), after[0]);
}

/// Adding a caret where there is none (and not on a collapsed primary) and
/// then toggling the same spot again restores the selections.
pub proof fn law_add_caret_twice_restores(
    caret: usize,
    anchor: usize,
    sec: Seq<TextSelection>,
    at: usize,
)
    requires
        !sec.contains(TextSelection { caret: at, anchor: at }),
        !(caret == at && anchor == at),
    ensures
        ({
            let once = toggle_spec(caret, anchor, sec, at);
            let twice = toggle_spec(once.0, once.1, once.2, at);
            &&& once.3 == Change::Caret
            &&& twice.3 == Change::Caret
            &&& twice.0 == caret
            &&& twice.1 == anchor
            &&& twice.2 == sec
        }),
{
    let hit = TextSelection { caret: at, anchor: at };
    let pushed = sec.push(hit);
    assert(pushed[sec.len() as int] == hit);
    assert(pushed.contains(hit));
    lemma_first_index_at_end(sec, hit, 0);
    assert(pushed.remove(sec.len() as int) =~= sec);
}

proof fn lemma_first_index_at_end(sec: Seq<TextSelection>, hit: TextSelection, k: int)
    requires
        !sec.contains(hit),
        0 <= k <= sec.len(),
    ensures
        first_index(sec.push(hit), hit, k) == sec.len(),
    decreases sec.len() - k,
{
    if k < sec.len() {
        assert(sec.push(hit)[k] == sec[k]);
        assert(sec[k] != hit);
        lemma_first_index_at_end(sec, hit, k + 1);
    }
}

// ---------------------------------------------------------------------------
// pointer gestures
// ---------------------------------------------------------------------------

/// A drag keeps the unit its gesture started with selected: after a
/// double-click (word) or triple-click (line) press, every drag position
/// yields a selection covering the pressed word or line, and a character
/// drag keeps the press point as the anchor.
pub proof fn law_drag_keeps_the_origin_selected(
    value: Seq<char>,
    anchor: int,
    origin: PointerOrigin,
    idx: int,
)
    requires
        origin.start <= origin.end,
        0 <= idx,
        tiles(bytes_of(value), word_segments(value)),
    ensures
        ({
            let r = pointer_selection_spec(
                value,
                anchor,
                Some(origin),
                idx,
                TextPointerAction::Drag,
                true,
            );
            &&& r.2 == Some(origin)
            &&& origin.granularity == PointerGranularity::Character ==> r.1 == origin.start
            &&& origin.granularity != PointerGranularity::Character ==> {
                let lo = if r.0 <= r.1 {
                    r.0
                } else {
                    r.1
                };
                let hi = if r.0 <= r.1 {
                    r.1
                } else {
                    r.0
                };
                lo <= origin.start && origin.end <= hi
            }
        }),
{
    let b = bytes_of(value);
    let i = min_int(idx, b.len() as int);
    lemma_word_range(value, idx);
    if i < b.len() {
        lemma_line_range_bounds(b, i);
    }
    let (ls, le) = line_range_spec(b, i);
    assert(ls <= le) by {
        lemma_line_range_bounds(b, i);
    }
}

/// A drag after a word or line press selects by whole units. When the pointer
/// has moved past the pressed unit, the selection keeps the pressed unit's
/// start as its anchor and runs through the end of the unit under the
/// pointer, so the pointer's position lies inside it; moved before the
/// pressed unit, it keeps the pressed unit's end and starts at the start of
/// the unit under the pointer. After a line press, a forward drag reaches at
/// least the end of the pointer's line (its newline, or the end of the text).
pub proof fn law_unit_drag_covers_the_unit_under_the_pointer(
    value: Seq<char>,
    anchor: int,
    origin: PointerOrigin,
    idx: int,
    multiline: bool,
)
    requires
        origin.granularity != PointerGranularity::Character,
        origin.start <= origin.end,
        0 <= idx,
        tiles(bytes_of(value), word_segments(value)),
    ensures
        ({
            let b = bytes_of(value);
            let m = min_int(idx, b.len() as int);
            let unit = if origin.granularity == PointerGranularity::Word {
                word_range_spec(value, idx)
            } else {
                line_range_spec(b, idx)
            };
            let r = pointer_selection_spec(
                value,
                anchor,
                Some(origin),
                idx,
                TextPointerAction::Drag,
                multiline,
            );
            &&& unit.0 >= origin.end ==> r.1 == origin.start && r.0 == unit.1 && origin.start
                <= m <= r.0
            &&& unit.1 <= origin.start && unit.0 < origin.end ==> r.1 == origin.end && r.0
                == unit.0 && r.0 <= m <= origin.end
            &&& origin.granularity == PointerGranularity::Line && unit.0 >= origin.end ==> r.0
                >= line_end_spec(b, m)
        }),
{
    let b = bytes_of(value);
    let i = min_int(idx, b.len() as int);
    lemma_word_range(value, idx);
    lemma_line_range_bounds(b, i);
    crate::boundary::lemma_last_newline(b, i);
    crate::boundary::lemma_first_newline(b, i);
    assert(line_range_spec(b, idx) == line_range_spec(b, i));
}

/// A plain Left or Right (no Shift, no word step) over a non-empty selection
/// does not move the caret by a character: it collapses the selection to its
/// start (Left) or its end (Right). This holds of every selection a key
/// moves, and of the primary one after the key.
pub proof fn law_plain_arrow_collapses_a_selection(
    pre: EditState,
    post: EditState,
    change: Change,
    s: TextSelection,
    b: Seq<u8>,
    multiline: bool,
)
    requires
        pre.caret != pre.anchor,
        s.caret != s.anchor,
    ensures
        ({
            let lo = if s.caret <= s.anchor { s.caret } else { s.anchor };
            move_target(b, EditKey::Left { select: false, word: false }, s, multiline)
                == TextSelection { caret: lo, anchor: lo }
        }),
        ({
            let hi = if s.caret <= s.anchor { s.anchor } else { s.caret };
            move_target(b, EditKey::Right { select: false, word: false }, s, multiline)
                == TextSelection { caret: hi, anchor: hi }
        }),
        motion_post(pre, post, EditKey::Left { select: false, word: false }, multiline, change)
            ==> post.caret == post.anchor && post.caret == (if pre.caret <= pre.anchor {
            pre.caret
        } else {
            pre.anchor
        }),
        motion_post(pre, post, EditKey::Right { select: false, word: false }, multiline, change)
            ==> post.caret == post.anchor && post.caret == (if pre.caret <= pre.anchor {
            pre.anchor
        } else {
            pre.caret
        }),
{
    assert(pre.selections()[0] == TextSelection { caret: pre.caret, anchor: pre.anchor });
}

proof fn lemma_line_range_bounds(b: Seq<u8>, i: int)
    requires
        0 <= i <= b.len(),
    ensures
        line_range_spec(b, i).0 <= line_range_spec(b, i).1,
{
    crate::boundary::lemma_last_newline(b, i);
    crate::boundary::lemma_first_newline(b, i);
}

// ---------------------------------------------------------------------------
// clipboard and paste
// ---------------------------------------------------------------------------

proof fn lemma_sorted_unique(a: Seq<(usize, usize)>, c: Seq<(usize, usize)>)
    requires
        strictly_sorted(a),
        strictly_sorted(c),
        forall|x: (usize, usize)| a.contains(x) <==> c.contains(x),
    ensures
        a == c,
    decreases a.len() + c.len(),
{
    if a.len() == 0 {
        if c.len() > 0 {
            assert(c.contains(c[0]));
        }
    } else if c.len() == 0 {
        assert(a.contains(a[0]));
    } else {
        let x = a.last();
        let y = c.last();
        assert(a.contains(x));
        assert(c.contains(y));
        let iy = choose|k: int| 0 <= k < a.len() && a[k] == y;
        let ix = choose|k: int| 0 <= k < c.len() && c[k] == x;
        if iy < a.len() - 1 {
            assert(range_lt(a[iy], a[a.len() - 1]));
        }
        if ix < c.len() - 1 {
            assert(range_lt(c[ix], c[c.len() - 1]));
        }
        assert(x == y);
        let a0 = a.drop_last();
        let c0 = c.drop_last();
        assert forall|z: (usize, usize)| a0.contains(z) <==> c0.contains(z) by {
            if a0.contains(z) {
                let k = choose|k: int| 0 <= k < a0.len() && a0[k] == z;
                assert(a[k] == z);
                assert(range_lt(a[k], a[a.len() - 1]));
                assert(c.contains(z));
                let j = choose|j: int| 0 <= j < c.len() && c[j] == z;
                if j == c.len() - 1 {
                    assert(false);
                }
                assert(c0[j] == z);
            }
            if c0.contains(z) {
                let k = choose|k: int| 0 <= k < c0.len() && c0[k] == z;
                assert(c[k] == z);
                assert(range_lt(c[k], c[c.len() - 1]));
                assert(a.contains(z));
                let j = choose|j: int| 0 <= j < a.len() && a[j] == z;
                if j == a.len() - 1 {
                    assert(false);
                }
                assert(a0[j] == z);
            }
        }
        lemma_sorted_unique(a0, c0);
        assert(a =~= a0.push(x));
        assert(c =~= c0.push(y));
    }
}

/// The clipboard order is canonical: one list of ranges answers a set of
/// selections, so the clipboard text is determined by the value and the
/// selections alone.
pub proof fn law_clipboard_ranges_are_unique(
    sels: Seq<TextSelection>,
    a: Seq<(usize, usize)>,
    c: Seq<(usize, usize)>,
)
    requires
        clipboard_ranges(sels, a),
        clipboard_ranges(sels, c),
    ensures
        a == c,
{
    assert forall|x: (usize, usize)| a.contains(x) <==> c.contains(x) by {
        if a.contains(x) {
            let k = choose|k: int| 0 <= k < a.len() && a[k] == x;
            assert(crate::clipboard::is_selected_range(sels, a[k]));
            let j = choose|j: int| 0 <= j < sels.len() && crate::clipboard::sel_range(#[trigger] sels[j]) == x;
            assert(crate::selection::sel_start(sels[j]) < crate::selection::sel_end(sels[j]));
        }
        if c.contains(x) {
            let k = choose|k: int| 0 <= k < c.len() && c[k] == x;
            assert(crate::clipboard::is_selected_range(sels, c[k]));
            let j = choose|j: int| 0 <= j < sels.len() && crate::clipboard::sel_range(#[trigger] sels[j]) == x;
            assert(crate::selection::sel_start(sels[j]) < crate::selection::sel_end(sels[j]));
        }
    }
    lemma_sorted_unique(a, c);
}

/// Text pasted into a single-line field never carries a line break.
pub proof fn law_single_line_paste_has_no_line_breaks(s: Seq<char>)
    ensures
        forall|i: int|
            0 <= i < without_line_breaks(s).len() ==> !is_line_break(#[trigger] without_line_breaks(s)[i]),
    decreases s.len(),
{
    if s.len() > 0 {
        law_single_line_paste_has_no_line_breaks(s.drop_last());
        let p = without_line_breaks(s.drop_last());
        if !is_line_break(s.last()) {
            assert forall|i: int| 0 <= i < p.push(s.last()).len() implies !is_line_break(
                #[trigger] p.push(s.last())[i],
            ) by {
                if i < p.len() {
                    assert(p.push(s.last())[i] == p[i]);
                }
            }
        }
    }
}

/// Text pasted into a multi-line editor never carries a carriage return.
pub proof fn law_multiline_paste_has_no_carriage_returns(s: Seq<char>)
    ensures
        forall|i: int| 0 <= i < unix_line_breaks(s).len() ==> #[trigger] unix_line_breaks(s)[i] != '\r',
    decreases s.len(),
{
    if s.len() > 0 {
        law_multiline_paste_has_no_carriage_returns(s.drop_last());
        let p = unix_line_breaks(s.drop_last());
        assert forall|i: int| 0 <= i < unix_line_breaks(s).len() implies #[trigger] unix_line_breaks(
            s,
        )[i] != '\r' by {
            if i < p.len() {
                if s.last() == '\r' {
                    assert(unix_line_breaks(s)[i] == p.push('\n')[i]);
                } else if !(s.last() == '\n' && s.len() > 1 && s[s.len() - 2] == '\r') {
                    assert(unix_line_breaks(s)[i] == p.push(s.last())[i]);
                }
            }
        }
    }
}

// ---------------------------------------------------------------------------
// protected values and whole-value replacement
// ---------------------------------------------------------------------------

/// A password's displayed text is one bullet per grapheme cluster and holds
/// no character of the value.
pub proof fn law_password_display_hides_the_value(v: Seq<char>)
    ensures
        display_spec(v, true).len() == grapheme_segments(v).len(),
        forall|i: int| 0 <= i < display_spec(v, true).len() ==> #[trigger] display_spec(v, true)[i] == '\u{2022}',
{
}

/// Setting the same value twice changes nothing the second time.
pub proof fn law_set_value_is_idempotent(
    pre: EditState,
    mid: EditState,
    post: EditState,
    value: Seq<char>,
    first: Change,
    second: Change,
)
    requires
        set_value_post(pre, mid, value, first),
        set_value_post(mid, post, value, second),
    ensures
        mid.value@ == value,
        second == Change::Unchanged,
        post == mid,
{
}

} // verus!
