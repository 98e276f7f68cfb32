//! Multi-selection editing: one replacement applied at every retained
//! selection as a single logical edit.
//!
//! Each selection becomes an edit range (a collapsed caret grows by one
//! character for Backspace/Delete); the ranges are stably sorted, overlapping,
//! duplicate and touching-point ranges are merged, and the replacement is
//! spliced into every remaining range. Every resulting caret sits right after
//! its inserted replacement.

use vstd::prelude::*;
use vstd::utf8::*;

use crate::boundary::{
    boundary_above, boundary_below, bytes_of, is_boundary, lemma_boundary_above, lemma_boundary_below, lemma_boundary_equiv,
    lemma_encode_concat, next_boundary, next_boundary_spec, prev_boundary, prev_boundary_spec,
    split_at_boundary,
};
use crate::small_vec::{
    selections_clear, selections_of, selections_push, selections_slice, Selections, TextSelection,
};

verus! {

broadcast use vstd::utf8::group_utf8_lib;

/// What an edit changed: nothing, only the caret/selection, or the text.
#[derive(PartialEq, Eq, Structural, Clone, Copy, Debug)]
pub enum Change {
    Unchanged,
    /// caret/anchor moved; paint-only.
    Caret,
    /// the value changed; paint + accessible value + `on_input`.
    Text,
}

/// How a collapsed caret is widened before a replacement.
#[derive(Clone, Copy, Debug, PartialEq, Eq, Structural)]
pub enum ReplaceMode {
    /// Replace the selection only (insertion at a collapsed caret).
    Selection,
    /// A collapsed caret also removes the character before it.
    Backspace,
    /// A collapsed caret also removes the character after it.
    Delete,
}

pub open spec fn sel_start(s: TextSelection) -> int {
    if s.caret <= s.anchor {
        s.caret as int
    } else {
        s.anchor as int
    }
}

pub open spec fn sel_end(s: TextSelection) -> int {
    if s.caret <= s.anchor {
        s.anchor as int
    } else {
        s.caret as int
    }
}

pub open spec fn collapsed_at(at: int) -> TextSelection {
    TextSelection { caret: at as usize, anchor: at as usize }
}

/// Both ends of the selection are character boundaries of `b`.
pub open spec fn sel_on_boundaries(b: Seq<u8>, s: TextSelection) -> bool {
    is_boundary(b, s.caret as int) && is_boundary(b, s.anchor as int)
}

pub open spec fn all_on_boundaries(b: Seq<u8>, sels: Seq<TextSelection>) -> bool {
    forall|k: int| 0 <= k < sels.len() ==> sel_on_boundaries(b, #[trigger] sels[k])
}

impl TextSelection {
    /// A collapsed selection (a bare caret) at `at`.
    pub fn collapsed(at: usize) -> (r: Self)
        ensures
            r.caret == at,
            r.anchor == at,
    {
        TextSelection { caret: at, anchor: at }
    }

    /// The selection as an ordered `(start, end)` byte range.
    pub fn range(self) -> (r: (usize, usize))
        ensures
            r.0 == sel_start(self),
            r.1 == sel_end(self),
    {
        if self.caret <= self.anchor {
            (self.caret, self.anchor)
        } else {
            (self.anchor, self.caret)
        }
    }
}

/// The primary selection followed by the secondary ones.
pub open spec fn selection_seq(
    caret: usize,
    anchor: usize,
    secondary: Seq<TextSelection>,
) -> Seq<TextSelection> {
    seq![TextSelection { caret, anchor }] + secondary
}

/// The primary selection followed by every secondary selection, in order.
pub fn selection_list(caret: usize, anchor: usize, secondary: &[TextSelection]) -> (r: Vec<
    TextSelection,
>)
    ensures
        r@ == selection_seq(caret, anchor, secondary@),
{
    let mut r: Vec<TextSelection> = Vec::new();
    r.push(TextSelection { caret, anchor });
    let mut i: usize = 0;
    while i < secondary.len()
        invariant
            i <= secondary@.len(),
            r@ == selection_seq(caret, anchor, secondary@.subrange(0, i as int)),
        decreases secondary@.len() - i,
    {
        r.push(secondary[i]);
        i = i + 1;
        assert(selection_seq(caret, anchor, secondary@.subrange(0, i as int)) =~= selection_seq(
            caret,
            anchor,
            secondary@.subrange(0, i - 1),
        ).push(secondary@[i - 1]));
    }
    assert(secondary@.subrange(0, secondary@.len() as int) =~= secondary@);
    r
}

// ---------------------------------------------------------------------------
// edit ranges
// ---------------------------------------------------------------------------

/// One byte range to replace; `primary` marks the range of the primary selection.
#[derive(Clone, Copy, Debug, PartialEq, Eq, Structural)]
pub struct Edit {
    pub start: usize,
    pub end: usize,
    pub primary: bool,
}

/// The range a selection edits under `mode`.
pub open spec fn raw_edit(b: Seq<u8>, s: TextSelection, mode: ReplaceMode, primary: bool) -> Edit {
    let (start, end) = (sel_start(s), sel_end(s));
    if start == end {
        match mode {
            ReplaceMode::Backspace => if start > 0 {
                Edit { start: prev_boundary_spec(b, start) as usize, end: end as usize, primary }
            } else {
                Edit { start: start as usize, end: end as usize, primary }
            },
            ReplaceMode::Delete => if end < b.len() {
                Edit { start: start as usize, end: next_boundary_spec(b, end) as usize, primary }
            } else {
                Edit { start: start as usize, end: end as usize, primary }
            },
            ReplaceMode::Selection => Edit { start: start as usize, end: end as usize, primary },
        }
    } else {
        Edit { start: start as usize, end: end as usize, primary }
    }
}

pub open spec fn raw_edits(b: Seq<u8>, sels: Seq<TextSelection>, mode: ReplaceMode) -> Seq<Edit> {
    Seq::new(sels.len(), |k: int| raw_edit(b, sels[k], mode, k == 0))
}

/// Sort order of edits: by start, then end.
pub open spec fn key_le(a: Edit, c: Edit) -> bool {
    a.start < c.start || (a.start == c.start && a.end <= c.end)
}

/// Stable insertion of `e` after every edit whose key does not exceed it.
pub open spec fn insert_sorted(sorted: Seq<Edit>, e: Edit) -> Seq<Edit>
    decreases sorted.len(),
{
    if sorted.len() == 0 {
        seq![e]
    } else if key_le(sorted.last(), e) {
        sorted.push(e)
    } else {
        insert_sorted(sorted.drop_last(), e).push(sorted.last())
    }
}

/// The stable sort of edits by `(start, end)`.
pub open spec fn sort_edits(es: Seq<Edit>) -> Seq<Edit>
    decreases es.len(),
{
    if es.len() == 0 {
        seq![]
    } else {
        insert_sorted(sort_edits(es.drop_last()), es.last())
    }
}

/// Whether `e` must merge with the preceding range `last`: duplicates,
/// overlaps, and a caret touching (or inside) the other range.
pub open spec fn conflicts(last: Edit, e: Edit) -> bool {
    ||| (last.start == e.start && last.end == e.end)
    ||| (e.start < last.end && e.end > last.start)
    ||| (last.start == last.end && e.start <= last.start && last.start <= e.end)
    ||| (e.start == e.end && last.start <= e.start && e.start <= last.end)
}

pub open spec fn merged(last: Edit, e: Edit) -> Edit {
    Edit {
        start: if last.start <= e.start { last.start } else { e.start },
        end: if last.end >= e.end { last.end } else { e.end },
        primary: last.primary || e.primary,
    }
}

pub open spec fn merge_step(norm: Seq<Edit>, e: Edit) -> Seq<Edit> {
    if norm.len() > 0 && conflicts(norm.last(), e) {
        norm.drop_last().push(merged(norm.last(), e))
    } else {
        norm.push(e)
    }
}

/// Left-to-right merge of sorted edits.
pub open spec fn normalize(es: Seq<Edit>) -> Seq<Edit>
    decreases es.len(),
{
    if es.len() == 0 {
        seq![]
    } else {
        merge_step(normalize(es.drop_last()), es.last())
    }
}

/// End of the range before edit `k` (0 before the first).
pub open spec fn prev_end(es: Seq<Edit>, k: int) -> int {
    if k <= 0 {
        0
    } else {
        es[k - 1].end as int
    }
}

/// The output produced by the first `k` edits, up to each inserted replacement.
pub open spec fn splice_prefix(b: Seq<u8>, es: Seq<Edit>, rep: Seq<u8>, k: int) -> Seq<u8>
    decreases k,
{
    if k <= 0 {
        seq![]
    } else {
        splice_prefix(b, es, rep, k - 1) + b.subrange(prev_end(es, k - 1), es[k - 1].start as int)
            + rep
    }
}

/// The text after every edit replaced its range with `rep`.
pub open spec fn splice(b: Seq<u8>, es: Seq<Edit>, rep: Seq<u8>) -> Seq<u8> {
    splice_prefix(b, es, rep, es.len() as int) + b.subrange(
        prev_end(es, es.len() as int),
        b.len() as int,
    )
}

/// Where each edit's caret lands: right after its replacement.
pub open spec fn edit_position(b: Seq<u8>, es: Seq<Edit>, rep: Seq<u8>, k: int) -> int {
    splice_prefix(b, es, rep, k + 1).len() as int
}

/// Index of the first edit carrying the primary selection (0 if none).
pub open spec fn first_primary(es: Seq<Edit>, k: int) -> int
    decreases es.len() - k,
{
    if k >= es.len() {
        0
    } else if es[k].primary {
        k
    } else {
        first_primary(es, k + 1)
    }
}

/// Whether applying the edits changes anything.
pub open spec fn mutates(es: Seq<Edit>, rep: Seq<u8>) -> bool {
    rep.len() > 0 || exists|k: int| 0 <= k < es.len() && es[k].start != es[k].end
}

/// The merged edit ranges of a replacement.
pub open spec fn replace_edits(b: Seq<u8>, sels: Seq<TextSelection>, mode: ReplaceMode) -> Seq<
    Edit,
> {
    normalize(sort_edits(raw_edits(b, sels, mode)))
}

/// The carets after a replacement, in edit order.
pub open spec fn replace_positions(b: Seq<u8>, es: Seq<Edit>, rep: Seq<u8>) -> Seq<int> {
    Seq::new(es.len(), |k: int| edit_position(b, es, rep, k))
}

/// A well-formed edit: an in-bounds range between character boundaries.
pub open spec fn edit_wf(b: Seq<u8>, e: Edit) -> bool {
    e.start <= e.end <= b.len() && is_boundary(b, e.start as int) && is_boundary(b, e.end as int)
}

pub open spec fn sorted_by_key(es: Seq<Edit>) -> bool {
    forall|i: int, j: int| 0 <= i < j < es.len() ==> key_le(es[i], es[j])
}

/// Well-formed, ordered and non-overlapping edits.
pub open spec fn edits_disjoint(b: Seq<u8>, es: Seq<Edit>) -> bool {
    &&& forall|k: int| 0 <= k < es.len() ==> edit_wf(b, #[trigger] es[k])
    &&& forall|k: int| 0 <= k < es.len() - 1 ==> #[trigger] es[k].end <= es[k + 1].start
}

// ---------------------------------------------------------------------------
// lemmas
// ---------------------------------------------------------------------------

pub proof fn lemma_zero_boundary(b: Seq<u8>)
    requires
        valid_utf8(b),
    ensures
        is_boundary(b, 0),
        is_boundary(b, b.len() as int),
{
    is_char_boundary_start_end_of_seq(b);
    lemma_boundary_equiv(b, 0);
    lemma_boundary_equiv(b, b.len() as int);
}

proof fn lemma_raw_edit_wf(b: Seq<u8>, s: TextSelection, mode: ReplaceMode, primary: bool)
    requires
        valid_utf8(b),
        b.len() <= usize::MAX,
        sel_on_boundaries(b, s),
    ensures
        edit_wf(b, raw_edit(b, s, mode, primary)),
        raw_edit(b, s, mode, primary).primary == primary,
{
    lemma_zero_boundary(b);
    let start = sel_start(s);
    let end = sel_end(s);
    lemma_boundary_below(b, start);
    lemma_boundary_above(b, end);
    assert(prev_boundary_spec(b, start) == boundary_below(b, start));
    assert(next_boundary_spec(b, end) == boundary_above(b, end));
    let r = raw_edit(b, s, mode, primary);
    if start == end {
        match mode {
            ReplaceMode::Backspace => {
                if start > 0 {
                    assert(r.start == boundary_below(b, start));
                    assert(is_boundary(b, r.start as int));
                }
            },
            ReplaceMode::Delete => {
                if end < b.len() {
                    assert(r.end == boundary_above(b, end));
                }
            },
            ReplaceMode::Selection => {},
        }
    }
}

pub open spec fn insert_pos(s: Seq<Edit>, e: Edit) -> int
    decreases s.len(),
{
    if s.len() == 0 {
        0
    } else if key_le(s.last(), e) {
        s.len() as int
    } else {
        insert_pos(s.drop_last(), e)
    }
}

proof fn lemma_insert_sorted(s: Seq<Edit>, e: Edit)
    ensures
        0 <= insert_pos(s, e) <= s.len(),
        insert_sorted(s, e) =~= s.subrange(0, insert_pos(s, e)).push(e) + s.subrange(
            insert_pos(s, e),
            s.len() as int,
        ),
        forall|k: int| insert_pos(s, e) <= k < s.len() ==> !key_le(#[trigger] s[k], e),
        insert_pos(s, e) > 0 ==> key_le(s[insert_pos(s, e) - 1], e),
    decreases s.len(),
{
    if s.len() > 0 && !key_le(s.last(), e) {
        lemma_insert_sorted(s.drop_last(), e);
        let p = insert_pos(s, e);
        assert(s.drop_last().subrange(0, p) =~= s.subrange(0, p));
        assert(s.drop_last().subrange(p, s.len() - 1).push(s.last()) =~= s.subrange(
            p,
            s.len() as int,
        ));
        assert forall|k: int| p <= k < s.len() implies !key_le(#[trigger] s[k], e) by {
            if k < s.len() - 1 {
                assert(s[k] == s.drop_last()[k]);
            }
        }
    }
}

proof fn lemma_insert_sorted_props(s: Seq<Edit>, e: Edit, b: Seq<u8>)
    requires
        sorted_by_key(s),
        forall|k: int| 0 <= k < s.len() ==> edit_wf(b, #[trigger] s[k]),
        edit_wf(b, e),
    ensures
        sorted_by_key(insert_sorted(s, e)),
        insert_sorted(s, e).len() == s.len() + 1,
        forall|k: int|
            0 <= k < insert_sorted(s, e).len() ==> edit_wf(b, #[trigger] insert_sorted(s, e)[k]),
{
    lemma_insert_sorted(s, e);
    let p = insert_pos(s, e);
    let r = insert_sorted(s, e);
    assert forall|k: int| 0 <= k < r.len() implies edit_wf(b, #[trigger] r[k]) by {
        if k < p {
            assert(r[k] == s[k]);
        } else if k == p {
            assert(r[k] == e);
        } else {
            assert(r[k] == s[k - 1]);
        }
    }
    assert forall|i: int, j: int| 0 <= i < j < r.len() implies key_le(r[i], r[j]) by {
        if j < p {
            assert(r[i] == s[i] && r[j] == s[j]);
        } else if j == p {
            assert(r[i] == s[i]);
            assert(key_le(s[i], s[p - 1]) || i == p - 1);
        } else if i < p {
            assert(r[i] == s[i] && r[j] == s[j - 1]);
        } else if i == p {
            assert(!key_le(s[j - 1], e));
        } else {
            assert(r[i] == s[i - 1] && r[j] == s[j - 1]);
        }
    }
}

proof fn lemma_sort_edits(es: Seq<Edit>, b: Seq<u8>)
    requires
        forall|k: int| 0 <= k < es.len() ==> edit_wf(b, #[trigger] es[k]),
    ensures
        sorted_by_key(sort_edits(es)),
        sort_edits(es).len() == es.len(),
        forall|k: int|
            0 <= k < sort_edits(es).len() ==> edit_wf(b, #[trigger] sort_edits(es)[k]),
    decreases es.len(),
{
    if es.len() > 0 {
        let init = es.drop_last();
        assert forall|k: int| 0 <= k < init.len() implies edit_wf(b, #[trigger] init[k]) by {
            assert(init[k] == es[k]);
        }
        lemma_sort_edits(init, b);
        lemma_insert_sorted_props(sort_edits(init), es.last(), b);
    }
}

proof fn lemma_merge_no_conflict(last: Edit, e: Edit)
    requires
        last.start <= e.start,
        last.start <= last.end,
        e.start <= e.end,
        !conflicts(last, e),
    ensures
        last.end <= e.start,
{
}

proof fn lemma_normalize(es: Seq<Edit>, b: Seq<u8>)
    requires
        sorted_by_key(es),
        forall|k: int| 0 <= k < es.len() ==> edit_wf(b, #[trigger] es[k]),
    ensures
        edits_disjoint(b, normalize(es)),
        normalize(es).len() <= es.len(),
        es.len() > 0 ==> normalize(es).len() > 0 && normalize(es).last().start <= es.last().start,
    decreases es.len(),
{
    if es.len() > 0 {
        let init = es.drop_last();
        assert forall|k: int| 0 <= k < init.len() implies edit_wf(b, #[trigger] init[k]) by {
            assert(init[k] == es[k]);
        }
        assert forall|i: int, j: int| 0 <= i < j < init.len() implies key_le(init[i], init[j]) by {
            assert(init[i] == es[i] && init[j] == es[j]);
        }
        lemma_normalize(init, b);
        let n = normalize(init);
        let e = es.last();
        if n.len() > 0 {
            assert(key_le(es[es.len() - 2], e));
            assert(n.last().start <= e.start);
            if conflicts(n.last(), e) {
                let m = merged(n.last(), e);
                let r = n.drop_last().push(m);
                assert(edit_wf(b, m));
                assert forall|k: int| 0 <= k < r.len() implies edit_wf(b, #[trigger] r[k]) by {
                    if k < r.len() - 1 {
                        assert(r[k] == n[k]);
                    }
                }
                assert forall|k: int| 0 <= k < r.len() - 1 implies #[trigger] r[k].end <= r[k
                    + 1].start by {
                    assert(r[k] == n[k]);
                    if k + 1 < r.len() - 1 {
                        assert(r[k + 1] == n[k + 1]);
                    } else {
                        assert(n[k].end <= n[k + 1].start);
                    }
                }
                assert(normalize(es) == r);
            } else {
                lemma_merge_no_conflict(n.last(), e);
                let r = n.push(e);
                assert forall|k: int| 0 <= k < r.len() implies edit_wf(b, #[trigger] r[k]) by {
                    if k < r.len() - 1 {
                        assert(r[k] == n[k]);
                    }
                }
                assert forall|k: int| 0 <= k < r.len() - 1 implies #[trigger] r[k].end <= r[k
                    + 1].start by {
                    assert(r[k] == n[k]);
                    if k + 1 < r.len() - 1 {
                        assert(r[k + 1] == n[k + 1]);
                    }
                }
                assert(normalize(es) == r);
            }
        } else {
            assert(normalize(es) == seq![e]);
        }
    }
}

/// A byte index that ends a valid prefix is a boundary of the whole text.
pub proof fn lemma_boundary_at_concat(a: Seq<char>, c: Seq<char>)
    ensures
        is_boundary(bytes_of(a + c), bytes_of(a).len() as int),
        bytes_of(a + c) == bytes_of(a) + bytes_of(c),
{
    lemma_encode_concat(a, c);
    if c.len() > 0 {
        encode_utf8_first_scalar(c);
        let bc = encode_utf8(c);
        assert((bytes_of(a) + bc)[bytes_of(a).len() as int] == bc[0]);
    }
}

proof fn lemma_insert_sorted_len(s: Seq<Edit>, e: Edit)
    ensures
        insert_sorted(s, e).len() == s.len() + 1,
    decreases s.len(),
{
    if s.len() > 0 && !key_le(s.last(), e) {
        lemma_insert_sorted_len(s.drop_last(), e);
    }
}

proof fn lemma_sort_len(es: Seq<Edit>)
    ensures
        sort_edits(es).len() == es.len(),
    decreases es.len(),
{
    if es.len() > 0 {
        lemma_sort_len(es.drop_last());
        lemma_insert_sorted_len(sort_edits(es.drop_last()), es.last());
    }
}

proof fn lemma_normalize_len(es: Seq<Edit>)
    ensures
        normalize(es).len() <= es.len(),
        es.len() > 0 ==> normalize(es).len() > 0,
    decreases es.len(),
{
    if es.len() > 0 {
        lemma_normalize_len(es.drop_last());
    }
}

/// Merging never yields more edit ranges than there are selections, and at
/// least one when there is a selection.
pub proof fn lemma_replace_edits_len(b: Seq<u8>, sels: Seq<TextSelection>, mode: ReplaceMode)
    ensures
        replace_edits(b, sels, mode).len() <= sels.len(),
        sels.len() > 0 ==> replace_edits(b, sels, mode).len() > 0,
{
    lemma_sort_len(raw_edits(b, sels, mode));
    lemma_normalize_len(sort_edits(raw_edits(b, sels, mode)));
}

/// The primary edit index lies inside a non-empty edit list.
pub proof fn lemma_first_primary(es: Seq<Edit>, k: int)
    requires
        0 <= k,
    ensures
        0 <= first_primary(es, k),
        es.len() > 0 ==> first_primary(es, k) < es.len(),
    decreases es.len() - k,
{
    if k < es.len() && !es[k].primary {
        lemma_first_primary(es, k + 1);
    }
}

// ---------------------------------------------------------------------------
// exec
// ---------------------------------------------------------------------------

fn raw_edits_exec(value: &str, sels: &Vec<TextSelection>, mode: ReplaceMode) -> (r: Vec<Edit>)
    requires
        all_on_boundaries(bytes_of(value@), sels@),
    ensures
        r@ == raw_edits(bytes_of(value@), sels@, mode),
{
    let ghost b = bytes_of(value@);
    let len = value.as_bytes().len();
    let mut r: Vec<Edit> = Vec::new();
    let mut k: usize = 0;
    while k < sels.len()
        invariant
            b == bytes_of(value@),
            len == b.len(),
            k <= sels@.len(),
            all_on_boundaries(b, sels@),
            r@ == raw_edits(b, sels@, mode).subrange(0, k as int),
        decreases sels@.len() - k,
    {
        let sel = sels[k];
        let (mut start, mut end) = sel.range();
        if start == end {
            match mode {
                ReplaceMode::Backspace => {
                    if start > 0 {
                        start = prev_boundary(value, start);
                    }
                },
                ReplaceMode::Delete => {
                    if end < len {
                        end = next_boundary(value, end);
                    }
                },
                ReplaceMode::Selection => {},
            }
        }
        proof {
            lemma_boundary_below(b, sel_start(sel));
            lemma_boundary_above(b, sel_end(sel));
        }
        r.push(Edit { start, end, primary: k == 0 });
        k = k + 1;
        assert(r@ =~= raw_edits(b, sels@, mode).subrange(0, k as int));
    }
    r
}

fn key_le_exec(a: Edit, c: Edit) -> (r: bool)
    ensures
        r == key_le(a, c),
{
    a.start < c.start || (a.start == c.start && a.end <= c.end)
}

/// Stable insertion sort by `(start, end)`.
fn sort_edits_exec(es: &Vec<Edit>) -> (r: Vec<Edit>)
    ensures
        r@ == sort_edits(es@),
{
    let mut sorted: Vec<Edit> = Vec::new();
    let mut i: usize = 0;
    while i < es.len()
        invariant
            i <= es@.len(),
            sorted@ == sort_edits(es@.subrange(0, i as int)),
        decreases es@.len() - i,
    {
        let e = es[i];
        let ghost s0 = sorted@;
        let mut pos = sorted.len();
        assert(s0.subrange(0, pos as int) =~= s0);
        while pos > 0 && !key_le_exec(sorted[pos - 1], e)
            invariant
                sorted@ == s0,
                pos <= s0.len(),
                insert_pos(s0, e) == insert_pos(s0.subrange(0, pos as int), e),
            decreases pos,
        {
            assert(s0.subrange(0, pos as int).drop_last() =~= s0.subrange(0, pos - 1));
            pos = pos - 1;
        }
        proof {
            assert(s0.subrange(0, s0.len() as int) =~= s0);
            if pos > 0 {
                assert(s0.subrange(0, pos as int).last() == s0[pos - 1]);
            }
            lemma_insert_sorted(s0, e);
        }
        sorted.insert(pos, e);
        proof {
            assert(es@.subrange(0, i + 1).drop_last() =~= es@.subrange(0, i as int));
            assert(es@.subrange(0, i + 1).last() == e);
            assert(sorted@ =~= s0.subrange(0, pos as int).push(e) + s0.subrange(
                pos as int,
                s0.len() as int,
            ));
        }
        i = i + 1;
    }
    assert(es@.subrange(0, es@.len() as int) =~= es@);
    sorted
}

fn conflicts_exec(last: Edit, e: Edit) -> (r: bool)
    ensures
        r == conflicts(last, e),
{
    let duplicates = last.start == e.start && last.end == e.end;
    let overlaps = e.start < last.end && e.end > last.start;
    let point_inside = (last.start == last.end && e.start <= last.start && last.start <= e.end)
        || (e.start == e.end && last.start <= e.start && e.start <= last.end);
    duplicates || overlaps || point_inside
}

fn normalize_exec(es: &Vec<Edit>) -> (r: Vec<Edit>)
    ensures
        r@ == normalize(es@),
{
    let mut norm: Vec<Edit> = Vec::new();
    let mut i: usize = 0;
    while i < es.len()
        invariant
            i <= es@.len(),
            norm@ == normalize(es@.subrange(0, i as int)),
        decreases es@.len() - i,
    {
        let e = es[i];
        let n = norm.len();
        if n > 0 && conflicts_exec(norm[n - 1], e) {
            let last = norm[n - 1];
            let m = Edit {
                start: if last.start <= e.start {
                    last.start
                } else {
                    e.start
                },
                end: if last.end >= e.end {
                    last.end
                } else {
                    e.end
                },
                primary: last.primary || e.primary,
            };
            norm.set(n - 1, m);
            assert(norm@ =~= normalize(es@.subrange(0, i as int)).drop_last().push(m));
        } else {
            norm.push(e);
        }
        proof {
            assert(es@.subrange(0, i + 1).drop_last() =~= es@.subrange(0, i as int));
            assert(es@.subrange(0, i + 1).last() == e);
        }
        i = i + 1;
    }
    assert(es@.subrange(0, es@.len() as int) =~= es@);
    norm
}

/// The `(start, end)` slice of `s`; both ends are character boundaries.
pub(crate) fn slice_between(s: &str, start: usize, end: usize) -> (r: &str)
    requires
        start <= end,
        is_boundary(bytes_of(s@), start as int),
        is_boundary(bytes_of(s@), end as int),
    ensures
        bytes_of(r@) == bytes_of(s@).subrange(start as int, end as int),
{
    let ghost b = bytes_of(s@);
    let (head, _) = split_at_boundary(s, end);
    let ghost hb = bytes_of(head@);
    assert(hb =~= b.subrange(0, end as int));
    assert(is_boundary(hb, start as int)) by {
        if start < end {
            assert(hb[start as int] == b[start as int]);
        }
    }
    let (_, tail) = split_at_boundary(head, start);
    assert(bytes_of(tail@) =~= b.subrange(start as int, end as int));
    tail
}

/// Splices `rep` into every edit range; returns the new text and, per edit,
/// the byte index right after its replacement.
fn splice_exec(value: &str, es: &Vec<Edit>, rep: &str) -> (r: (String, Vec<usize>))
    requires
        edits_disjoint(bytes_of(value@), es@),
    ensures
        bytes_of(r.0@) == splice(bytes_of(value@), es@, bytes_of(rep@)),
        r.1@.len() == es@.len(),
        forall|k: int|
            0 <= k < es@.len() ==> r.1@[k] == edit_position(
                bytes_of(value@),
                es@,
                bytes_of(rep@),
                k,
            ),
        forall|k: int| 0 <= k < es@.len() ==> is_boundary(bytes_of(r.0@), #[trigger] r.1@[k] as int),
{
    let ghost b = bytes_of(value@);
    let ghost rb = bytes_of(rep@);
    let len = value.as_bytes().len();
    let mut out = String::new();
    let mut positions: Vec<usize> = Vec::new();
    let ghost mut char_pos: Seq<int> = seq![];
    let mut prev: usize = 0;
    let mut k: usize = 0;
    proof {
        encode_utf8_valid_utf8(value@);
        lemma_zero_boundary(b);
    }
    while k < es.len()
        invariant
            b == bytes_of(value@),
            rb == bytes_of(rep@),
            len == b.len(),
            valid_utf8(b),
            edits_disjoint(b, es@),
            k <= es@.len(),
            prev == prev_end(es@, k as int),
            prev <= len,
            is_boundary(b, prev as int),
            bytes_of(out@) == splice_prefix(b, es@, rb, k as int),
            positions@.len() == k,
            char_pos.len() == k,
            forall|j: int| 0 <= j < k ==> positions@[j] == edit_position(b, es@, rb, j),
            forall|j: int| 0 <= j < k ==> 0 <= #[trigger] char_pos[j] <= out@.len(),
            forall|j: int|
                0 <= j < k ==> bytes_of(out@.subrange(0, #[trigger] char_pos[j])).len()
                    == positions@[j],
        decreases es@.len() - k,
    {
        let e = es[k];
        assert(edit_wf(b, es@[k as int]));
        if k > 0 {
            assert(es@[k - 1].end <= es@[k as int].start);
        }
        let piece = slice_between(value, prev, e.start);
        let ghost old_out = out@;
        proof {
            lemma_encode_concat(out@, piece@);
        }
        out.append(piece);
        proof {
            lemma_encode_concat(out@, rep@);
        }
        out.append(rep);
        proof {
            lemma_encode_concat(old_out + piece@, rep@);
            lemma_encode_concat(old_out, piece@);
            assert(out@ =~= old_out + piece@ + rep@);
            assert(bytes_of(out@) =~= splice_prefix(b, es@, rb, k + 1));
        }
        let pos = out.as_str().as_bytes().len();
        proof {
            assert forall|j: int| 0 <= j < k implies #[trigger] out@.subrange(0, char_pos[j])
                == old_out.subrange(0, char_pos[j]) by {
                assert(0 <= char_pos[j] <= old_out.len());
                assert(out@.subrange(0, char_pos[j]) =~= old_out.subrange(0, char_pos[j]));
            }
            char_pos = char_pos.push(out@.len() as int);
            assert(out@.subrange(0, out@.len() as int) =~= out@);
        }
        positions.push(pos);
        prev = e.end;
        k = k + 1;
    }
    let tail = slice_between(value, prev, len);
    let ghost before_tail = out@;
    out.append(tail);
    proof {
        lemma_encode_concat(before_tail, tail@);
        assert(bytes_of(out@) =~= splice(b, es@, rb));
        assert forall|j: int| 0 <= j < es@.len() implies is_boundary(
            bytes_of(out@),
            #[trigger] positions@[j] as int,
        ) by {
            assert(out@ =~= before_tail + tail@);
            assert(0 <= char_pos[j] <= before_tail.len());
            assert(out@.subrange(0, char_pos[j]) =~= before_tail.subrange(0, char_pos[j]));
            let a = out@.subrange(0, char_pos[j]);
            let c = out@.subrange(char_pos[j], out@.len() as int);
            assert(a + c =~= out@);
            lemma_boundary_at_concat(a, c);
        }
    }
    (out, positions)
}

/// The caret/anchor/secondary state after a replacement.
pub open spec fn replaced_secondary(positions: Seq<int>, primary: int) -> Seq<TextSelection> {
    positions.remove(primary).map_values(|p: int| collapsed_at(p))
}

/// Applies one replacement at every retained selection as a single logical
/// edit. Ranges are merged and spliced left-to-right; each resulting caret
/// sits right after its replacement. Returns `Change::Unchanged` when nothing would
/// change (no non-empty range and an empty replacement).
pub fn replace_selections(
    value: &mut String,
    caret: &mut usize,
    anchor: &mut usize,
    secondary: &mut Selections,
    replacement: &str,
    mode: ReplaceMode,
) -> (change: Change)
    requires
        all_on_boundaries(
            bytes_of(old(value)@),
            selection_seq(*old(caret), *old(anchor), selections_of(*old(secondary))),
        ),
    ensures
        ({
            let b = bytes_of(old(value)@);
            let sels = selection_seq(*old(caret), *old(anchor), selections_of(*old(secondary)));
            let es = replace_edits(b, sels, mode);
            let rb = bytes_of(replacement@);
            let positions = replace_positions(b, es, rb);
            let pi = first_primary(es, 0);
            if mutates(es, rb) {
                &&& change == Change::Text
                &&& bytes_of(final(value)@) == splice(b, es, rb)
                &&& *final(caret) == positions[pi]
                &&& *final(anchor) == positions[pi]
                &&& selections_of(*final(secondary)) == replaced_secondary(positions, pi)
            } else {
                &&& change == Change::Unchanged
                &&& final(value)@ == old(value)@
                &&& *final(caret) == *old(caret)
                &&& *final(anchor) == *old(anchor)
                &&& selections_of(*final(secondary)) == selections_of(*old(secondary))
            }
        }),
        all_on_boundaries(
            bytes_of(final(value)@),
            selection_seq(*final(caret), *final(anchor), selections_of(*final(secondary))),
        ),
{
    let ghost b = bytes_of(value@);
    let ghost rb = bytes_of(replacement@);
    let sels = selection_list(*caret, *anchor, selections_slice(secondary));
    let raw = raw_edits_exec(value.as_str(), &sels, mode);
    let value_len = value.as_str().as_bytes().len();
    proof {
        encode_utf8_valid_utf8(value@);
        assert(b.len() == value_len);
        assert forall|k: int| 0 <= k < raw@.len() implies edit_wf(b, #[trigger] raw@[k]) by {
            assert(sel_on_boundaries(b, sels@[k]));
            lemma_raw_edit_wf(b, sels@[k], mode, k == 0);
        }
        lemma_sort_edits(raw@, b);
        lemma_normalize(sort_edits(raw@), b);
    }
    let sorted = sort_edits_exec(&raw);
    let es = normalize_exec(&sorted);
    let ghost esq = es@;
    let rep_len = replacement.as_bytes().len();
    let mut any_mutation = rep_len > 0;
    let mut k: usize = 0;
    while k < es.len() && !any_mutation
        invariant
            es@ == esq,
            k <= esq.len(),
            any_mutation == mutates(esq, rb) || !any_mutation,
            any_mutation ==> mutates(esq, rb),
            !any_mutation ==> rb.len() == 0 && forall|j: int| 0 <= j < k ==> esq[j].start
                == esq[j].end,
        decreases esq.len() - k,
    {
        if es[k].start != es[k].end {
            any_mutation = true;
        }
        k = k + 1;
    }
    if !any_mutation {
        proof {
            if mutates(esq, rb) {
                let j = choose|j: int| 0 <= j < esq.len() && esq[j].start != esq[j].end;
                assert(esq[j].start == esq[j].end);
            }
        }
        return Change::Unchanged;
    }
    let (new_value, positions) = splice_exec(value.as_str(), &es, replacement);
    // first primary edit
    let mut pi: usize = 0;
    let mut found = false;
    let mut j: usize = 0;
    while j < es.len() && !found
        invariant
            es@ == esq,
            j <= esq.len(),
            found ==> pi < esq.len() && pi == first_primary(esq, 0),
            !found ==> first_primary(esq, 0) == first_primary(esq, j as int) && pi == 0,
        decreases esq.len() - j,
    {
        if es[j].primary {
            pi = j;
            found = true;
        }
        j = j + 1;
    }
    proof {
        if !found {
            assert(first_primary(esq, j as int) == 0);
        }
        assert(esq.len() > 0) by {
            assert(raw@.len() == sels@.len());
            assert(sort_edits(raw@).len() == raw@.len());
        }
    }
    let primary_pos = positions[pi];
    let ghost positions_int = replace_positions(b, esq, rb);
    assert(positions@.map_values(|p: usize| p as int) =~= positions_int);
    *value = new_value;
    *caret = primary_pos;
    *anchor = primary_pos;
    selections_clear(secondary);
    let mut m: usize = 0;
    while m < positions.len()
        invariant
            positions@.len() == esq.len(),
            positions_int.len() == esq.len(),
            pi < esq.len(),
            m <= positions@.len(),
            forall|q: int| 0 <= q < esq.len() ==> positions@[q] == positions_int[q],
            selections_of(*secondary) == replaced_secondary(positions_int, pi as int).subrange(
                0,
                if m <= pi {
                    m as int
                } else {
                    m - 1
                },
            ),
        decreases positions@.len() - m,
    {
        let ghost before = selections_of(*secondary);
        let ghost full = replaced_secondary(positions_int, pi as int);
        proof {
            positions_int.remove_ensures(pi as int);
        }
        assert(full.len() == positions@.len() - 1);
        if m != pi {
            selections_push(secondary, TextSelection::collapsed(positions[m]));
            proof {
                let idx = if m < pi {
                    m as int
                } else {
                    m - 1
                };
                assert(positions_int.remove(pi as int)[idx] == positions_int[m as int]);
                assert(full[idx] == collapsed_at(positions_int[m as int]));
                assert(selections_of(*secondary) =~= full.subrange(0, idx + 1));
            }
        }
        m = m + 1;
    }
    proof {
        let full = replaced_secondary(positions_int, pi as int);
        assert(full.subrange(0, full.len() as int) =~= full);
        let nb = bytes_of(value@);
        let all = selection_seq(*caret, *anchor, selections_of(*secondary));
        assert forall|q: int| 0 <= q < all.len() implies sel_on_boundaries(nb, #[trigger] all[q]) by {
            if q == 0 {
                assert(is_boundary(nb, positions@[pi as int] as int));
            } else {
                let src = if q - 1 < pi {
                    q - 1
                } else {
                    q
                };
                assert(all[q] == full[q - 1]);
                assert(is_boundary(nb, positions@[src] as int));
            }
        }
    }
    Change::Text
}

} // verus!
