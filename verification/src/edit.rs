//! The retained edit state of a single-line text input and the key, pointer
//! and value events that drive it. Every caret and anchor is a byte index on a
//! character boundary of the value; `caret == anchor` means no selection.

use vstd::prelude::*;
use vstd::utf8::*;

use crate::boundary::{
    bytes_of, is_boundary, line_end, line_end_spec, line_start, line_start_spec, lemma_boundary_below, lemma_boundary_above, lemma_boundary_equiv,
    next_boundary, next_boundary_spec, next_word, next_word_spec, prev_boundary,
    prev_boundary_spec, prev_word, prev_word_spec,
};
use crate::pointer::{
    apply_pointer_selection, pointer_index_spec, pointer_selection_index,
    pointer_selection_spec, PointerOrigin, TextPointerAction,
};
use crate::selection::{
    all_on_boundaries, first_primary, lemma_zero_boundary, mutates, replace_edits,
    replace_positions, replace_selections, replaced_secondary, sel_end, sel_on_boundaries,
    sel_start, selection_list, selection_seq, splice, Change, ReplaceMode,
};
use crate::small_vec::{
    selections_clear, selections_new, selections_of, selections_pop, selections_push,
    selections_remove, selections_slice, Selections, TextSelection,
};

verus! {

broadcast use vstd::utf8::group_utf8_lib;

/// A text-editing key, already resolved from platform modifiers. `Insert`
/// carries the typed text (one keystroke's worth).
#[derive(Debug, Clone, Copy, PartialEq)]
pub enum EditKey<'a> {
    Insert(&'a str),
    Backspace,
    Delete,
    Left { select: bool, word: bool },
    Right { select: bool, word: bool },
    /// Whole-value on a single-line input.
    Home { select: bool },
    End { select: bool },
    /// Caret up one visual line; a no-op on a single-line input.
    Up { select: bool },
    /// Caret down one visual line; a no-op on a single-line input.
    Down { select: bool },
    /// Newline insertion; a single-line input ignores it.
    Enter,
    SelectAll,
}

/// Where a caret-motion key moves one selection; Home/End are line-scoped in
/// a multi-line editor and whole-value otherwise.
pub open spec fn move_target(b: Seq<u8>, key: EditKey, s: TextSelection, multiline: bool) -> TextSelection {
    match key {
        EditKey::Left { select, word } => {
            let target = if !select && !word && s.caret != s.anchor {
                sel_start(s)
            } else if word {
                prev_word_spec(b, s.caret as int)
            } else {
                prev_boundary_spec(b, s.caret as int)
            };
            TextSelection {
                caret: target as usize,
                anchor: if select {
                    s.anchor
                } else {
                    target as usize
                },
            }
        },
        EditKey::Right { select, word } => {
            let target = if !select && !word && s.caret != s.anchor {
                sel_end(s)
            } else if word {
                next_word_spec(b, s.caret as int)
            } else {
                next_boundary_spec(b, s.caret as int)
            };
            TextSelection {
                caret: target as usize,
                anchor: if select {
                    s.anchor
                } else {
                    target as usize
                },
            }
        },
        EditKey::Home { select } => {
            let target = if multiline {
                line_start_spec(b, s.caret as int)
            } else {
                0
            };
            TextSelection {
                caret: target as usize,
                anchor: if select {
                    s.anchor
                } else {
                    target as usize
                },
            }
        },
        EditKey::End { select } => {
            let target = if multiline {
                line_end_spec(b, s.caret as int)
            } else {
                b.len() as int
            };
            TextSelection {
                caret: target as usize,
                anchor: if select {
                    s.anchor
                } else {
                    target as usize
                },
            }
        },
        _ => s,
    }
}

pub open spec fn same_range(a: TextSelection, c: TextSelection) -> bool {
    sel_start(a) == sel_start(c) && sel_end(a) == sel_end(c)
}

/// The secondary selections that survive a motion: those whose range differs
/// from the primary's and from every earlier survivor's.
pub open spec fn dedup_secondary(rest: Seq<TextSelection>, primary: TextSelection) -> Seq<
    TextSelection,
>
    decreases rest.len(),
{
    if rest.len() == 0 {
        seq![]
    } else {
        let d = dedup_secondary(rest.drop_last(), primary);
        let s = rest.last();
        if same_range(s, primary) || (exists|k: int| 0 <= k < d.len() && same_range(d[k], s)) {
            d
        } else {
            d.push(s)
        }
    }
}

proof fn lemma_dedup_subset(rest: Seq<TextSelection>, primary: TextSelection)
    ensures
        forall|k: int|
            0 <= k < dedup_secondary(rest, primary).len() ==> rest.contains(
                #[trigger] dedup_secondary(rest, primary)[k],
            ),
    decreases rest.len(),
{
    if rest.len() > 0 {
        lemma_dedup_subset(rest.drop_last(), primary);
        let d = dedup_secondary(rest.drop_last(), primary);
        assert forall|k: int| 0 <= k < d.len() implies rest.contains(#[trigger] d[k]) by {
            let j = choose|j: int| 0 <= j < rest.drop_last().len() && rest.drop_last()[j] == d[k];
            assert(rest[j] == d[k]);
        }
        assert(rest[rest.len() - 1] == rest.last());
    }
}

fn same_range_exec(a: TextSelection, c: TextSelection) -> (r: bool)
    ensures
        r == same_range(a, c),
{
    let (a0, a1) = a.range();
    let (c0, c1) = c.range();
    a0 == c0 && a1 == c1
}

fn seq_eq_exec(a: &Vec<TextSelection>, c: &Vec<TextSelection>) -> (r: bool)
    ensures
        r == (a@ == c@),
{
    if a.len() != c.len() {
        return false;
    }
    let mut i: usize = 0;
    while i < a.len()
        invariant
            a@.len() == c@.len(),
            i <= a@.len(),
            forall|k: int| 0 <= k < i ==> a@[k] == c@[k],
        decreases a@.len() - i,
    {
        if a[i] != c[i] {
            return false;
        }
        i = i + 1;
    }
    assert(a@ =~= c@);
    true
}

/// The selections after a motion `after` (one per selection, primary first).
pub open spec fn mapped_secondary(after: Seq<TextSelection>) -> Seq<TextSelection> {
    dedup_secondary(after.drop_first(), after[0])
}

/// Replaces every selection by its moved counterpart: the first becomes the
/// primary, later ones sharing a range with the primary or an earlier one are
/// dropped. Reports `Caret` when the selection list changed.
pub fn map_selections(
    caret: &mut usize,
    anchor: &mut usize,
    secondary: &mut Selections,
    after: &Vec<TextSelection>,
) -> (change: Change)
    requires
        after@.len() == 1 + selections_of(*old(secondary)).len(),
    ensures
        *final(caret) == after@[0].caret,
        *final(anchor) == after@[0].anchor,
        selections_of(*final(secondary)) == mapped_secondary(after@),
        change == (if selection_seq(*final(caret), *final(anchor), selections_of(*final(secondary)))
            == selection_seq(*old(caret), *old(anchor), selections_of(*old(secondary))) {
            Change::Unchanged
        } else {
            Change::Caret
        }),
{
    let before = selection_list(*caret, *anchor, selections_slice(secondary));
    let primary = after[0];
    let ghost rest = after@.drop_first();
    let mut deduped: Vec<TextSelection> = Vec::new();
    let mut i: usize = 1;
    while i < after.len()
        invariant
            1 <= i <= after@.len(),
            rest == after@.drop_first(),
            primary == after@[0],
            deduped@ == dedup_secondary(rest.subrange(0, i - 1), primary),
            deduped@.len() < i,
        decreases after@.len() - i,
    {
        let s = after[i];
        let ghost prefix = rest.subrange(0, i - 1);
        assert(rest.subrange(0, i as int).drop_last() =~= prefix);
        assert(rest.subrange(0, i as int).last() == s);
        let mut dup = same_range_exec(s, primary);
        let mut k: usize = 0;
        while k < deduped.len() && !dup
            invariant
                k <= deduped@.len(),
                dup ==> (same_range(s, primary) || exists|j: int|
                    0 <= j < deduped@.len() && same_range(deduped@[j], s)),
                !dup ==> !same_range(s, primary) && forall|j: int|
                    0 <= j < k ==> !same_range(deduped@[j], s),
            decreases deduped@.len() - k,
        {
            if same_range_exec(deduped[k], s) {
                dup = true;
            }
            k = k + 1;
        }
        if !dup {
            deduped.push(s);
        }
        i = i + 1;
    }
    assert(rest.subrange(0, after@.len() - 1) =~= rest);
    *caret = primary.caret;
    *anchor = primary.anchor;
    let ghost _ = selections_of(*secondary);
    selections_clear(secondary);
    let mut j: usize = 0;
    while j < deduped.len()
        invariant
            j <= deduped@.len(),
            deduped@.len() < after@.len(),
            selections_of(*secondary) == deduped@.subrange(0, j as int),
        decreases deduped@.len() - j,
    {
        selections_push(secondary, deduped[j]);
        j = j + 1;
        assert(deduped@.subrange(0, j as int) =~= deduped@.subrange(0, j - 1).push(deduped@[j - 1]));
    }
    assert(deduped@.subrange(0, deduped@.len() as int) =~= deduped@);
    let now = selection_list(*caret, *anchor, selections_slice(secondary));
    if seq_eq_exec(&now, &before) {
        Change::Unchanged
    } else {
        Change::Caret
    }
}

/// Index of the first occurrence of `x` in `s` at or after `k` (`s.len()` if none).
pub open spec fn first_index(s: Seq<TextSelection>, x: TextSelection, k: int) -> int
    decreases s.len() - k,
{
    if k < 0 || k >= s.len() {
        s.len() as int
    } else if s[k] == x {
        k
    } else {
        first_index(s, x, k + 1)
    }
}

/// The first occurrence of a contained item is a valid index holding it.
pub proof fn lemma_first_index(s: Seq<TextSelection>, x: TextSelection)
    requires
        s.contains(x),
    ensures
        0 <= first_index(s, x, 0) < s.len(),
        s[first_index(s, x, 0)] == x,
{
    let w = choose|w: int| 0 <= w < s.len() && s[w] == x;
    lemma_first_index_from(s, x, 0, w);
}

proof fn lemma_first_index_from(s: Seq<TextSelection>, x: TextSelection, k: int, w: int)
    requires
        0 <= k <= w < s.len(),
        s[w] == x,
    ensures
        k <= first_index(s, x, k) <= w,
        s[first_index(s, x, k)] == x,
    decreases w - k,
{
    if s[k] != x {
        lemma_first_index_from(s, x, k + 1, w);
    }
}

/// The selections after toggling a caret at `at`: an existing collapsed
/// secondary caret there is removed; clicking the collapsed primary caret
/// promotes the last secondary selection (no change without one); otherwise a
/// collapsed caret is added.
pub open spec fn toggle_spec(caret: usize, anchor: usize, sec: Seq<TextSelection>, at: usize) -> (
    usize,
    usize,
    Seq<TextSelection>,
    Change,
) {
    let hit = TextSelection { caret: at, anchor: at };
    if sec.contains(hit) {
        (caret, anchor, sec.remove(first_index(sec, hit, 0)), Change::Caret)
    } else if caret == at && anchor == at {
        if sec.len() > 0 {
            (sec.last().caret, sec.last().anchor, sec.drop_last(), Change::Caret)
        } else {
            (caret, anchor, sec, Change::Unchanged)
        }
    } else {
        (caret, anchor, sec.push(hit), Change::Caret)
    }
}

/// Adds a collapsed caret at `at`, or removes it when one is already there.
/// Clicking the primary caret promotes the last secondary selection.
pub fn toggle_additional_caret(
    caret: &mut usize,
    anchor: &mut usize,
    secondary: &mut Selections,
    at: usize,
) -> (change: Change)
    requires
        selections_of(*old(secondary)).len() < usize::MAX,
    ensures
        ({
            let t = toggle_spec(*old(caret), *old(anchor), selections_of(*old(secondary)), at);
            &&& *final(caret) == t.0
            &&& *final(anchor) == t.1
            &&& selections_of(*final(secondary)) == t.2
            &&& change == t.3
        }),
{
    let hit = TextSelection { caret: at, anchor: at };
    let ghost sec = selections_of(*secondary);
    let found = {
        let items = selections_slice(secondary);
        let mut i: usize = 0;
        let mut found: Option<usize> = None;
        while i < items.len() && found.is_none()
            invariant
                items@ == sec,
                i <= sec.len(),
                found is None ==> forall|k: int| 0 <= k < i ==> sec[k] != hit,
                found is None ==> first_index(sec, hit, 0) == first_index(sec, hit, i as int),
                found matches Some(f) ==> f < sec.len() && sec[f as int] == hit && first_index(
                    sec,
                    hit,
                    0,
                ) == f,
            decreases sec.len() - i, if found is None { 1int } else { 0int },
        {
            if items[i] == hit {
                found = Some(i);
            } else {
                i = i + 1;
            }
        }
        found
    };
    match found {
        Some(index) => {
            let _ = selections_remove(secondary, index);
            assert(sec.contains(hit)) by {
                assert(sec[index as int] == hit);
            }
            Change::Caret
        },
        None => {
            assert(!sec.contains(hit));
            if *caret == at && *anchor == at {
                match selections_pop(secondary) {
                    Some(promoted) => {
                        *caret = promoted.caret;
                        *anchor = promoted.anchor;
                        Change::Caret
                    },
                    None => Change::Unchanged,
                }
            } else {
                selections_push(secondary, hit);
                Change::Caret
            }
        },
    }
}

// ---------------------------------------------------------------------------
// the retained edit state
// ---------------------------------------------------------------------------

/// One text input's retained editing state: its value, whether it is a
/// password, its placeholder, the primary caret/anchor, additional carets, and
/// the origin of the current pointer gesture.
pub struct EditState {
    pub value: String,
    /// Whether display surfaces must obscure `value`.
    pub password: bool,
    pub placeholder: String,
    pub caret: usize,
    pub anchor: usize,
    /// Selection unit captured by the current pointer gesture.
    pub pointer_origin: Option<PointerOrigin>,
    /// Additional selections/carets beside the primary one.
    pub secondary: Selections,
}

impl EditState {
    /// Every selection (primary first).
    pub open spec fn selections(&self) -> Seq<TextSelection> {
        selection_seq(self.caret, self.anchor, selections_of(self.secondary))
    }

    /// The UTF-8 bytes of the value.
    pub open spec fn bytes(&self) -> Seq<u8> {
        bytes_of(self.value@)
    }

    /// Every caret and anchor lies on a character boundary. (The gesture
    /// origin is kept across edits, so it may have gone stale; a drag needs
    /// it on boundaries.)
    pub open spec fn wf(&self) -> bool {
        &&& all_on_boundaries(self.bytes(), self.selections())
        &&& selections_of(self.secondary).len() < usize::MAX - 1
    }

    /// Every selection, primary first.
    pub fn all_selections(&self) -> (r: Vec<TextSelection>)
        ensures
            r@ == self.selections(),
    {
        selection_list(self.caret, self.anchor, selections_slice(&self.secondary))
    }

    /// The state a freshly built input registers: the caret parked at the end.
    pub fn new(value: String, placeholder: String, password: bool) -> (r: EditState)
        ensures
            r.wf(),
            r.value@ == value@,
            r.placeholder@ == placeholder@,
            r.password == password,
            r.caret == bytes_of(value@).len(),
            r.anchor == bytes_of(value@).len(),
            selections_of(r.secondary).len() == 0,
            r.pointer_origin is None,
    {
        let end = value.as_str().as_bytes().len();
        proof {
            encode_utf8_valid_utf8(value@);
            lemma_zero_boundary(bytes_of(value@));
        }
        let r = EditState {
            value,
            password,
            placeholder,
            caret: end,
            anchor: end,
            pointer_origin: None,
            secondary: selections_new(),
        };
        assert(r.selections().len() == 1);
        r
    }
}

/// The outcome of one replacement at every selection (see `replace_selections`).
pub open spec fn replace_post(
    pre: EditState,
    post: EditState,
    rep: Seq<char>,
    mode: ReplaceMode,
    change: Change,
) -> bool {
    let b = pre.bytes();
    let es = replace_edits(b, pre.selections(), mode);
    let rb = bytes_of(rep);
    let positions = replace_positions(b, es, rb);
    let pi = first_primary(es, 0);
    if mutates(es, rb) {
        &&& change == Change::Text
        &&& post.bytes() == splice(b, es, rb)
        &&& post.caret == positions[pi]
        &&& post.anchor == positions[pi]
        &&& selections_of(post.secondary) == replaced_secondary(positions, pi)
        &&& post.pointer_origin == pre.pointer_origin
    } else {
        &&& change == Change::Unchanged
        &&& post.value@ == pre.value@
        &&& post.selections() == pre.selections()
        &&& post.pointer_origin == pre.pointer_origin
    }
}

/// The outcome of moving every selection with a caret-motion key.
pub open spec fn motion_post(
    pre: EditState,
    post: EditState,
    key: EditKey,
    multiline: bool,
    change: Change,
) -> bool {
    let after = pre.selections().map_values(
        |s: TextSelection| move_target(pre.bytes(), key, s, multiline),
    );
    &&& post.value@ == pre.value@
    &&& post.caret == after[0].caret
    &&& post.anchor == after[0].anchor
    &&& selections_of(post.secondary) == mapped_secondary(after)
    &&& post.pointer_origin == pre.pointer_origin
    &&& change == (if post.selections() == pre.selections() {
        Change::Unchanged
    } else {
        Change::Caret
    })
}

/// What a key does to an input's state.
pub open spec fn key_post(pre: EditState, post: EditState, key: EditKey, change: Change) -> bool {
    &&& post.password == pre.password
    &&& post.placeholder@ == pre.placeholder@
    &&& match key {
        EditKey::Insert(t) => replace_post(pre, post, t@, ReplaceMode::Selection, change),
        EditKey::Backspace => replace_post(pre, post, Seq::empty(), ReplaceMode::Backspace, change),
        EditKey::Delete => replace_post(pre, post, Seq::empty(), ReplaceMode::Delete, change),
        EditKey::Left { .. } | EditKey::Right { .. } | EditKey::Home { .. } | EditKey::End {
            ..
        } => motion_post(pre, post, key, false, change),
        EditKey::Up { .. } | EditKey::Down { .. } | EditKey::Enter => {
            &&& change == Change::Unchanged
            &&& post.value@ == pre.value@
            &&& post.selections() == pre.selections()
            &&& post.pointer_origin == pre.pointer_origin
        },
        EditKey::SelectAll => {
            &&& post.value@ == pre.value@
            &&& post.caret == pre.bytes().len()
            &&& post.anchor == 0
            &&& selections_of(post.secondary).len() == 0
            &&& post.pointer_origin == pre.pointer_origin
            &&& change == (if pre.caret == pre.bytes().len() && pre.anchor == 0 && selections_of(
                pre.secondary,
            ).len() == 0 {
                Change::Unchanged
            } else {
                Change::Caret
            })
        },
    }
}

fn move_selection(value: &str, key: EditKey, s: TextSelection, multiline: bool) -> (r: TextSelection)
    requires
        sel_on_boundaries(bytes_of(value@), s),
    ensures
        r == move_target(bytes_of(value@), key, s, multiline),
        sel_on_boundaries(bytes_of(value@), r),
{
    let ghost b = bytes_of(value@);
    let len = value.as_bytes().len();
    proof {
        encode_utf8_valid_utf8(value@);
        lemma_zero_boundary(b);
        lemma_boundary_below(b, s.caret as int);
        lemma_boundary_above(b, s.caret as int);
        crate::boundary::lemma_line_edges(b, s.caret as int);
    }
    match key {
        EditKey::Left { select, word } => {
            let (start, _) = s.range();
            let target = if !select && !word && s.caret != s.anchor {
                start
            } else if word {
                prev_word(value, s.caret)
            } else {
                prev_boundary(value, s.caret)
            };
            TextSelection {
                caret: target,
                anchor: if select {
                    s.anchor
                } else {
                    target
                },
            }
        },
        EditKey::Right { select, word } => {
            let (_, end) = s.range();
            let target = if !select && !word && s.caret != s.anchor {
                end
            } else if word {
                next_word(value, s.caret)
            } else {
                next_boundary(value, s.caret)
            };
            TextSelection {
                caret: target,
                anchor: if select {
                    s.anchor
                } else {
                    target
                },
            }
        },
        EditKey::Home { select } => {
            let target = if multiline {
                line_start(value, s.caret)
            } else {
                0
            };
            TextSelection {
                caret: target,
                anchor: if select {
                    s.anchor
                } else {
                    target
                },
            }
        },
        EditKey::End { select } => {
            let target = if multiline {
                line_end(value, s.caret)
            } else {
                len
            };
            TextSelection {
                caret: target,
                anchor: if select {
                    s.anchor
                } else {
                    target
                },
            }
        },
        _ => s,
    }
}

impl EditState {
    pub(crate) fn replace(&mut self, replacement: &str, mode: ReplaceMode) -> (change: Change)
        requires
            old(self).wf(),
        ensures
            final(self).wf(),
            final(self).password == old(self).password,
            final(self).placeholder@ == old(self).placeholder@,
            replace_post(*old(self), *final(self), replacement@, mode, change),
    {
        let change = replace_selections(
            &mut self.value,
            &mut self.caret,
            &mut self.anchor,
            &mut self.secondary,
            replacement,
            mode,
        );
        proof {
            if change == Change::Text {
                let b = bytes_of(old(self).value@);
                let es = replace_edits(b, old(self).selections(), mode);
                let positions = replace_positions(b, es, bytes_of(replacement@));
                let pi = first_primary(es, 0);
                crate::selection::lemma_replace_edits_len(b, old(self).selections(), mode);
                crate::selection::lemma_first_primary(es, 0);
                positions.remove_ensures(pi);
                assert(selections_of(self.secondary).len() == positions.len() - 1);
            }
        }
        change
    }

    pub(crate) fn motion(&mut self, key: EditKey, multiline: bool) -> (change: Change)
        requires
            old(self).wf(),
        ensures
            final(self).wf(),
            final(self).password == old(self).password,
            final(self).placeholder@ == old(self).placeholder@,
            motion_post(*old(self), *final(self), key, multiline, change),
    {
        let before = selection_list(self.caret, self.anchor, selections_slice(&self.secondary));
        let ghost b = self.bytes();
        let mut after: Vec<TextSelection> = Vec::new();
        let mut i: usize = 0;
        while i < before.len()
            invariant
                b == bytes_of(self.value@),
                all_on_boundaries(b, before@),
                i <= before@.len(),
                after@ == before@.subrange(0, i as int).map_values(
                    |s: TextSelection| move_target(b, key, s, multiline),
                ),
                forall|k: int| 0 <= k < after@.len() ==> sel_on_boundaries(b, #[trigger] after@[k]),
            decreases before@.len() - i,
        {
            let moved = move_selection(self.value.as_str(), key, before[i], multiline);
            after.push(moved);
            i = i + 1;
            assert(after@ =~= before@.subrange(0, i as int).map_values(
                |s: TextSelection| move_target(b, key, s, multiline),
            ));
        }
        assert(before@.subrange(0, before@.len() as int) =~= before@);
        let change = map_selections(&mut self.caret, &mut self.anchor, &mut self.secondary, &after);
        proof {
            let rest = after@.drop_first();
            lemma_dedup_subset(rest, after@[0]);
            crate::edit::lemma_dedup_len(rest, after@[0]);
            let sel = self.selections();
            assert forall|k: int| 0 <= k < sel.len() implies sel_on_boundaries(
                b,
                #[trigger] sel[k],
            ) by {
                if k > 0 {
                    let d = mapped_secondary(after@);
                    assert(sel[k] == d[k - 1]);
                    assert(rest.contains(d[k - 1]));
                    let j = choose|j: int| 0 <= j < rest.len() && rest[j] == d[k - 1];
                    assert(rest[j] == after@[j + 1]);
                }
            }
        }
        change
    }

    /// Applies one editing key (see `key_post` for what each key does).
    pub fn apply(&mut self, key: EditKey) -> (change: Change)
        requires
            old(self).wf(),
        ensures
            final(self).wf(),
            key_post(*old(self), *final(self), key, change),
    {
        match key {
            EditKey::Insert(t) => self.replace(t, ReplaceMode::Selection),
            EditKey::Backspace => {
                let empty = "";
                proof {
                    reveal_strlit("");
                }
                self.replace(empty, ReplaceMode::Backspace)
            },
            EditKey::Delete => {
                let empty = "";
                proof {
                    reveal_strlit("");
                }
                self.replace(empty, ReplaceMode::Delete)
            },
            EditKey::Left { .. } | EditKey::Right { .. } | EditKey::Home { .. } | EditKey::End {
                ..
            } => self.motion(key, false),
            EditKey::Up { .. } | EditKey::Down { .. } | EditKey::Enter => Change::Unchanged,
            EditKey::SelectAll => {
                let had_secondary = selections_slice(&self.secondary).len() > 0;
                let before_caret = self.caret;
                let before_anchor = self.anchor;
                selections_clear(&mut self.secondary);
                self.anchor = 0;
                self.caret = self.value.as_str().as_bytes().len();
                proof {
                    encode_utf8_valid_utf8(self.value@);
                    lemma_zero_boundary(self.bytes());
                    assert(self.selections().len() == 1);
                }
                if self.caret == before_caret && self.anchor == before_anchor && !had_secondary {
                    Change::Unchanged
                } else {
                    Change::Caret
                }
            },
        }
    }
}

proof fn lemma_dedup_len(rest: Seq<TextSelection>, primary: TextSelection)
    ensures
        dedup_secondary(rest, primary).len() <= rest.len(),
    decreases rest.len(),
{
    if rest.len() > 0 {
        lemma_dedup_len(rest.drop_last(), primary);
    }
}

} // verus!
