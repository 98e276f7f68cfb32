//! The multi-line editor: the same retained edit state as a single-line
//! input, with Enter inserting a newline, line-scoped Home/End, Up/Down
//! between lines, and an optional read-only mode that keeps caret motion and
//! selection but rejects every mutation.

use vstd::prelude::*;
use vstd::utf8::*;

use crate::boundary::{
    bytes_of, is_boundary, lemma_line_edges, line_end, line_end_spec, line_start,
    line_start_spec,
};
use crate::clipboard::{clipboard_text, normalize_paste, paste_spec};
use crate::color::Color;
use crate::semantics::{Callback, Role, WidgetKind};
use crate::dispatch::{pointer_post, set_value_post};
use crate::edit::{key_post, motion_post, replace_post, EditKey, EditState};
use crate::pointer::{origin_on_boundaries, TextPointerAction};
use crate::selection::{all_on_boundaries, lemma_zero_boundary, sel_on_boundaries, selection_list, Change, ReplaceMode};
use crate::small_vec::{selections_clear, selections_of, selections_push, selections_slice, TextSelection};

verus! {

broadcast use vstd::utf8::group_utf8_lib;

/// One multi-line editor's retained state.
pub struct AreaState {
    pub edit: EditState,
    /// Keeps caret motion and selection, rejects mutations.
    pub read_only: bool,
}

/// Keys that would change the value.
pub open spec fn mutating(key: EditKey) -> bool {
    match key {
        EditKey::Insert(_) | EditKey::Backspace | EditKey::Delete | EditKey::Enter => true,
        _ => false,
    }
}

/// Up and Down, which need the host's line layout.
pub open spec fn vertical_key(key: EditKey) -> bool {
    match key {
        EditKey::Up { .. } | EditKey::Down { .. } => true,
        _ => false,
    }
}

/// What a (non-vertical) key does to a multi-line editor.
pub open spec fn area_key_post(
    pre: EditState,
    post: EditState,
    key: EditKey,
    read_only: bool,
    change: Change,
) -> bool {
    if read_only && mutating(key) {
        change == Change::Unchanged && post == pre
    } else {
        match key {
            EditKey::Home { .. } | EditKey::End { .. } => {
                &&& post.password == pre.password
                &&& post.placeholder@ == pre.placeholder@
                &&& motion_post(pre, post, key, true, change)
            },
            EditKey::Enter => {
                &&& post.password == pre.password
                &&& post.placeholder@ == pre.placeholder@
                &&& replace_post(pre, post, seq!['\n'], ReplaceMode::Selection, change)
            },
            _ => key_post(pre, post, key, change),
        }
    }
}

/// The line Up (or Down) moves a caret at `i` to, as `(start, end)` without
/// its newline: the previous (next) line, or the very start (end) of the
/// text from the first (last) line.
pub open spec fn vertical_line_spec(b: Seq<u8>, i: int, down: bool) -> (int, int) {
    let ls = line_start_spec(b, i);
    let le = line_end_spec(b, i);
    if down {
        if le >= b.len() {
            (b.len() as int, b.len() as int)
        } else {
            (le + 1, line_end_spec(b, le + 1))
        }
    } else {
        if ls == 0 {
            (0, 0)
        } else {
            (line_start_spec(b, ls - 1), ls - 1)
        }
    }
}

/// The targets are one caret per selection (primary first), each a boundary
/// on that selection's destination line.
pub open spec fn vertical_targets(
    b: Seq<u8>,
    sels: Seq<TextSelection>,
    down: bool,
    targets: Seq<usize>,
) -> bool {
    &&& targets.len() == sels.len()
    &&& forall|k: int|
        0 <= k < sels.len() ==> {
            let line = #[trigger] vertical_line_spec(b, sels[k].caret as int, down);
            line.0 <= targets[k] <= line.1 && is_boundary(b, targets[k] as int)
        }
}

/// Every selection moved to its target; the anchor follows unless extending.
pub open spec fn moved_vertically(sels: Seq<TextSelection>, targets: Seq<usize>, select: bool) -> Seq<
    TextSelection,
> {
    Seq::new(
        sels.len(),
        |k: int|
            TextSelection {
                caret: targets[k],
                anchor: if select {
                    sels[k].anchor
                } else {
                    targets[k]
                },
            },
    )
}

/// `s` without the items equal to `x`.
pub open spec fn without_sel(s: Seq<TextSelection>, x: TextSelection) -> Seq<TextSelection>
    decreases s.len(),
{
    if s.len() == 0 {
        Seq::empty()
    } else if s.last() == x {
        without_sel(s.drop_last(), x)
    } else {
        without_sel(s.drop_last(), x).push(s.last())
    }
}

/// What Up/Down does: every selection moves to its target; a secondary
/// selection landing exactly on the primary is dropped.
pub open spec fn vertical_post(
    pre: EditState,
    post: EditState,
    targets: Seq<usize>,
    select: bool,
    change: Change,
) -> bool {
    let moved = moved_vertically(pre.selections(), targets, select);
    &&& post.value@ == pre.value@
    &&& post.password == pre.password
    &&& post.placeholder@ == pre.placeholder@
    &&& post.pointer_origin == pre.pointer_origin
    &&& post.caret == moved[0].caret
    &&& post.anchor == moved[0].anchor
    &&& selections_of(post.secondary) == without_sel(moved.drop_first(), moved[0])
    &&& change == (if post.selections() == pre.selections() {
        Change::Unchanged
    } else {
        Change::Caret
    })
}

proof fn lemma_without_sel(s: Seq<TextSelection>, x: TextSelection)
    ensures
        without_sel(s, x).len() <= s.len(),
        forall|k: int|
            0 <= k < without_sel(s, x).len() ==> s.contains(#[trigger] without_sel(s, x)[k]),
    decreases s.len(),
{
    if s.len() > 0 {
        lemma_without_sel(s.drop_last(), x);
        let d = without_sel(s.drop_last(), x);
        assert forall|k: int| 0 <= k < d.len() implies s.contains(#[trigger] d[k]) by {
            let j = choose|j: int| 0 <= j < s.drop_last().len() && s.drop_last()[j] == d[k];
            assert(s[j] == d[k]);
        }
        assert(s[s.len() - 1] == s.last());
    }
}

/// The destination line of an Up/Down press for a caret at `caret`.
pub fn vertical_line(value: &str, caret: usize, down: bool) -> (r: (usize, usize))
    requires
        caret <= bytes_of(value@).len(),
    ensures
        r.0 == vertical_line_spec(bytes_of(value@), caret as int, down).0,
        r.1 == vertical_line_spec(bytes_of(value@), caret as int, down).1,
        r.0 <= r.1 <= bytes_of(value@).len(),
{
    let ghost b = bytes_of(value@);
    let len = value.as_bytes().len();
    let ls = line_start(value, caret);
    let le = line_end(value, caret);
    proof {
        encode_utf8_valid_utf8(value@);
        lemma_line_edges(b, caret as int);
    }
    if down {
        if le >= len {
            (len, len)
        } else {
            proof {
                lemma_line_edges(b, le + 1);
            }
            (le + 1, line_end(value, le + 1))
        }
    } else {
        if ls == 0 {
            (0, 0)
        } else {
            proof {
                lemma_line_edges(b, ls - 1);
            }
            (line_start(value, ls - 1), ls - 1)
        }
    }
}

impl AreaState {
    pub open spec fn wf(&self) -> bool {
        self.edit.wf() && !self.edit.password
    }

    /// The state a freshly built editor registers: the caret at the end.
    pub fn new(value: String, placeholder: String, read_only: bool) -> (r: AreaState)
        ensures
            r.wf(),
            r.edit.value@ == value@,
            r.edit.placeholder@ == placeholder@,
            r.read_only == read_only,
            r.edit.caret == bytes_of(value@).len(),
            r.edit.anchor == bytes_of(value@).len(),
            selections_of(r.edit.secondary).len() == 0,
    {
        AreaState { edit: EditState::new(value, placeholder, false), read_only }
    }

    /// Applies one non-vertical key.
    pub fn apply(&mut self, key: EditKey) -> (change: Change)
        requires
            old(self).wf(),
            !vertical_key(key),
        ensures
            final(self).wf(),
            final(self).read_only == old(self).read_only,
            area_key_post(old(self).edit, final(self).edit, key, old(self).read_only, change),
    {
        if self.read_only && match key {
            EditKey::Insert(_) | EditKey::Backspace | EditKey::Delete | EditKey::Enter => true,
            _ => false,
        } {
            return Change::Unchanged;
        }
        match key {
            EditKey::Home { .. } | EditKey::End { .. } => {
                let change = self.edit.motion(key, true);
                change
            },
            EditKey::Enter => {
                let newline = "\n";
                proof {
                    reveal_strlit("\n");
                }
                assert(newline@ =~= seq!['\n']);
                self.edit.replace(newline, ReplaceMode::Selection)
            },
            _ => self.edit.apply(key),
        }
    }

    /// Moves every selection to its line above or below; `targets` holds,
    /// per selection (primary first), the caret the host's line layout picked
    /// on that selection's `vertical_line`.
    pub fn vertical(&mut self, down: bool, select: bool, targets: &[usize]) -> (change: Change)
        requires
            old(self).wf(),
            vertical_targets(old(self).edit.bytes(), old(self).edit.selections(), down, targets@),
        ensures
            final(self).wf(),
            final(self).read_only == old(self).read_only,
            vertical_post(old(self).edit, final(self).edit, targets@, select, change),
    {
        let ghost pre = self.edit;
        let ghost b = self.edit.bytes();
        let before = self.edit.all_selections();
        let mut moved: Vec<TextSelection> = Vec::new();
        let mut k: usize = 0;
        while k < before.len()
            invariant
                before@ == pre.selections(),
                targets@.len() == before@.len(),
                k <= before@.len(),
                moved@ == moved_vertically(before@, targets@, select).subrange(0, k as int),
            decreases before@.len() - k,
        {
            let target = targets[k];
            moved.push(
                TextSelection {
                    caret: target,
                    anchor: if select {
                        before[k].anchor
                    } else {
                        target
                    },
                },
            );
            k = k + 1;
            assert(moved@ =~= moved_vertically(before@, targets@, select).subrange(0, k as int));
        }
        assert(moved@ =~= moved_vertically(before@, targets@, select));
        let primary = moved[0];
        let ghost rest = moved@.drop_first();
        let mut kept: Vec<TextSelection> = Vec::new();
        let mut i: usize = 1;
        while i < moved.len()
            invariant
                1 <= i <= moved@.len(),
                rest == moved@.drop_first(),
                primary == moved@[0],
                kept@ == without_sel(rest.subrange(0, i - 1), primary),
            decreases moved@.len() - i,
        {
            let s = moved[i];
            assert(rest.subrange(0, i as int).drop_last() =~= rest.subrange(0, i - 1));
            assert(rest.subrange(0, i as int).last() == s);
            if s != primary {
                kept.push(s);
            }
            i = i + 1;
        }
        assert(rest.subrange(0, moved@.len() - 1) =~= rest);
        proof {
            lemma_without_sel(rest, primary);
        }
        self.edit.caret = primary.caret;
        self.edit.anchor = primary.anchor;
        let ghost _ = selections_of(self.edit.secondary);
        selections_clear(&mut self.edit.secondary);
        let mut j: usize = 0;
        while j < kept.len()
            invariant
                j <= kept@.len(),
                kept@.len() <= rest.len(),
                rest.len() + 1 == pre.selections().len(),
                selections_of(pre.secondary).len() < usize::MAX - 1,
                selections_of(self.edit.secondary) == kept@.subrange(0, j as int),
                self.edit.caret == primary.caret,
                self.edit.anchor == primary.anchor,
                self.edit.value == pre.value,
                self.edit.password == pre.password,
                self.edit.placeholder == pre.placeholder,
                self.edit.pointer_origin == pre.pointer_origin,
                self.read_only == old(self).read_only,
            decreases kept@.len() - j,
        {
            selections_push(&mut self.edit.secondary, kept[j]);
            j = j + 1;
            assert(kept@.subrange(0, j as int) =~= kept@.subrange(0, j - 1).push(kept@[j - 1]));
        }
        assert(kept@.subrange(0, kept@.len() as int) =~= kept@);
        proof {
            let sels = self.edit.selections();
            let mv = moved_vertically(pre.selections(), targets@, select);
            assert(moved@ == mv);
            assert(sels[0] == TextSelection { caret: primary.caret, anchor: primary.anchor });
            assert forall|k: int| 0 <= k < sels.len() implies sel_on_boundaries(b, #[trigger] sels[k]) by {
                let src: int = if k == 0 {
                    0
                } else {
                    let d = without_sel(rest, primary);
                    assert(sels[k] == d[k - 1]);
                    assert(rest.contains(d[k - 1]));
                    let j = choose|j: int| 0 <= j < rest.len() && rest[j] == d[k - 1];
                    assert(rest[j] == moved@[j + 1]);
                    j + 1
                };
                assert(sels[k] == mv[src]);
                assert(sel_on_boundaries(b, pre.selections()[src]));
                let line = vertical_line_spec(b, pre.selections()[src].caret as int, down);
                assert(line.0 <= targets@[src] <= line.1 && is_boundary(b, targets@[src] as int));
            }
        }
        let after = self.edit.all_selections();
        let mut same = after.len() == before.len();
        let mut m: usize = 0;
        while same && m < after.len()
            invariant
                m <= after@.len(),
                same ==> after@.len() == before@.len(),
                same ==> forall|q: int| 0 <= q < m ==> after@[q] == before@[q],
                !same ==> after@ != before@,
            decreases after@.len() - m,
        {
            if after[m] != before[m] {
                same = false;
            }
            m = m + 1;
        }
        if same {
            assert(after@ =~= before@);
            Change::Unchanged
        } else {
            Change::Caret
        }
    }
}

/// Routes one non-vertical key to a multi-line editor.
pub fn dispatch_area_key(state: &mut AreaState, editable: bool, key: EditKey) -> (change: Change)
    requires
        old(state).wf(),
        !vertical_key(key),
    ensures
        final(state).wf(),
        editable ==> area_key_post(old(state).edit, final(state).edit, key, old(state).read_only, change),
        !editable ==> change == Change::Unchanged && final(state).edit == old(state).edit,
        final(state).read_only == old(state).read_only,
{
    if !editable {
        return Change::Unchanged;
    }
    state.apply(key)
}

/// Inserts clipboard text into a multi-line editor, with every CRLF and
/// lone CR turned into LF first; a read-only editor refuses it.
pub fn dispatch_area_paste(state: &mut AreaState, editable: bool, text: &str) -> (change: Change)
    requires
        old(state).wf(),
    ensures
        final(state).wf(),
        final(state).read_only == old(state).read_only,
        editable && old(state).read_only ==> change == Change::Unchanged && final(state).edit
            == old(state).edit,
        editable && !old(state).read_only ==> final(state).edit.password == old(state).edit.password
            && final(state).edit.placeholder@ == old(state).edit.placeholder@ && replace_post(
            old(state).edit,
            final(state).edit,
            paste_spec(text@, true),
            ReplaceMode::Selection,
            change,
        ),
        !editable ==> change == Change::Unchanged && final(state).edit == old(state).edit,
{
    let normalized = normalize_paste(text, true);
    dispatch_area_key(state, editable, EditKey::Insert(normalized.as_str()))
}

/// Routes Up (`down == false`) or Down to a multi-line editor, with the
/// host's per-selection caret targets (see `AreaState::vertical`).
pub fn dispatch_area_vertical(
    state: &mut AreaState,
    editable: bool,
    down: bool,
    select: bool,
    targets: &[usize],
) -> (change: Change)
    requires
        old(state).wf(),
        vertical_targets(old(state).edit.bytes(), old(state).edit.selections(), down, targets@),
    ensures
        final(state).wf(),
        editable ==> vertical_post(old(state).edit, final(state).edit, targets@, select, change),
        !editable ==> change == Change::Unchanged && final(state).edit == old(state).edit,
        final(state).read_only == old(state).read_only,
{
    if !editable {
        return Change::Unchanged;
    }
    state.vertical(down, select, targets)
}

/// Applies a pointer gesture at value byte indices (the host maps the pointer
/// to a row and an offset in that row's line); line selection selects the
/// line under the pointer with its newline.
pub fn dispatch_area_pointer(
    state: &mut AreaState,
    editable: bool,
    caret_idx: usize,
    hit_idx: usize,
    action: TextPointerAction,
) -> (change: Change)
    requires
        old(state).wf(),
        is_boundary(old(state).edit.bytes(), caret_idx as int),
        is_boundary(old(state).edit.bytes(), hit_idx as int),
        action == TextPointerAction::AddCaret ==> selections_of(old(state).edit.secondary).len() + 2
            < usize::MAX,
        action == TextPointerAction::Drag ==> origin_on_boundaries(
            old(state).edit.bytes(),
            old(state).edit.pointer_origin,
        ),
    ensures
        final(state).wf(),
        editable ==> origin_on_boundaries(final(state).edit.bytes(), final(state).edit.pointer_origin),
        editable ==> pointer_post(
            old(state).edit,
            final(state).edit,
            caret_idx,
            hit_idx,
            action,
            true,
            change,
        ),
        !editable ==> change == Change::Unchanged && final(state).edit == old(state).edit,
        final(state).read_only == old(state).read_only,
{
    if !editable {
        return Change::Unchanged;
    }
    state.edit.pointer(action, caret_idx, hit_idx, true)
}

/// Replaces the whole value unless the editor is read-only.
pub fn dispatch_area_set_value(state: &mut AreaState, editable: bool, value: &str) -> (change: Change)
    requires
        old(state).wf(),
    ensures
        final(state).wf(),
        editable && !old(state).read_only ==> set_value_post(
            old(state).edit,
            final(state).edit,
            value@,
            change,
        ),
        !editable || old(state).read_only ==> change == Change::Unchanged && final(state).edit
            == old(state).edit,
        final(state).read_only == old(state).read_only,
{
    if !editable || state.read_only {
        return Change::Unchanged;
    }
    state.edit.set_value(value)
}

/// The selected text of a multi-line editor (see `clipboard_text`).
pub fn selected_area_text(state: &AreaState) -> (r: Option<String>)
    requires
        state.wf(),
    ensures
        clipboard_text(state.edit.bytes(), state.edit.selections(), r),
{
    state.edit.selected()
}

/// Takes over the selection of `previous`, the same editor in a replaced
/// tree, when it holds the same value; returns whether it did.
pub fn inherit_area_selection(state: &mut AreaState, previous: &AreaState) -> (inherited: bool)
    requires
        old(state).wf(),
        previous.wf(),
    ensures
        final(state).wf(),
        final(state).read_only == old(state).read_only,
        inherited == (old(state).edit.value@ == previous.edit.value@),
        inherited ==> final(state).edit.selections() == previous.edit.selections(),
        !inherited ==> final(state).edit == old(state).edit,
{
    state.edit.inherit_selection(&previous.edit)
}

// ---------------------------------------------------------------------------
// the builder
// ---------------------------------------------------------------------------

/// The rows an empty editor reserves by default.
pub const MIN_ROWS: u32 = 3;

/// A visual-only source line-number gutter: numbering starts at
/// `start_line`, and `last_line` reserves width for the largest number a
/// windowed source may show.
#[derive(Clone, Copy, Debug, PartialEq, Eq, Structural)]
pub struct LineNumbers {
    pub start_line: usize,
    pub last_line: usize,
    pub color: Color,
}

/// A multi-line source editor: its value, hint, reserved rows, gutter,
/// whether it only selects and copies, and its input handler.
pub struct TextArea {
    pub value: String,
    /// Shown while the value is empty; also the accessible name.
    pub placeholder: String,
    pub min_rows: u32,
    pub line_numbers: Option<LineNumbers>,
    pub read_only: bool,
    pub on_input: Option<Callback>,
}

impl TextArea {
    /// An editable area holding `value`, reserving three rows.
    pub fn new(value: &str) -> (t: Self)
        ensures
            t.value@ == value@,
            t.placeholder@.len() == 0,
            t.min_rows == MIN_ROWS,
            t.line_numbers is None,
            !t.read_only,
            t.on_input is None,
    {
        TextArea {
            value: value.to_owned(),
            placeholder: String::new(),
            min_rows: MIN_ROWS,
            line_numbers: None,
            read_only: false,
            on_input: None,
        }
    }

    /// Sets the hint shown while the value is empty.
    pub fn placeholder(self, placeholder: &str) -> (t: Self)
        ensures
            t == (TextArea { placeholder: t.placeholder, ..self }),
            t.placeholder@ == placeholder@,
    {
        let mut t = self;
        t.placeholder = placeholder.to_owned();
        t
    }

    /// Fired with the whole new value after every edit.
    pub fn on_input(self, handler: Callback) -> (t: Self)
        ensures
            t == (TextArea { on_input: Some(handler), ..self }),
    {
        let mut t = self;
        t.on_input = Some(handler);
        t
    }

    /// The rows the empty editor reserves, at least one.
    pub fn rows(self, min_rows: u32) -> (t: Self)
        ensures
            t == (TextArea { min_rows: if min_rows >= 1 { min_rows } else { 1 }, ..self }),
    {
        let mut t = self;
        t.min_rows = if min_rows >= 1 { min_rows } else { 1 };
        t
    }

    /// Draws a line-number gutter beginning at `start_line`, wide enough for
    /// `last_line`.
    pub fn line_numbers(self, start_line: usize, last_line: usize, color: Color) -> (t: Self)
        ensures
            t == (TextArea { line_numbers: Some(LineNumbers { start_line, last_line, color }), ..self }),
    {
        let mut t = self;
        t.line_numbers = Some(LineNumbers { start_line, last_line, color });
        t
    }

    /// Makes the area a selectable, copyable projection that ignores edits.
    pub fn read_only(self) -> (t: Self)
        ensures
            t == (TextArea { read_only: true, ..self }),
    {
        let mut t = self;
        t.read_only = true;
        t
    }

    pub fn role(&self) -> (r: Role)
        ensures
            r == Role::MultilineTextInput,
    {
        Role::MultilineTextInput
    }

    pub fn kind(&self) -> (k: WidgetKind)
        ensures
            k == WidgetKind::TextArea,
    {
        WidgetKind::TextArea
    }

    /// The editor state a mounted area starts from: its value with the caret
    /// parked at the end, its hint and its read-only flag.
    pub fn state(&self) -> (r: AreaState)
        ensures
            r.wf(),
            r.edit.value@ == self.value@,
            r.edit.placeholder@ == self.placeholder@,
            r.read_only == self.read_only,
            r.edit.caret == bytes_of(self.value@).len(),
            r.edit.anchor == bytes_of(self.value@).len(),
            selections_of(r.edit.secondary).len() == 0,
    {
        AreaState::new(self.value.clone(), self.placeholder.clone(), self.read_only)
    }
}

/// The line number whose width the gutter reserves: the declared last line,
/// or the last visible line when that is larger.
pub fn gutter_reference_line(numbers: &LineNumbers, line_count: usize) -> (r: usize)
    ensures
        ({
            let visible_last = if line_count == 0 {
                numbers.start_line as int
            } else if numbers.start_line + (line_count - 1) > usize::MAX {
                usize::MAX as int
            } else {
                numbers.start_line + (line_count - 1)
            };
            r == if numbers.last_line >= visible_last {
                numbers.last_line as int
            } else {
                visible_last
            }
        }),
{
    let below = if line_count == 0 { 0 } else { line_count - 1 };
    let visible_last = numbers.start_line.saturating_add(below);
    if numbers.last_line >= visible_last {
        numbers.last_line
    } else {
        visible_last
    }
}

} // verus!
