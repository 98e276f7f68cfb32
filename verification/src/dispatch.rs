//! The single inbound path of a text input: keys, clipboard, pointer gestures
//! and whole-value replacement all mutate the retained `EditState` here and
//! report what changed, and `commit_change` says what the host must then do
//! (repaint; on a value change also update the accessible value and fire
//! `on_input`). `editable` is the host's answer to "is this node a live,
//! enabled text input?": when it is `false` nothing happens.

use vstd::prelude::*;
use vstd::utf8::*;

use crate::boundary::{bytes_of, is_boundary};
use crate::clipboard::{clipboard_text, normalize_paste, paste_spec, selection_text};
use crate::display::{display_spec, display_value, value_byte_for_display_byte, value_byte_spec};
use crate::edit::{key_post, replace_post, toggle_additional_caret, toggle_spec, EditKey, EditState};
use crate::pointer::{
    apply_pointer_selection, origin_on_boundaries, pointer_index_spec, pointer_selection_index,
    pointer_selection_spec, TextPointerAction,
};
use crate::selection::{lemma_zero_boundary, Change, ReplaceMode};
use crate::small_vec::{
    selections_clear, selections_from, selections_new, selections_of, selections_slice,
};

verus! {

broadcast use vstd::utf8::group_utf8_lib;

/// What a pointer action does to an input's state; `caret_idx` is the caret
/// boundary nearest the pointer and `hit_idx` the character under it.
pub open spec fn pointer_post(
    pre: EditState,
    post: EditState,
    caret_idx: usize,
    hit_idx: usize,
    action: TextPointerAction,
    multiline: bool,
    change: Change,
) -> bool {
    &&& post.value@ == pre.value@
    &&& post.password == pre.password
    &&& post.placeholder@ == pre.placeholder@
    &&& if action == TextPointerAction::AddCaret {
        let t = toggle_spec(pre.caret, pre.anchor, selections_of(pre.secondary), caret_idx);
        &&& post.pointer_origin is None
        &&& post.caret == t.0
        &&& post.anchor == t.1
        &&& selections_of(post.secondary) == t.2
        &&& change == t.3
    } else {
        let idx = pointer_index_spec(action, pre.pointer_origin, caret_idx, hit_idx);
        let p = pointer_selection_spec(
            pre.value@,
            pre.anchor as int,
            pre.pointer_origin,
            idx as int,
            action,
            multiline,
        );
        let cleared = action != TextPointerAction::Drag && selections_of(pre.secondary).len() > 0;
        &&& post.caret == p.0
        &&& post.anchor == p.1
        &&& post.pointer_origin == p.2
        &&& selections_of(post.secondary) == (if action == TextPointerAction::Drag {
            selections_of(pre.secondary)
        } else {
            Seq::empty()
        })
        &&& change == (if p.0 == pre.caret && p.1 == pre.anchor && !cleared {
            Change::Unchanged
        } else {
            Change::Caret
        })
    }
}

/// What replacing the whole value does: nothing for an identical value;
/// otherwise the new value with a single caret parked at its end.
pub open spec fn set_value_post(pre: EditState, post: EditState, value: Seq<char>, change: Change) -> bool {
    &&& post.password == pre.password
    &&& post.placeholder@ == pre.placeholder@
    &&& if pre.value@ == value {
        &&& change == Change::Unchanged
        &&& post == pre
    } else {
        &&& change == Change::Text
        &&& post.value@ == value
        &&& post.caret == bytes_of(value).len()
        &&& post.anchor == bytes_of(value).len()
        &&& selections_of(post.secondary).len() == 0
        &&& post.pointer_origin == pre.pointer_origin
    }
}

impl EditState {
    /// Applies a pointer gesture at the value byte indices `caret_idx` (the
    /// nearest caret boundary) and `hit_idx` (the character under the pointer).
    pub fn pointer(
        &mut self,
        action: TextPointerAction,
        caret_idx: usize,
        hit_idx: usize,
        multiline: bool,
    ) -> (change: Change)
        requires
            old(self).wf(),
            is_boundary(old(self).bytes(), caret_idx as int),
            is_boundary(old(self).bytes(), hit_idx as int),
            action == TextPointerAction::AddCaret ==> selections_of(old(self).secondary).len() + 2
                < usize::MAX,
            action == TextPointerAction::Drag ==> origin_on_boundaries(
                old(self).bytes(),
                old(self).pointer_origin,
            ),
        ensures
            final(self).wf(),
            origin_on_boundaries(final(self).bytes(), final(self).pointer_origin),
            pointer_post(*old(self), *final(self), caret_idx, hit_idx, action, multiline, change),
    {
        if action == TextPointerAction::AddCaret {
            self.pointer_origin = None;
            let change = toggle_additional_caret(
                &mut self.caret,
                &mut self.anchor,
                &mut self.secondary,
                caret_idx,
            );
            proof {
                let sec = selections_of(old(self).secondary);
                let hit = crate::small_vec::TextSelection { caret: caret_idx, anchor: caret_idx };
                let sels = self.selections();
                assert forall|k: int| 0 <= k < sels.len() implies crate::selection::sel_on_boundaries(
                    self.bytes(),
                    #[trigger] sels[k],
                ) by {
                    assert(old(self).selections()[0] == crate::small_vec::TextSelection {
                        caret: old(self).caret,
                        anchor: old(self).anchor,
                    });
                    if sec.contains(hit) {
                        let i = crate::edit::first_index(sec, hit, 0);
                        crate::edit::lemma_first_index(sec, hit);
                        if k > 0 {
                            if k - 1 < i {
                                assert(sels[k] == sec[k - 1]);
                                assert(sels[k] == old(self).selections()[k]);
                            } else {
                                assert(sels[k] == sec[k]);
                                assert(sels[k] == old(self).selections()[k + 1]);
                            }
                        }
                    } else if old(self).caret == caret_idx && old(self).anchor == caret_idx {
                        if sec.len() > 0 {
                            if k == 0 {
                                assert(sels[0].caret == sec.last().caret);
                                assert(sec.last() == old(self).selections()[sec.len() as int]);
                            } else {
                                assert(sels[k] == old(self).selections()[k]);
                            }
                        } else {
                            assert(sels[k] == old(self).selections()[k]);
                        }
                    } else {
                        if k < sels.len() - 1 {
                            assert(sels[k] == old(self).selections()[k]);
                        } else {
                            assert(sels[k] == hit);
                        }
                    }
                }
                assert(crate::selection::all_on_boundaries(self.bytes(), self.selections()));
                assert(crate::pointer::origin_on_boundaries(self.bytes(), self.pointer_origin));
                if sec.contains(hit) {
                    crate::edit::lemma_first_index(sec, hit);
                }
                assert(selections_of(self.secondary).len() < usize::MAX - 1);
            }
            change
        } else {
            self.pointer_place(action, caret_idx, hit_idx, multiline)
        }
    }

    fn pointer_place(
        &mut self,
        action: TextPointerAction,
        caret_idx: usize,
        hit_idx: usize,
        multiline: bool,
    ) -> (change: Change)
        requires
            old(self).wf(),
            action != TextPointerAction::AddCaret,
            is_boundary(old(self).bytes(), caret_idx as int),
            is_boundary(old(self).bytes(), hit_idx as int),
            action == TextPointerAction::Drag ==> origin_on_boundaries(
                old(self).bytes(),
                old(self).pointer_origin,
            ),
        ensures
            final(self).wf(),
            origin_on_boundaries(final(self).bytes(), final(self).pointer_origin),
            pointer_post(*old(self), *final(self), caret_idx, hit_idx, action, multiline, change),
    {
        let before_caret = self.caret;
        let before_anchor = self.anchor;
        let cleared_secondary = action != TextPointerAction::Drag && selections_slice(
            &self.secondary,
        ).len() > 0;
        if action != TextPointerAction::Drag {
            selections_clear(&mut self.secondary);
        }
        let idx = pointer_selection_index(action, self.pointer_origin, caret_idx, hit_idx);
        proof {
            crate::boundary::lemma_boundary_equiv(self.bytes(), 0);
            assert(self.selections()[0] == old(self).selections()[0]);
            assert(crate::selection::sel_on_boundaries(self.bytes(), old(self).selections()[0]));
        }
        let (caret, anchor) = apply_pointer_selection(
            self.value.as_str(),
            self.anchor,
            &mut self.pointer_origin,
            idx,
            action,
            multiline,
        );
        self.caret = caret;
        self.anchor = anchor;
        proof {
            let sels = self.selections();
            assert forall|k: int| 0 <= k < sels.len() implies crate::selection::sel_on_boundaries(
                self.bytes(),
                #[trigger] sels[k],
            ) by {
                if k > 0 {
                    assert(sels[k] == old(self).selections()[k]);
                }
            }
        }
        if caret == before_caret && anchor == before_anchor && !cleared_secondary {
            Change::Unchanged
        } else {
            Change::Caret
        }
    }

    /// Replaces the whole value, parking a single caret at its end.
    pub fn set_value(&mut self, value: &str) -> (change: Change)
        requires
            old(self).wf(),
        ensures
            final(self).wf(),
            set_value_post(*old(self), *final(self), value@, change),
    {
        let incoming = value.to_owned();
        if self.value == incoming {
            return Change::Unchanged;
        }
        let end = incoming.as_str().as_bytes().len();
        self.value = incoming;
        self.caret = end;
        self.anchor = end;
        selections_clear(&mut self.secondary);
        proof {
            encode_utf8_valid_utf8(self.value@);
            lemma_zero_boundary(self.bytes());
            assert(self.selections().len() == 1);
        }
        Change::Text
    }

    /// Takes over the selection of `previous`, the same input in a replaced
    /// tree, when it shows the same value; returns whether it did.
    pub fn inherit_selection(&mut self, previous: &EditState) -> (inherited: bool)
        requires
            old(self).wf(),
            previous.wf(),
        ensures
            final(self).wf(),
            inherited == (old(self).value@ == previous.value@ && old(self).password
                == previous.password),
            inherited ==> ({
                &&& final(self).value@ == old(self).value@
                &&& final(self).password == old(self).password
                &&& final(self).placeholder@ == old(self).placeholder@
                &&& final(self).selections() == previous.selections()
                &&& final(self).pointer_origin is None
            }),
            !inherited ==> *final(self) == *old(self),
    {
        let same_value = self.value == previous.value;
        if !same_value || self.password != previous.password {
            return false;
        }
        self.caret = previous.caret;
        self.anchor = previous.anchor;
        self.secondary = selections_from(selections_slice(&previous.secondary));
        self.pointer_origin = None;
        proof {
            assert(self.bytes() == previous.bytes());
            assert(self.selections() =~= previous.selections());
        }
        true
    }

    /// The clipboard text of the current selections (see `clipboard_text`).
    pub fn selected(&self) -> (r: Option<String>)
        requires
            self.wf(),
        ensures
            clipboard_text(self.bytes(), self.selections(), r),
    {
        selection_text(
            self.value.as_str(),
            self.caret,
            self.anchor,
            selections_slice(&self.secondary),
        )
    }
}

/// Routes one editing key to a text input. Returns what changed.
pub fn dispatch_edit_key(state: &mut EditState, editable: bool, key: EditKey) -> (change: Change)
    requires
        old(state).wf(),
    ensures
        final(state).wf(),
        editable ==> key_post(*old(state), *final(state), key, change),
        !editable ==> change == Change::Unchanged && *final(state) == *old(state),
{
    if !editable {
        return Change::Unchanged;
    }
    state.apply(key)
}

/// The selected text of an input, when it is editable and has a non-empty
/// selection; additional selections are joined in document order by newlines.
pub fn selected_text(state: &EditState, editable: bool) -> (r: Option<String>)
    requires
        state.wf(),
    ensures
        editable ==> clipboard_text(state.bytes(), state.selections(), r),
        !editable ==> r is None,
{
    if !editable {
        return None;
    }
    state.selected()
}

/// Deletes only the active selection(s); a collapsed caret is a no-op.
pub fn delete_text_selection(state: &mut EditState, editable: bool) -> (change: Change)
    requires
        old(state).wf(),
    ensures
        final(state).wf(),
        editable ==> final(state).password == old(state).password && final(state).placeholder@
            == old(state).placeholder@ && replace_post(
            *old(state),
            *final(state),
            Seq::empty(),
            ReplaceMode::Selection,
            change,
        ),
        !editable ==> change == Change::Unchanged && *final(state) == *old(state),
{
    let empty = "";
    proof {
        reveal_strlit("");
    }
    dispatch_edit_key(state, editable, EditKey::Insert(empty))
}

/// Inserts clipboard text; a single-line field strips its line breaks.
pub fn dispatch_paste(state: &mut EditState, editable: bool, text: &str) -> (change: Change)
    requires
        old(state).wf(),
    ensures
        final(state).wf(),
        editable ==> final(state).password == old(state).password && final(state).placeholder@
            == old(state).placeholder@ && replace_post(
            *old(state),
            *final(state),
            paste_spec(text@, false),
            ReplaceMode::Selection,
            change,
        ),
        !editable ==> change == Change::Unchanged && *final(state) == *old(state),
{
    let normalized = normalize_paste(text, false);
    dispatch_edit_key(state, editable, EditKey::Insert(normalized.as_str()))
}

/// Applies a pointer gesture. `display_caret` and `display_hit` are byte
/// indices into the displayed text (the obscured text for a password): the
/// caret boundary nearest the pointer and the character under it.
pub fn dispatch_text_pointer_action(
    state: &mut EditState,
    editable: bool,
    display_caret: usize,
    display_hit: usize,
    action: TextPointerAction,
) -> (change: Change)
    requires
        old(state).wf(),
        !old(state).password ==> is_boundary(old(state).bytes(), display_caret as int)
            && is_boundary(old(state).bytes(), display_hit as int),
        action == TextPointerAction::AddCaret ==> selections_of(old(state).secondary).len() + 2
            < usize::MAX,
        action == TextPointerAction::Drag ==> origin_on_boundaries(
            old(state).bytes(),
            old(state).pointer_origin,
        ),
    ensures
        final(state).wf(),
        editable ==> origin_on_boundaries(final(state).bytes(), final(state).pointer_origin),
        editable ==> pointer_post(
            *old(state),
            *final(state),
            value_byte_spec(old(state).value@, display_caret as int, old(state).password) as usize,
            value_byte_spec(old(state).value@, display_hit as int, old(state).password) as usize,
            action,
            false,
            change,
        ),
        !editable ==> change == Change::Unchanged && *final(state) == *old(state),
{
    if !editable {
        return Change::Unchanged;
    }
    let caret_idx = value_byte_for_display_byte(state.value.as_str(), display_caret, state.password);
    let hit_idx = value_byte_for_display_byte(state.value.as_str(), display_hit, state.password);
    state.pointer(action, caret_idx, hit_idx, false)
}

/// Places the caret at a pointer (a press), or extends the selection to it
/// (`extend`: a drag or a shift-click); `display_caret` as above.
pub fn dispatch_text_pointer(
    state: &mut EditState,
    editable: bool,
    display_caret: usize,
    extend: bool,
) -> (change: Change)
    requires
        old(state).wf(),
        !old(state).password ==> is_boundary(old(state).bytes(), display_caret as int),
    ensures
        final(state).wf(),
        editable ==> ({
            let idx = value_byte_spec(old(state).value@, display_caret as int, old(state).password)
                as usize;
            pointer_post(
                *old(state),
                *final(state),
                idx,
                idx,
                TextPointerAction::Place { extend },
                false,
                change,
            )
        }),
        !editable ==> change == Change::Unchanged && *final(state) == *old(state),
{
    dispatch_text_pointer_action(
        state,
        editable,
        display_caret,
        display_caret,
        TextPointerAction::Place { extend },
    )
}

/// Replaces an input's whole value (the accessibility `SetValue` path).
pub fn set_text_value(state: &mut EditState, editable: bool, value: &str) -> (change: Change)
    requires
        old(state).wf(),
    ensures
        final(state).wf(),
        editable ==> set_value_post(*old(state), *final(state), value@, change),
        !editable ==> change == Change::Unchanged && *final(state) == *old(state),
{
    if !editable {
        return Change::Unchanged;
    }
    state.set_value(value)
}

/// The host work a change asks for.
pub enum Commit {
    /// Nothing changed.
    Nothing,
    /// Only the caret/selection moved: repaint in place.
    Repaint,
    /// The value changed: repaint, set the accessible value, fire `on_input`
    /// with `value`.
    Notify { a11y_value: String, value: String },
}

/// What the host must do after `change`; a protected value reaches the
/// accessibility tree only in its obscured form.
pub fn commit_change(state: &EditState, change: Change) -> (r: Commit)
    ensures
        change == Change::Unchanged ==> r is Nothing,
        change == Change::Caret ==> r is Repaint,
        change == Change::Text ==> (r matches Commit::Notify { a11y_value, value } && a11y_value@
            == display_spec(state.value@, state.password) && value@ == state.value@),
{
    match change {
        Change::Unchanged => Commit::Nothing,
        Change::Caret => Commit::Repaint,
        Change::Text => Commit::Notify {
            a11y_value: display_value(state.value.as_str(), state.password),
            value: state.value.clone(),
        },
    }
}

} // verus!
