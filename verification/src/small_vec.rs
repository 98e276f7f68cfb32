//! The inline-first selection list kept by every editor (`smallvec::SmallVec`),
//! described by the sequence of selections it holds.

use smallvec::SmallVec;
use vstd::prelude::*;

verus! {

/// A caret/anchor pair of byte indices; `caret == anchor` is a collapsed caret.
#[derive(Debug, Clone, Copy, PartialEq, Eq, Structural)]
pub struct TextSelection {
    pub caret: usize,
    pub anchor: usize,
}

/// The retained secondary selections, a `SmallVec<[TextSelection; 4]>` (its
/// `Array` bound cannot be declared to the verifier, so it is held privately).
#[verifier::external_body]
pub struct Selections {
    inner: SmallVec<[TextSelection; 4]>,
}

/// The selections a [`Selections`] list holds, in order.
pub uninterp spec fn selections_of(v: Selections) -> Seq<TextSelection>;

/// `SmallVec::new`: an empty vector.
#[verifier::external_body]
pub(crate) fn selections_new() -> (v: Selections)
    ensures
        selections_of(v) == Seq::<TextSelection>::empty(),
{
    Selections { inner: SmallVec::new() }
}

/// `SmallVec::as_slice`: the held items in order.
#[verifier::external_body]
pub(crate) fn selections_slice(v: &Selections) -> (r: &[TextSelection])
    ensures
        r@ == selections_of(*v),
{
    v.inner.as_slice()
}

/// `SmallVec::push`: appends one item.
#[verifier::external_body]
pub(crate) fn selections_push(v: &mut Selections, s: TextSelection)
    requires
        selections_of(*old(v)).len() < usize::MAX,
    ensures
        selections_of(*final(v)) == selections_of(*old(v)).push(s),
{
    v.inner.push(s);
}

/// `SmallVec::pop`: removes and returns the last item, if any.
#[verifier::external_body]
pub(crate) fn selections_pop(v: &mut Selections) -> (r: Option<TextSelection>)
    ensures
        selections_of(*old(v)).len() == 0 ==> r is None && selections_of(*final(v)) == selections_of(
            *old(v),
        ),
        selections_of(*old(v)).len() > 0 ==> r == Some(selections_of(*old(v)).last())
            && selections_of(*final(v)) == selections_of(*old(v)).drop_last(),
{
    v.inner.pop()
}

/// `SmallVec::remove`: removes the item at `index`, shifting the rest left.
#[verifier::external_body]
pub(crate) fn selections_remove(v: &mut Selections, index: usize) -> (r: TextSelection)
    requires
        index < selections_of(*old(v)).len(),
    ensures
        r == selections_of(*old(v))[index as int],
        selections_of(*final(v)) == selections_of(*old(v)).remove(index as int),
{
    v.inner.remove(index)
}

/// `SmallVec::clear`: removes every item.
#[verifier::external_body]
pub(crate) fn selections_clear(v: &mut Selections)
    ensures
        selections_of(*final(v)) == Seq::<TextSelection>::empty(),
{
    v.inner.clear()
}

/// The held selections, in order.
pub fn selections_to_vec(v: &Selections) -> (r: Vec<TextSelection>)
    ensures
        r@ == selections_of(*v),
{
    let items = selections_slice(v);
    let mut r: Vec<TextSelection> = Vec::new();
    let mut i: usize = 0;
    while i < items.len()
        invariant
            i <= items@.len(),
            r@ == items@.subrange(0, i as int),
        decreases items@.len() - i,
    {
        r.push(items[i]);
        i = i + 1;
        assert(items@.subrange(0, i as int) =~= items@.subrange(0, i - 1).push(items@[i - 1]));
    }
    assert(items@.subrange(0, items@.len() as int) =~= items@);
    r
}

/// Builds a selection vector holding exactly `items`.
pub fn selections_from(items: &[TextSelection]) -> (v: Selections)
    ensures
        selections_of(v) == items@,
{
    let mut v = selections_new();
    let mut i: usize = 0;
    while i < items.len()
        invariant
            i <= items@.len(),
            selections_of(v) == items@.subrange(0, i as int),
        decreases items@.len() - i,
    {
        selections_push(&mut v, items[i]);
        i = i + 1;
        assert(items@.subrange(0, i as int) =~= items@.subrange(0, i - 1).push(items@[i - 1]));
    }
    assert(items@.subrange(0, items@.len() as int) =~= items@);
    v
}

} // verus!
