//! The retained widget tree as the interaction rules read it: each node's
//! parent, kind, role and state bits, in document (pre-)order. Exclusive
//! selection, dropdown dismissal and keyboard focus are decided here; the host
//! applies the resulting repaint and handler work to its scene.

use vstd::prelude::*;

use crate::semantics::{toggled_spec, Role, SortDirection, WidgetKind};
use crate::table::next_sort_direction;

verus! {

/// What the interaction rules read of one node.
#[derive(Clone, Copy, Debug, PartialEq, Eq, Structural)]
pub struct NodeFacts {
    pub parent: Option<usize>,
    pub kind: WidgetKind,
    pub role: Role,
    /// The `SELECTED` state bit.
    pub selected: bool,
    /// The `EXPANDED` state bit (an open dropdown trigger).
    pub expanded: bool,
    /// The `FOCUSED` state bit.
    pub focused: bool,
    /// Advertises the focus action.
    pub focusable: bool,
    /// The `DISABLED` state bit.
    pub disabled: bool,
    /// A click handler is registered for the node.
    pub has_click: bool,
    /// Advertises the click action.
    pub clickable: bool,
    /// The sort direction a column header announces.
    pub sort_direction: Option<SortDirection>,
    /// A sort handler is registered for the node.
    pub has_sort: bool,
}

/// The nodes of a mounted tree, indexed in document order.
pub struct SceneModel {
    pub nodes: Vec<NodeFacts>,
}

/// The parent of `n`, when it is a node of the model.
pub open spec fn parent_of(m: SceneModel, n: int) -> Option<int> {
    if 0 <= n < m.nodes@.len() {
        match m.nodes@[n].parent {
            Some(p) => if p < m.nodes@.len() {
                Some(p as int)
            } else {
                None
            },
            None => None,
        }
    } else {
        None
    }
}

/// `target` is `n` or one of its first `fuel` ancestors.
pub open spec fn reaches(m: SceneModel, n: int, target: int, fuel: nat) -> bool
    decreases fuel,
{
    if n == target {
        true
    } else if fuel == 0 {
        false
    } else {
        match parent_of(m, n) {
            Some(p) => reaches(m, p, target, (fuel - 1) as nat),
            None => false,
        }
    }
}

/// `n` lies in the subtree rooted at `root` (a tree's depth is below its
/// node count).
pub open spec fn in_subtree(m: SceneModel, n: int, root: int) -> bool {
    reaches(m, n, root, m.nodes@.len())
}

/// Whether `node` lies in the subtree rooted at `root`.
pub fn is_in_subtree(m: &SceneModel, node: usize, root: usize) -> (r: bool)
    ensures
        r == in_subtree(*m, node as int, root as int),
{
    let ghost full = m.nodes@.len();
    let mut current = node;
    let mut fuel = m.nodes.len();
    while current != root
        invariant
            fuel <= full,
            full == m.nodes@.len(),
            in_subtree(*m, node as int, root as int) == reaches(
                *m,
                current as int,
                root as int,
                fuel as nat,
            ),
        decreases fuel,
    {
        if fuel == 0 {
            return false;
        }
        if current >= m.nodes.len() {
            return false;
        }
        match m.nodes[current].parent {
            Some(p) => {
                if p >= m.nodes.len() {
                    return false;
                }
                current = p;
            },
            None => {
                return false;
            },
        }
        fuel = fuel - 1;
    }
    true
}

/// The first tab in document order within the subtree of `id`: the tab a
/// reorderable tab bar registers for one of its children.
pub fn first_tab_in_subtree(m: &SceneModel, id: usize) -> (r: Option<usize>)
    ensures
        match r {
            Some(t) => t < m.nodes@.len() && m.nodes@[t as int].kind == WidgetKind::Tab && in_subtree(
                *m,
                t as int,
                id as int,
            ) && forall|k: int|
                0 <= k < t ==> !(#[trigger] m.nodes@[k].kind == WidgetKind::Tab && in_subtree(*m, k, id as int)),
            None => forall|k: int|
                0 <= k < m.nodes@.len() ==> !(#[trigger] m.nodes@[k].kind == WidgetKind::Tab && in_subtree(
                    *m,
                    k,
                    id as int,
                )),
        },
{
    let mut k: usize = 0;
    while k < m.nodes.len()
        invariant
            k <= m.nodes@.len(),
            forall|j: int|
                0 <= j < k ==> !(#[trigger] m.nodes@[j].kind == WidgetKind::Tab && in_subtree(*m, j, id as int)),
        decreases m.nodes@.len() - k,
    {
        if m.nodes[k].kind == WidgetKind::Tab && is_in_subtree(m, k, id) {
            return Some(k);
        }
        k = k + 1;
    }
    None
}

// ---------------------------------------------------------------------------
// exclusive selection
// ---------------------------------------------------------------------------

/// The nearest strict ancestor of `n` within `fuel` steps announcing a tab
/// list.
pub open spec fn tab_list_above(m: SceneModel, n: int, fuel: nat) -> Option<int>
    decreases fuel,
{
    match parent_of(m, n) {
        Some(p) => if m.nodes@[p].role == Role::TabList {
            Some(p)
        } else if fuel == 0 {
            None
        } else {
            tab_list_above(m, p, (fuel - 1) as nat)
        },
        None => None,
    }
}

/// The selection scope of a click on `id`: a tab's nearest tab list (so
/// grouped and nested tabs stay one scope), else the parent.
pub open spec fn selection_scope(m: SceneModel, id: int, kind: WidgetKind) -> Option<int> {
    if kind == WidgetKind::Tab {
        match tab_list_above(m, id, m.nodes@.len()) {
            Some(s) => Some(s),
            None => parent_of(m, id),
        }
    } else {
        parent_of(m, id)
    }
}

/// `p` is a selected peer that a click on `id` deselects: another node of the
/// same kind in the scope (any descendant for tabs, a child otherwise).
pub open spec fn deselected_peer(m: SceneModel, id: int, kind: WidgetKind, p: int) -> bool {
    &&& 0 <= p < m.nodes@.len()
    &&& p != id
    &&& m.nodes@[p].kind == kind
    &&& m.nodes@[p].selected
    &&& match selection_scope(m, id, kind) {
        Some(s) => if kind == WidgetKind::Tab {
            p != s && in_subtree(m, p, s)
        } else {
            parent_of(m, p) == Some(s)
        },
        None => false,
    }
}

fn tab_list_scope(m: &SceneModel, id: usize) -> (r: Option<usize>)
    requires
        id < m.nodes@.len(),
    ensures
        match r {
            Some(s) => tab_list_above(*m, id as int, m.nodes@.len()) == Some(s as int),
            None => tab_list_above(*m, id as int, m.nodes@.len()) is None,
        },
{
    let ghost full = m.nodes@.len();
    let mut current = id;
    let mut fuel = m.nodes.len();
    loop
        invariant
            current < m.nodes@.len(),
            fuel <= full,
            full == m.nodes@.len(),
            tab_list_above(*m, id as int, full) == tab_list_above(*m, current as int, fuel as nat),
        decreases fuel,
    {
        let p = match m.nodes[current].parent {
            Some(p) => p,
            None => return None,
        };
        if p >= m.nodes.len() {
            return None;
        }
        if m.nodes[p].role == Role::TabList {
            return Some(p);
        }
        if fuel == 0 {
            return None;
        }
        current = p;
        fuel = fuel - 1;
    }
}

fn parent_index(m: &SceneModel, n: usize) -> (r: Option<usize>)
    ensures
        match r {
            Some(p) => parent_of(*m, n as int) == Some(p as int),
            None => parent_of(*m, n as int) is None,
        },
{
    if n >= m.nodes.len() {
        return None;
    }
    match m.nodes[n].parent {
        Some(p) => if p < m.nodes.len() {
            Some(p)
        } else {
            None
        },
        None => None,
    }
}

/// A click on a tab, list item or dropdown option `id` of kind `kind`: every
/// selected peer in its scope is deselected and `id` becomes selected. Returns
/// the deselected peers (in document order) and whether anything ran or
/// changed: the node's handler fired or it was not selected before.
pub fn dispatch_click_selection(m: &mut SceneModel, id: usize, kind: WidgetKind) -> (r: (
    Vec<usize>,
    bool,
))
    requires
        id < old(m).nodes@.len(),
    ensures
        final(m).nodes@.len() == old(m).nodes@.len(),
        final(m).nodes@[id as int].selected,
        forall|p: int|
            0 <= p < old(m).nodes@.len() ==> (deselected_peer(*old(m), id as int, kind, p)
                <==> #[trigger] r.0@.contains(p as usize)),
        forall|p: int|
            #![trigger final(m).nodes@[p]]
            0 <= p < old(m).nodes@.len() && p != id ==> final(m).nodes@[p] == (if deselected_peer(
                *old(m),
                id as int,
                kind,
                p,
            ) {
                NodeFacts { selected: false, ..old(m).nodes@[p] }
            } else {
                old(m).nodes@[p]
            }),
        final(m).nodes@[id as int] == (NodeFacts { selected: true, ..old(m).nodes@[id as int] }),
        r.1 == (old(m).nodes@[id as int].has_click || !old(m).nodes@[id as int].selected),
{
    let ghost m0 = *m;
    let scope = if kind == WidgetKind::Tab {
        match tab_list_scope(m, id) {
            Some(s) => Some(s),
            None => parent_index(m, id),
        }
    } else {
        parent_index(m, id)
    };
    let mut peers: Vec<usize> = Vec::new();
    let mut p: usize = 0;
    while p < m.nodes.len()
        invariant
            *m == m0,
            p <= m0.nodes@.len(),
            match scope {
                Some(s) => selection_scope(m0, id as int, kind) == Some(s as int),
                None => selection_scope(m0, id as int, kind) is None,
            },
            forall|q: int| 0 <= q < p ==> (deselected_peer(m0, id as int, kind, q)
                <==> #[trigger] peers@.contains(q as usize)),
            forall|k: int| 0 <= k < peers@.len() ==> #[trigger] peers@[k] < p,
        decreases m0.nodes@.len() - p,
    {
        let node = m.nodes[p];
        let is_peer = match scope {
            Some(s) => {
                p != id && node.kind == kind && node.selected && if kind == WidgetKind::Tab {
                    p != s && is_in_subtree(m, p, s)
                } else {
                    match parent_index(m, p) {
                        Some(pp) => pp == s,
                        None => false,
                    }
                }
            },
            None => false,
        };
        proof {
            assert(is_peer == deselected_peer(m0, id as int, kind, p as int));
        }
        let ghost before = peers@;
        if is_peer {
            peers.push(p);
        }
        proof {
            assert forall|q: int| 0 <= q < p + 1 implies (deselected_peer(m0, id as int, kind, q)
                <==> #[trigger] peers@.contains(q as usize)) by {
                if q < p {
                    if peers@.contains(q as usize) && !before.contains(q as usize) {
                        assert(peers@.last() == p);
                    }
                    if before.contains(q as usize) {
                        let k = choose|k: int| 0 <= k < before.len() && before[k] == q as usize;
                        assert(peers@[k] == q as usize);
                    }
                } else {
                    if is_peer {
                        assert(peers@[peers@.len() - 1] == p);
                    } else if peers@.contains(q as usize) {
                        let k = choose|k: int| 0 <= k < peers@.len() && peers@[k] == q as usize;
                        assert(peers@[k] < p);
                    }
                }
            }
        }
        p = p + 1;
    }
    let was_selected = m.nodes[id].selected;
    let fired = m.nodes[id].has_click;
    proof {
        assert forall|j: int| 0 <= j < peers@.len() implies #[trigger] peers@[j] != id by {
            let q = peers@[j] as int;
            assert(peers@[j] < m0.nodes@.len());
            assert(peers@.contains(q as usize));
            assert(deselected_peer(m0, id as int, kind, q));
        }
        assert(peers@.subrange(0, 0) =~= Seq::<usize>::empty());
    }
    let total = m.nodes.len();
    let mut k: usize = 0;
    while k < peers.len()
        invariant
            k <= peers@.len(),
            total == m0.nodes@.len(),
            m.nodes@.len() == m0.nodes@.len(),
            id < m0.nodes@.len(),
            forall|j: int| 0 <= j < peers@.len() ==> #[trigger] peers@[j] < m0.nodes@.len(),
            forall|j: int| 0 <= j < peers@.len() ==> #[trigger] peers@[j] != id,
            forall|q: int|
                #![trigger m.nodes@[q]]
                0 <= q < m0.nodes@.len() ==> m.nodes@[q] == (if peers@.subrange(
                    0,
                    k as int,
                ).contains(q as usize) {
                    NodeFacts { selected: false, ..m0.nodes@[q] }
                } else {
                    m0.nodes@[q]
                }),
        decreases peers@.len() - k,
    {
        let q = peers[k];
        let mut node = m.nodes[q];
        node.selected = false;
        let ghost prev_nodes = m.nodes@;
        m.nodes.set(q, node);
        proof {
            assert(m.nodes@ == prev_nodes.update(q as int, node));
            assert(node == NodeFacts { selected: false, ..m0.nodes@[q as int] });
            assert forall|x: int|
                #![trigger m.nodes@[x]]
                0 <= x < m0.nodes@.len() implies m.nodes@[x] == (if peers@.subrange(
                    0,
                    k + 1,
                ).contains(x as usize) {
                    NodeFacts { selected: false, ..m0.nodes@[x] }
                } else {
                    m0.nodes@[x]
                }) by {
                let pre = peers@.subrange(0, k as int);
                let post = peers@.subrange(0, k + 1);
                assert(post =~= pre.push(q));
                if pre.contains(x as usize) {
                    let j = choose|j: int| 0 <= j < pre.len() && pre[j] == x as usize;
                    assert(post[j] == x as usize);
                }
                if x != q {
                    assert(m.nodes@[x] == prev_nodes[x]);
                    if post.contains(x as usize) {
                        let j = choose|j: int| 0 <= j < post.len() && post[j] == x as usize;
                        if j == pre.len() {
                            assert(post[j] == q);
                        }
                        assert(pre[j] == x as usize);
                    }
                } else {
                    assert(post[k as int] == q);
                }
            }
        }
        k = k + 1;
    }
    proof {
        assert(peers@.subrange(0, peers@.len() as int) =~= peers@);
    }
    let mut node = m.nodes[id];
    node.selected = true;
    m.nodes.set(id, node);
    (peers, fired || !was_selected)
}

// ---------------------------------------------------------------------------
// tables and dropdowns
// ---------------------------------------------------------------------------

/// What a click on a table node did.
pub enum TableClick {
    /// Nothing the node advertises ran.
    Ignored,
    /// A sortable column header now announces `direction`; its sort handler
    /// fires with it when `fire`.
    Sorted { direction: SortDirection, fire: bool },
    /// A data row was selected exclusively (see `dispatch_click_selection`).
    Selected { row: usize, cleared: Vec<usize>, acted: bool },
}

/// The row a click on `id` selects: the row itself, or the row a cell sits in.
pub open spec fn clicked_row(m: SceneModel, id: int, kind: WidgetKind) -> Option<int> {
    if kind == WidgetKind::TableRow {
        Some(id)
    } else if kind == WidgetKind::TableCell {
        match parent_of(m, id) {
            Some(p) => if m.nodes@[p].kind == WidgetKind::TableRow {
                Some(p)
            } else {
                None
            },
            None => None,
        }
    } else {
        None
    }
}

/// A click on a table node of kind `kind`: a clickable column header toggles
/// its sort direction (ascending first); a click on a cell bubbles to its row,
/// and a clickable row selects exclusively among its table's rows. Header
/// rows and rows of a non-selectable table advertise no click and are inert.
pub fn dispatch_click_table(m: &mut SceneModel, id: usize, kind: WidgetKind) -> (r: TableClick)
    requires
        id < old(m).nodes@.len(),
    ensures
        final(m).nodes@.len() == old(m).nodes@.len(),
        ({
            let n = old(m).nodes@[id as int];
            if kind == WidgetKind::TableCell && n.role == Role::ColumnHeader {
                if n.clickable {
                    let next = match n.sort_direction {
                        Some(d) => toggled_spec(d),
                        None => SortDirection::Ascending,
                    };
                    &&& r matches TableClick::Sorted { direction, fire } && direction == next
                        && fire == n.has_sort
                    &&& final(m).nodes@ == old(m).nodes@.update(
                        id as int,
                        NodeFacts { sort_direction: Some(next), ..n },
                    )
                } else {
                    r is Ignored && final(m).nodes@ == old(m).nodes@
                }
            } else {
                match clicked_row(*old(m), id as int, kind) {
                    Some(row) => if old(m).nodes@[row].clickable {
                        &&& r matches TableClick::Selected { row: rr, cleared, acted } && rr == row
                            && acted == (old(m).nodes@[row].has_click
                            || !old(m).nodes@[row].selected)
                            && forall|p: int|
                            0 <= p < old(m).nodes@.len() ==> (deselected_peer(
                                *old(m),
                                row,
                                WidgetKind::TableRow,
                                p,
                            ) <==> #[trigger] cleared@.contains(p as usize))
                        &&& final(m).nodes@[row].selected
                        &&& forall|p: int|
                            #![trigger final(m).nodes@[p]]
                            0 <= p < old(m).nodes@.len() && p != row ==> final(m).nodes@[p] == (
                            if deselected_peer(*old(m), row, WidgetKind::TableRow, p) {
                                NodeFacts { selected: false, ..old(m).nodes@[p] }
                            } else {
                                old(m).nodes@[p]
                            })
                    } else {
                        r is Ignored && final(m).nodes@ == old(m).nodes@
                    },
                    None => r is Ignored && final(m).nodes@ == old(m).nodes@,
                }
            }
        }),
{
    let node = m.nodes[id];
    if kind == WidgetKind::TableCell && node.role == Role::ColumnHeader {
        if !node.clickable {
            return TableClick::Ignored;
        }
        let next = next_sort_direction(node.sort_direction);
        let mut updated = node;
        updated.sort_direction = Some(next);
        m.nodes.set(id, updated);
        return TableClick::Sorted { direction: next, fire: node.has_sort };
    }
    let row = if kind == WidgetKind::TableRow {
        id
    } else if kind == WidgetKind::TableCell {
        match parent_index(m, id) {
            Some(p) => {
                if m.nodes[p].kind != WidgetKind::TableRow {
                    return TableClick::Ignored;
                }
                p
            },
            None => {
                return TableClick::Ignored;
            },
        }
    } else {
        return TableClick::Ignored;
    };
    if !m.nodes[row].clickable {
        return TableClick::Ignored;
    }
    let (cleared, acted) = dispatch_click_selection(m, row, WidgetKind::TableRow);
    TableClick::Selected { row, cleared, acted }
}

/// A node a dropdown's option mirrors its label into: the trigger beside the
/// option list.
pub open spec fn is_trigger(n: NodeFacts) -> bool {
    n.kind == WidgetKind::Dropdown || (n.kind == WidgetKind::TextInput && n.role == Role::ComboBox)
}

/// The first child of `w` (in document order, from `k`) that is a trigger.
pub open spec fn first_trigger_child(m: SceneModel, w: int, k: int) -> Option<int>
    decreases m.nodes@.len() - k,
{
    if k < 0 || k >= m.nodes@.len() {
        None
    } else if parent_of(m, k) == Some(w) && is_trigger(m.nodes@[k]) {
        Some(k)
    } else {
        first_trigger_child(m, w, k + 1)
    }
}

/// The trigger an option of `id` reports to: option → option list →
/// dropdown wrapper → the wrapper's trigger child.
pub open spec fn option_trigger(m: SceneModel, id: int) -> Option<int> {
    match parent_of(m, id) {
        Some(popup) => match parent_of(m, popup) {
            Some(w) => first_trigger_child(m, w, 0),
            None => None,
        },
        None => None,
    }
}

/// What a click on a dropdown node did.
pub enum DropdownClick {
    /// Nothing ran.
    Ignored,
    /// The trigger's toggle handler fires; the host remounts the dropdown
    /// with its list shown or hidden.
    Toggle,
    /// An option was selected exclusively (see `dispatch_click_selection`);
    /// when it acted, `trigger` (if any) takes the option's label as its
    /// accessible value.
    Option { cleared: Vec<usize>, acted: bool, trigger: Option<usize> },
}

fn first_trigger_child_exec(m: &SceneModel, w: usize) -> (r: Option<usize>)
    ensures
        match r {
            Some(t) => first_trigger_child(*m, w as int, 0) == Some(t as int),
            None => first_trigger_child(*m, w as int, 0) is None,
        },
{
    let mut k: usize = 0;
    while k < m.nodes.len()
        invariant
            k <= m.nodes@.len(),
            first_trigger_child(*m, w as int, 0) == first_trigger_child(*m, w as int, k as int),
        decreases m.nodes@.len() - k,
    {
        let node = m.nodes[k];
        let is_child = match parent_index(m, k) {
            Some(p) => p == w,
            None => false,
        };
        if is_child && (node.kind == WidgetKind::Dropdown || (node.kind == WidgetKind::TextInput
            && node.role == Role::ComboBox)) {
            return Some(k);
        }
        k = k + 1;
    }
    None
}

/// A click on a dropdown trigger fires its toggle; a click on an option
/// selects it exclusively among its siblings and names the trigger to update.
pub fn dispatch_click_dropdown(m: &mut SceneModel, id: usize, kind: WidgetKind) -> (r: DropdownClick)
    requires
        id < old(m).nodes@.len(),
    ensures
        final(m).nodes@.len() == old(m).nodes@.len(),
        ({
            let n = old(m).nodes@[id as int];
            if (kind == WidgetKind::Dropdown || kind == WidgetKind::TextInput) && n.role
                == Role::ComboBox {
                &&& (if n.has_click {
                    r is Toggle
                } else {
                    r is Ignored
                })
                &&& final(m).nodes@ == old(m).nodes@
            } else if kind == WidgetKind::DropdownOption {
                &&& r matches DropdownClick::Option { cleared, acted, trigger } && acted == (
                n.has_click || !n.selected) && (match trigger {
                    Some(t) => acted && option_trigger(*old(m), id as int) == Some(t as int),
                    None => !acted || option_trigger(*old(m), id as int) is None,
                }) && forall|p: int|
                    0 <= p < old(m).nodes@.len() ==> (deselected_peer(
                        *old(m),
                        id as int,
                        WidgetKind::DropdownOption,
                        p,
                    ) <==> #[trigger] cleared@.contains(p as usize))
                &&& final(m).nodes@[id as int].selected
                &&& forall|p: int|
                    #![trigger final(m).nodes@[p]]
                    0 <= p < old(m).nodes@.len() && p != id ==> final(m).nodes@[p] == (
                    if deselected_peer(*old(m), id as int, WidgetKind::DropdownOption, p) {
                        NodeFacts { selected: false, ..old(m).nodes@[p] }
                    } else {
                        old(m).nodes@[p]
                    })
            } else {
                r is Ignored && final(m).nodes@ == old(m).nodes@
            }
        }),
{
    let node = m.nodes[id];
    if (kind == WidgetKind::Dropdown || kind == WidgetKind::TextInput) && node.role
        == Role::ComboBox {
        if node.has_click {
            return DropdownClick::Toggle;
        }
        return DropdownClick::Ignored;
    }
    if kind != WidgetKind::DropdownOption {
        return DropdownClick::Ignored;
    }
    let ghost m0 = *m;
    let popup = parent_index(m, id);
    let wrapper = match popup {
        Some(p) => parent_index(m, p),
        None => None,
    };
    let trigger_of = match wrapper {
        Some(w) => first_trigger_child_exec(m, w),
        None => None,
    };
    assert(match trigger_of {
        Some(t) => option_trigger(m0, id as int) == Some(t as int),
        None => option_trigger(m0, id as int) is None,
    });
    let (cleared, acted) = dispatch_click_selection(m, id, WidgetKind::DropdownOption);
    let trigger = if acted {
        trigger_of
    } else {
        None
    };
    DropdownClick::Option { cleared, acted, trigger }
}

// ---------------------------------------------------------------------------
// dropdown dismissal
// ---------------------------------------------------------------------------

/// `t` is an open dropdown trigger that an interaction with `target` dismisses:
/// its dropdown (the trigger's parent) does not contain the target, and it
/// has a toggle handler to fire.
pub open spec fn dismissed_trigger(m: SceneModel, target: Option<usize>, t: int) -> bool {
    &&& 0 <= t < m.nodes@.len()
    &&& m.nodes@[t].role == Role::ComboBox
    &&& m.nodes@[t].expanded
    &&& m.nodes@[t].has_click
    &&& match parent_of(m, t) {
        Some(w) => match target {
            Some(x) => !in_subtree(m, x as int, w),
            None => true,
        },
        None => false,
    }
}

/// The open dropdown triggers whose toggle handler fires when the pointer
/// interacts with `target` (`None`: blank space), in document order; at
/// least one fires exactly when the result is non-empty.
pub fn dismiss_open_dropdowns(m: &SceneModel, target: Option<usize>) -> (triggers: Vec<usize>)
    ensures
        forall|k: int|
            0 <= k < triggers@.len() ==> dismissed_trigger(*m, target, #[trigger] triggers@[k] as int),
        forall|t: int|
            0 <= t < m.nodes@.len() && dismissed_trigger(*m, target, t) ==> #[trigger] triggers@.contains(
                t as usize,
            ),
        forall|a: int, b: int| 0 <= a < b < triggers@.len() ==> triggers@[a] < triggers@[b],
{
    let mut out: Vec<usize> = Vec::new();
    let mut t: usize = 0;
    while t < m.nodes.len()
        invariant
            t <= m.nodes@.len(),
            forall|k: int| 0 <= k < out@.len() ==> dismissed_trigger(*m, target, #[trigger] out@[k] as int),
            forall|k: int| 0 <= k < out@.len() ==> #[trigger] out@[k] < t,
            forall|u: int| 0 <= u < t && dismissed_trigger(*m, target, u) ==> #[trigger] out@.contains(
                u as usize,
            ),
            forall|a: int, b: int| 0 <= a < b < out@.len() ==> out@[a] < out@[b],
        decreases m.nodes@.len() - t,
    {
        let node = m.nodes[t];
        if node.role == Role::ComboBox && node.expanded && node.has_click {
            match parent_index(m, t) {
                Some(w) => {
                    let keep = match target {
                        Some(x) => is_in_subtree(m, x, w),
                        None => false,
                    };
                    if !keep {
                        let ghost before = out@;
                        out.push(t);
                        proof {
                            assert forall|u: int|
                                0 <= u < t + 1 && dismissed_trigger(*m, target, u) implies #[trigger] out@.contains(
                                u as usize,
                            ) by {
                                if u < t {
                                    assert(before.contains(u as usize));
                                    let k = choose|k: int| 0 <= k < before.len() && before[k] == u as usize;
                                    assert(out@[k] == u as usize);
                                } else {
                                    assert(out@[out@.len() - 1] == t);
                                }
                            }
                        }
                    }
                },
                None => {},
            }
        }
        t = t + 1;
    }
    out
}

// ---------------------------------------------------------------------------
// keyboard focus
// ---------------------------------------------------------------------------

/// The first node holding the focus bit.
pub open spec fn first_focused(m: SceneModel, k: int) -> Option<int>
    decreases m.nodes@.len() - k,
{
    if k < 0 || k >= m.nodes@.len() {
        None
    } else if m.nodes@[k].focused {
        Some(k)
    } else {
        first_focused(m, k + 1)
    }
}

/// The first entry of `order` inside the subtree of `panel`.
pub open spec fn first_in_panel(m: SceneModel, order: Seq<usize>, panel: int, k: int) -> Option<int>
    decreases order.len() - k,
{
    if k < 0 || k >= order.len() {
        None
    } else if in_subtree(m, order[k] as int, panel) {
        Some(order[k] as int)
    } else {
        first_in_panel(m, order, panel, k + 1)
    }
}

/// The node that ends up focused: a modal panel keeps focus inside itself
/// (the target if inside, else the current holder if inside, else the first
/// node of the tab order inside); only a live, enabled, focusable node can
/// take focus.
pub open spec fn focus_target(
    m: SceneModel,
    target: Option<usize>,
    modal_panel: Option<usize>,
    tab_order: Seq<usize>,
) -> Option<int> {
    let old = first_focused(m, 0);
    let guarded = match modal_panel {
        Some(panel) => match target {
            Some(t) => if in_subtree(m, t as int, panel as int) {
                Some(t as int)
            } else {
                match old {
                    Some(o) => if in_subtree(m, o, panel as int) {
                        Some(o)
                    } else {
                        first_in_panel(m, tab_order, panel as int, 0)
                    },
                    None => first_in_panel(m, tab_order, panel as int, 0),
                }
            },
            None => match old {
                Some(o) => if in_subtree(m, o, panel as int) {
                    Some(o)
                } else {
                    first_in_panel(m, tab_order, panel as int, 0)
                },
                None => first_in_panel(m, tab_order, panel as int, 0),
            },
        },
        None => match target {
            Some(t) => Some(t as int),
            None => None,
        },
    };
    match guarded {
        Some(g) => if 0 <= g < m.nodes@.len() && !m.nodes@[g].disabled && m.nodes@[g].focusable {
            Some(g)
        } else {
            None
        },
        None => None,
    }
}

/// The outcome of a focus request.
#[derive(Clone, Copy, Debug, PartialEq, Eq, Structural)]
pub struct FocusMove {
    /// The previous focus holder.
    pub old: Option<usize>,
    /// The node focused afterwards.
    pub new: Option<usize>,
    /// Focus actually moved (otherwise the host only updates the ring).
    pub moved: bool,
    /// The focus ring shows: keyboard focus, or any focused editable.
    pub indicator_visible: bool,
}

fn first_focused_exec(m: &SceneModel) -> (r: Option<usize>)
    ensures
        match r {
            Some(f) => first_focused(*m, 0) == Some(f as int),
            None => first_focused(*m, 0) is None,
        },
{
    let mut k: usize = 0;
    while k < m.nodes.len()
        invariant
            k <= m.nodes@.len(),
            first_focused(*m, 0) == first_focused(*m, k as int),
        decreases m.nodes@.len() - k,
    {
        if m.nodes[k].focused {
            return Some(k);
        }
        k = k + 1;
    }
    None
}

fn first_in_panel_exec(m: &SceneModel, order: &[usize], panel: usize) -> (r: Option<usize>)
    ensures
        match r {
            Some(f) => first_in_panel(*m, order@, panel as int, 0) == Some(f as int),
            None => first_in_panel(*m, order@, panel as int, 0) is None,
        },
{
    let mut k: usize = 0;
    while k < order.len()
        invariant
            k <= order@.len(),
            first_in_panel(*m, order@, panel as int, 0) == first_in_panel(
                *m,
                order@,
                panel as int,
                k as int,
            ),
        decreases order@.len() - k,
    {
        if is_in_subtree(m, order[k], panel) {
            return Some(order[k]);
        }
        k = k + 1;
    }
    None
}

/// At most one node holds the focus bit.
pub open spec fn focus_exclusive(m: SceneModel) -> bool {
    forall|a: int, b: int|
        0 <= a < m.nodes@.len() && 0 <= b < m.nodes@.len() && m.nodes@[a].focused
            && m.nodes@[b].focused ==> a == b
}

/// What a focus move does to the tree: the new holder is the focus target
/// (none when the target cannot take focus, and then no node keeps the focus
/// bit), the previous holder is reported, the move is reported exactly when
/// the holder changes, and nothing but focus bits changes.
pub open spec fn focus_moved(
    m0: SceneModel,
    m1: SceneModel,
    target: Option<usize>,
    modal_panel: Option<usize>,
    tab_order: Seq<usize>,
    r: FocusMove,
) -> bool {
    let new = focus_target(m0, target, modal_panel, tab_order);
    &&& m1.nodes@.len() == m0.nodes@.len()
    &&& (match r.new {
        Some(n) => new == Some(n as int),
        None => new is None,
    })
    &&& (match r.old {
        Some(o) => first_focused(m0, 0) == Some(o as int),
        None => first_focused(m0, 0) is None,
    })
    &&& r.moved == (r.old != r.new)
    &&& (match r.new {
        Some(n) => m1.nodes@[n as int].focused,
        None => forall|k: int| 0 <= k < m1.nodes@.len() ==> !(#[trigger] m1.nodes@[k]).focused,
    })
    &&& forall|k: int|
        #![trigger m1.nodes@[k]]
        0 <= k < m0.nodes@.len() ==> m1.nodes@[k] == NodeFacts {
            focused: m1.nodes@[k].focused,
            ..m0.nodes@[k]
        }
}

/// Moves keyboard focus to `target` (or clears it), keeping it exclusive:
/// the previous holder loses the focus bit and the new one gains it.
/// `show_indicator` is true for keyboard, assistive and programmatic focus.
#[verifier::rlimit(60)]
pub fn dispatch_focus_with_indicator(
    m: &mut SceneModel,
    target: Option<usize>,
    modal_panel: Option<usize>,
    tab_order: &[usize],
    show_indicator: bool,
) -> (r: FocusMove)
    requires
        focus_exclusive(*old(m)),
    ensures
        final(m).nodes@.len() == old(m).nodes@.len(),
        focus_exclusive(*final(m)),
        focus_moved(*old(m), *final(m), target, modal_panel, tab_order@, r),
        r.indicator_visible == (show_indicator || match r.new {
            Some(n) => old(m).nodes@[n as int].kind == WidgetKind::TextInput || old(
                m,
            ).nodes@[n as int].kind == WidgetKind::TextArea,
            None => false,
        }),
{
    let ghost m0 = *m;
    let old = first_focused_exec(m);
    proof {
        lemma_first_focused(m0, 0);
    }
    let guarded = match modal_panel {
        Some(panel) => {
            let inside = match target {
                Some(t) => is_in_subtree(m, t, panel),
                None => false,
            };
            if inside {
                target
            } else {
                let old_inside = match old {
                    Some(o) => is_in_subtree(m, o, panel),
                    None => false,
                };
                if old_inside {
                    old
                } else {
                    first_in_panel_exec(m, tab_order, panel)
                }
            }
        },
        None => target,
    };
    let new = match guarded {
        Some(g) => if g < m.nodes.len() && !m.nodes[g].disabled && m.nodes[g].focusable {
            Some(g)
        } else {
            None
        },
        None => None,
    };
    let indicator_visible = show_indicator || match new {
        Some(n) => m.nodes[n].kind == WidgetKind::TextInput || m.nodes[n].kind
            == WidgetKind::TextArea,
        None => false,
    };
    if old == new {
        return FocusMove { old, new, moved: false, indicator_visible };
    }
    match old {
        Some(o) => {
            let mut node = m.nodes[o];
            node.focused = false;
            m.nodes.set(o, node);
        },
        None => {},
    }
    match new {
        Some(n) => {
            let mut node = m.nodes[n];
            node.focused = true;
            m.nodes.set(n, node);
        },
        None => {},
    }
    proof {
        assert forall|a: int, b: int|
            0 <= a < m.nodes@.len() && 0 <= b < m.nodes@.len() && m.nodes@[a].focused
                && m.nodes@[b].focused implies a == b by {
            if new is Some {
                let n = new->0 as int;
                if a != n {
                    assert(m0.nodes@[a].focused);
                }
                if b != n {
                    assert(m0.nodes@[b].focused);
                }
            }
        }
    }
    FocusMove { old, new, moved: true, indicator_visible }
}

proof fn lemma_first_focused(m: SceneModel, k: int)
    requires
        0 <= k,
    ensures
        match first_focused(m, k) {
            Some(f) => k <= f < m.nodes@.len() && m.nodes@[f].focused,
            None => forall|j: int| k <= j < m.nodes@.len() ==> !(#[trigger] m.nodes@[j]).focused,
        },
    decreases m.nodes@.len() - k,
{
    if k < m.nodes@.len() && !m.nodes@[k].focused {
        lemma_first_focused(m, k + 1);
    }
}

/// Keyboard, assistive or programmatic focus: the ring always shows.
pub fn dispatch_focus(
    m: &mut SceneModel,
    target: Option<usize>,
    modal_panel: Option<usize>,
    tab_order: &[usize],
) -> (r: FocusMove)
    requires
        focus_exclusive(*old(m)),
    ensures
        focus_exclusive(*final(m)),
        focus_moved(*old(m), *final(m), target, modal_panel, tab_order@, r),
        r.indicator_visible,
{
    dispatch_focus_with_indicator(m, target, modal_panel, tab_order, true)
}

/// Pointer focus: focus moves, but only editables show the ring.
pub fn dispatch_pointer_focus(
    m: &mut SceneModel,
    target: Option<usize>,
    modal_panel: Option<usize>,
    tab_order: &[usize],
) -> (r: FocusMove)
    requires
        focus_exclusive(*old(m)),
    ensures
        focus_exclusive(*final(m)),
        focus_moved(*old(m), *final(m), target, modal_panel, tab_order@, r),
        r.indicator_visible == match r.new {
            Some(n) => old(m).nodes@[n as int].kind == WidgetKind::TextInput || old(
                m,
            ).nodes@[n as int].kind == WidgetKind::TextArea,
            None => false,
        },
{
    dispatch_focus_with_indicator(m, target, modal_panel, tab_order, false)
}

/// Pointer focus and keyboard focus agree: from the same tree and target, two
/// focus moves that keep focus exclusive report the same previous holder, the
/// same new holder and the same moved flag, and leave the same tree.
pub proof fn law_pointer_focus_agrees_with_focus(
    m0: SceneModel,
    m1: SceneModel,
    m2: SceneModel,
    target: Option<usize>,
    modal_panel: Option<usize>,
    tab_order: Seq<usize>,
    r1: FocusMove,
    r2: FocusMove,
)
    requires
        focus_moved(m0, m1, target, modal_panel, tab_order, r1),
        focus_moved(m0, m2, target, modal_panel, tab_order, r2),
        focus_exclusive(m1),
        focus_exclusive(m2),
    ensures
        r1.old == r2.old,
        r1.new == r2.new,
        r1.moved == r2.moved,
        m1.nodes@ == m2.nodes@,
{
    assert forall|k: int| 0 <= k < m1.nodes@.len() implies m1.nodes@[k] == m2.nodes@[k] by {
        assert(m1.nodes@[k] == NodeFacts { focused: m1.nodes@[k].focused, ..m0.nodes@[k] });
        assert(m2.nodes@[k] == NodeFacts { focused: m2.nodes@[k].focused, ..m0.nodes@[k] });
        match r1.new {
            Some(n) => {
                assert(m1.nodes@[n as int].focused);
                assert(m2.nodes@[n as int].focused);
            },
            None => {},
        }
    }
    assert(m1.nodes@ =~= m2.nodes@);
}

} // verus!
