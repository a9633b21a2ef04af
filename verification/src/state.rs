//! The persistent navigation state and the mutator that applies
//! resolved events to it.
//!
//! [`NavState`] owns the graph and the lock. One call to
//! [`NavState::tick`] handles at most one navigation request: it picks
//! the focused node, resolves the first request that passes the lock
//! gate, applies the resulting focus change, and reports the remaining
//! requests of the tick as unhandled.
use vstd::prelude::*;

use non_empty_vec::NonEmpty;

use crate::events::EventModel;
use crate::events::NavEvent;
use crate::events::NavRequest;
use crate::graph::MenuNode;
use crate::graph::NavGraph;
use crate::graph::Node;
use crate::graph::NodeData;
use crate::menu::MenuBuilder;
use crate::menu::TreeMenu;
use crate::nevec::ne_contents;
use crate::nevec::ne_first;
use crate::nevec::ne_get;
use crate::nevec::ne_len;
use crate::resolve::FocusState;
use crate::resolve::Focusable;
use crate::resolve::NavError;
use crate::resolve::NavLock;
use crate::resolve::spec_next_focus_parent;
use crate::resolve::spec_resolve;
use crate::resolve::spec_root_path;
use crate::resolve::spec_root_path_from;
use crate::strategy::MenuNavigationStrategy;

verus! {

/// `n2` is `n1` with at most its focus state or its cached active
/// child changed: parentage, names, settings, declarations, actions
/// and focus-parent links all agree.
pub open spec fn skeleton_eq_node(n1: Node, n2: Node) -> bool {
    &&& n2.parent == n1.parent
    &&& n2.children == n1.children
    &&& n2.name == n1.name
    &&& (match (n1.data, n2.data) {
        (NodeData::Plain, NodeData::Plain) => true,
        (NodeData::Focus(f1), NodeData::Focus(f2)) => f1.action == f2.action,
        (NodeData::Menu(m1), NodeData::Menu(m2)) => m1.setting == m2.setting && m1.builder
            == m2.builder && (match (m1.tree, m2.tree) {
            (None, None) => true,
            (Some(t1), Some(t2)) => t1.focus_parent == t2.focus_parent,
            _ => false,
        }),
        _ => false,
    })
}

/// The mutator's frame: applying a focus change touches only focus
/// states and cached active children.
pub open spec fn same_skeleton(a: NavGraph, b: NavGraph) -> bool {
    &&& a.len() == b.len()
    &&& forall|i: int|
        0 <= i < a.len() ==> #[trigger] skeleton_eq_node(a.nodes@[i], b.nodes@[i])
}

/// The frame relation composes.
pub proof fn lemma_same_skeleton_trans(a: NavGraph, b: NavGraph, c: NavGraph)
    requires
        same_skeleton(a, b),
        same_skeleton(b, c),
    ensures
        same_skeleton(a, c),
{
    assert forall|i: int| 0 <= i < a.len() implies #[trigger] skeleton_eq_node(
        a.nodes@[i],
        c.nodes@[i],
    ) by {
        assert(skeleton_eq_node(a.nodes@[i], b.nodes@[i]));
        assert(skeleton_eq_node(b.nodes@[i], c.nodes@[i]));
    }
}

/// Frame-equal graphs agree on which menu contains a node: the walk
/// reads only parent links and menu readiness, which the frame keeps.
pub proof fn lemma_skeleton_parent_menu(a: NavGraph, b: NavGraph, i: int)
    requires
        a.wf(),
        b.wf(),
        same_skeleton(a, b),
    ensures
        a.spec_parent_menu(i) == b.spec_parent_menu(i),
    decreases i,
{
    if a.valid(i) {
        assert(skeleton_eq_node(a.nodes@[i], b.nodes@[i]));
        assert(a.wf_node(i));
        assert(b.wf_node(i));
        match a.node(i).parent {
            Some(p) => {
                assert(skeleton_eq_node(a.nodes@[p as int], b.nodes@[p as int]));
                if !a.spec_is_menu_ready(p as int) {
                    lemma_skeleton_parent_menu(a, b, p as int);
                }
            },
            None => {},
        }
    }
}

/// Frame-equal graphs have the same focus-parent ascent paths: the
/// mutator never moves a breadcrumb.
pub proof fn lemma_skeleton_root_path(a: NavGraph, b: NavGraph, acc: Seq<usize>)
    requires
        a.wf(),
        b.wf(),
        same_skeleton(a, b),
    ensures
        crate::resolve::spec_root_path_from(a, acc) == crate::resolve::spec_root_path_from(b, acc),
    decreases a.len() as int - acc.len() as int,
{
    if acc.len() == 0 {
    } else {
        let x = acc.last();
        lemma_skeleton_parent_menu(a, b, x as int);
        match a.spec_parent_menu(x as int) {
            Some(m) => {
                a.lemma_parent_menu_ready(x as int);
                assert(skeleton_eq_node(a.nodes@[m as int], b.nodes@[m as int]));
            },
            None => {},
        }
        assert(crate::resolve::spec_next_focus_parent(a, x) == crate::resolve::spec_next_focus_parent(b, x));
        match crate::resolve::spec_next_focus_parent(a, x) {
            None => {},
            Some(fp) => {
                if acc.contains(fp) || acc.len() >= a.len() {
                } else {
                    lemma_skeleton_root_path(a, b, acc.push(fp));
                }
            },
        }
    }
}

/// At most one node of the graph is focused.
pub open spec fn at_most_one_focused(g: NavGraph) -> bool {
    forall|x: int, y: int|
        g.spec_is_focusable(x) && g.spec_is_focusable(y) && #[trigger] g.spec_state(x)
            == FocusState::Focused && #[trigger] g.spec_state(y) == FocusState::Focused ==> x == y
}

/// Breadcrumb consistency, as far as a focused node exists: every
/// active node lies on the focus-parent ascent path of the focused
/// node.
pub open spec fn breadcrumbs_consistent_weak(g: NavGraph) -> bool {
    match spec_first_focused_from(g, 0) {
        Some(f) => match spec_root_path(g, f) {
            Ok(p) => forall|x: int|
                0 <= x < g.nodes@.len() && g.spec_is_focusable(x) && #[trigger] g.spec_state(x)
                    == FocusState::Active ==> p.contains(x as usize),
            Err(_) => true,
        },
        None => true,
    }
}

/// Breadcrumb consistency: every active node lies on the focus-parent
/// ascent path of the focused node, and without a focused node no
/// node is active.
pub open spec fn breadcrumbs_consistent(g: NavGraph) -> bool {
    &&& breadcrumbs_consistent_weak(g)
    &&& spec_first_focused_from(g, 0) is None ==> forall|x: int|
        0 <= x < g.nodes@.len() ==> !(g.spec_is_focusable(x) && #[trigger] g.spec_state(x)
            == FocusState::Active)
}

/// `n` with its focus state replaced.
pub open spec fn node_with_state(n: Node, st: FocusState) -> Node {
    Node {
        parent: n.parent,
        children: n.children,
        name: n.name,
        data: NodeData::Focus(Focusable { state: st, action: n.data->Focus_0.action }),
    }
}

/// `n` with its cached active child replaced.
pub open spec fn node_with_active_child(n: Node, child: usize) -> Node {
    Node {
        parent: n.parent,
        children: n.children,
        name: n.name,
        data: NodeData::Menu(
            MenuNode {
                setting: n.data->Menu_0.setting,
                builder: n.data->Menu_0.builder,
                tree: Some(
                    TreeMenu {
                        focus_parent: n.data->Menu_0.tree->0.focus_parent,
                        active_child: child,
                    },
                ),
            },
        ),
    }
}

/// The first node at or after `k` that is a focused focusable.
pub open spec fn spec_first_focused_from(g: NavGraph, k: int) -> Option<usize>
    decreases g.len() as int - k,
{
    if 0 <= k < g.len() {
        if g.spec_is_focusable(k) && g.spec_state(k) == FocusState::Focused {
            Some(k as usize)
        } else {
            spec_first_focused_from(g, k + 1)
        }
    } else {
        None
    }
}

/// What [`spec_first_focused_from`] finds, and that a `None` answer
/// means no focused node exists at or after `k`.
pub proof fn lemma_first_focused_char(g: NavGraph, k: int)
    requires
        0 <= k,
    ensures
        match spec_first_focused_from(g, k) {
            Some(f) => k <= f < g.len() && g.spec_is_focusable(f as int) && g.spec_state(f as int)
                == FocusState::Focused,
            None => forall|j: int|
                k <= j < g.len() ==> !(g.spec_is_focusable(j) && #[trigger] g.spec_state(j)
                    == FocusState::Focused),
        },
    decreases g.len() as int - k,
{
    broadcast use vstd::std_specs::vec::axiom_spec_len;

    if 0 <= k < g.len() {
        if !(g.spec_is_focusable(k) && g.spec_state(k) == FocusState::Focused) {
            lemma_first_focused_char(g, k + 1);
            assert(spec_first_focused_from(g, k) == spec_first_focused_from(g, k + 1));
            match spec_first_focused_from(g, k + 1) {
                Some(_) => {},
                None => {
                    assert forall|j: int|
                        k <= j < g.len() implies !(g.spec_is_focusable(j)
                        && #[trigger] g.spec_state(j) == FocusState::Focused) by {
                        if j != k {
                            assert(k + 1 <= j < g.len());
                        }
                    }
                },
            }
        } else {
            assert(vstd::std_specs::vec::spec_vec_len(&g.nodes) == g.nodes@.len());
            assert(spec_first_focused_from(g, k) == Some(k as usize));
        }
    }
}

/// The first in-service root menu (no focus parent) at or after `k`.
pub open spec fn spec_root_menu_from(g: NavGraph, k: int) -> Option<usize>
    decreases g.len() as int - k,
{
    if 0 <= k < g.len() {
        if g.spec_is_menu_ready(k) && g.spec_tree(k).focus_parent is None {
            Some(k as usize)
        } else {
            spec_root_menu_from(g, k + 1)
        }
    } else {
        None
    }
}

/// The first non-blocked focusable at or after `k` that is not inert.
pub open spec fn spec_any_prioritized_from(g: NavGraph, k: int) -> Option<usize>
    decreases g.len() as int - k,
{
    if 0 <= k < g.len() {
        if g.spec_is_focusable(k) && g.spec_state(k) != FocusState::Blocked && g.spec_state(k)
            != FocusState::Inert {
            Some(k as usize)
        } else {
            spec_any_prioritized_from(g, k + 1)
        }
    } else {
        None
    }
}

/// The first non-blocked focusable at or after `k`.
pub open spec fn spec_fallback_from(g: NavGraph, k: int) -> Option<usize>
    decreases g.len() as int - k,
{
    if 0 <= k < g.len() {
        if g.spec_is_focusable(k) && g.spec_state(k) != FocusState::Blocked {
            Some(k as usize)
        } else {
            spec_fallback_from(g, k + 1)
        }
    } else {
        None
    }
}

/// A representative focusable of menu `entity` with cached child
/// `child`: the child itself if it is a focusable, else the first of
/// the menu's sibling set.
pub open spec fn spec_any_in_menu(g: NavGraph, entity: usize, child: usize) -> Option<usize> {
    if g.spec_is_focusable(child as int) {
        Some(child)
    } else {
        let s = g.spec_focusables_of(entity as int);
        if s.len() > 0 {
            Some(s[0])
        } else {
            None
        }
    }
}

/// Descends from a menu through active children as long as the cached
/// child is an active focusable leading into a deeper menu; yields the
/// deepest menu reached and its cached child, or `None` when no
/// descent happened at all.
pub open spec fn spec_active_menu_rec(
    g: NavGraph,
    entity: usize,
    child: usize,
    repeated: bool,
    fuel: nat,
) -> Result<Option<(usize, usize)>, NavError>
    decreases fuel,
{
    if fuel == 0 {
        Err(NavError::Cycle)
    } else {
        let down = g.spec_is_focusable(child as int) && g.spec_state(child as int)
            == FocusState::Active && g.spec_child_menu(child) is Some;
        if down {
            let m2 = g.spec_child_menu(child)->0;
            spec_active_menu_rec(g, m2, g.spec_tree(m2 as int).active_child, true, (fuel - 1) as nat)
        } else if !repeated {
            Ok(None)
        } else {
            Ok(Some((entity, child)))
        }
    }
}

/// The later entries of the first-focusable preference chain: the
/// first prioritized-or-active node, else a representative of the root
/// menu, else any non-blocked focusable.
pub open spec fn spec_pick_rest(g: NavGraph) -> Option<usize> {
    match spec_any_prioritized_from(g, 0) {
        Some(x) => Some(x),
        None => match spec_root_menu_from(g, 0) {
            Some(rm) => match spec_any_in_menu(g, rm, g.spec_tree(rm as int).active_child) {
                Some(x) => Some(x),
                None => spec_fallback_from(g, 0),
            },
            None => spec_fallback_from(g, 0),
        },
    }
}

/// The node the driving loop starts a resolution from when no request
/// has been resolved yet: the focused node if one exists, else a
/// representative of the deepest active menu, else the preference
/// chain of [`spec_pick_rest`].
pub open spec fn spec_pick_first_focused(g: NavGraph) -> Result<Option<usize>, NavError> {
    match spec_first_focused_from(g, 0) {
        Some(f) => Ok(Some(f)),
        None => match spec_root_menu_from(g, 0) {
            None => Ok(spec_pick_rest(g)),
            Some(rm) => match spec_active_menu_rec(
                g,
                rm,
                g.spec_tree(rm as int).active_child,
                false,
                g.len() + 1,
            ) {
                Err(e) => Err(e),
                Ok(None) => Ok(spec_pick_rest(g)),
                Ok(Some(pair)) => match spec_any_in_menu(g, pair.0, pair.1) {
                    Some(x) => Ok(Some(x)),
                    None => Ok(spec_pick_rest(g)),
                },
            },
        },
    }
}

/// The first member of `kids` whose state marks it as previously
/// visited: prioritized, active or focused.
pub open spec fn spec_first_preferred(g: NavGraph, kids: Seq<usize>, k: int) -> Option<usize>
    decreases kids.len() as int - k,
{
    if 0 <= k < kids.len() {
        let c = kids[k];
        if g.spec_is_focusable(c as int) && (g.spec_state(c as int) == FocusState::Prioritized
            || g.spec_state(c as int) == FocusState::Active || g.spec_state(c as int)
            == FocusState::Focused) {
            Some(c)
        } else {
            spec_first_preferred(g, kids, k + 1)
        }
    } else {
        None
    }
}

/// The active child a menu gets when it is put in service: its first
/// previously-visited focusable, else the first of its sibling set;
/// `None` when the sibling set is empty, which is a fatal error.
pub open spec fn spec_pick_active_child(g: NavGraph, m: int) -> Option<usize> {
    let kids = g.spec_focusables_of(m);
    match spec_first_preferred(g, kids, 0) {
        Some(c) => Some(c),
        None => if kids.len() > 0 {
            Some(kids[0])
        } else {
            None
        },
    }
}

/// The focus parent a menu's declaration resolves to: `Some(target)`
/// for a serviceable declaration, `None` when the menu cannot be put
/// in service (a named parent not yet resolved, or a parent outside
/// the graph).
pub open spec fn spec_builder_focus_parent(g: NavGraph, m: int) -> Option<Option<usize>> {
    match g.spec_menu(m).builder {
        MenuBuilder::EntityParent(e) => if e < g.len() {
            Some(Some(e))
        } else {
            None
        },
        MenuBuilder::Root => Some(None),
        MenuBuilder::NamedParent(_) => None,
    }
}

/// The bookkeeping [`NavState::insert_tree_menus`] gives node `m`:
/// `Some` exactly for menus that are not yet in service and whose
/// declaration is serviceable.
pub open spec fn spec_menu_plan(g: NavGraph, m: int) -> Option<TreeMenu> {
    if g.spec_is_menu(m) && !g.spec_is_menu_ready(m) {
        match spec_builder_focus_parent(g, m) {
            Some(fp) => match spec_pick_active_child(g, m) {
                Some(ac) => Some(TreeMenu { focus_parent: fp, active_child: ac }),
                None => None,
            },
            None => None,
        }
    } else {
        None
    }
}

/// `n` with its menu bookkeeping replaced.
pub open spec fn node_with_tree(n: Node, t: TreeMenu) -> Node {
    Node {
        parent: n.parent,
        children: n.children,
        name: n.name,
        data: NodeData::Menu(
            MenuNode {
                setting: n.data->Menu_0.setting,
                builder: n.data->Menu_0.builder,
                tree: Some(t),
            },
        ),
    }
}

/// The first focusable (by id, at or after `k`) carrying `name`.
pub open spec fn spec_named_focusable_from(g: NavGraph, name: Seq<char>, k: int) -> Option<usize>
    decreases g.len() as int - k,
{
    if 0 <= k < g.len() {
        if g.spec_is_focusable(k) && (match g.node(k).name {
            Some(nm) => nm@ == name,
            None => false,
        }) {
            Some(k as usize)
        } else {
            spec_named_focusable_from(g, name, k + 1)
        }
    } else {
        None
    }
}

/// The declaration [`NavState::resolve_named_menus`] gives node `m`:
/// `Some(id)` exactly for menus declared with a named parent that some
/// focusable's name resolves.
pub open spec fn spec_name_plan(g: NavGraph, m: int) -> Option<usize> {
    if g.spec_is_menu(m) && g.spec_menu(m).builder is NamedParent {
        spec_named_focusable_from(g, g.spec_menu(m).builder->NamedParent_0@, 0)
    } else {
        None
    }
}

/// `n` with its menu declaration replaced.
pub open spec fn node_with_builder(n: Node, b: MenuBuilder) -> Node {
    Node {
        parent: n.parent,
        children: n.children,
        name: n.name,
        data: NodeData::Menu(
            MenuNode { setting: n.data->Menu_0.setting, builder: b, tree: n.data->Menu_0.tree },
        ),
    }
}

/// The preferred child, when one exists, is a member of `kids`.
pub proof fn lemma_first_preferred_member(g: NavGraph, kids: Seq<usize>, k: int)
    ensures
        match spec_first_preferred(g, kids, k) {
            Some(c) => kids.contains(c),
            None => true,
        },
    decreases kids.len() as int - k,
{
    if 0 <= k < kids.len() {
        let c = kids[k];
        if g.spec_is_focusable(c as int) && (g.spec_state(c as int) == FocusState::Prioritized
            || g.spec_state(c as int) == FocusState::Active || g.spec_state(c as int)
            == FocusState::Focused) {
            assert(kids[k] == c);
        } else {
            lemma_first_preferred_member(g, kids, k + 1);
        }
    }
}

/// The bookkeeping planned for a menu points inside the graph.
pub proof fn lemma_menu_plan_bounds(g: NavGraph, m: int)
    requires
        g.wf(),
    ensures
        match spec_menu_plan(g, m) {
            Some(t) => (t.active_child as int) < g.len() && (match t.focus_parent {
                Some(fp) => (fp as int) < g.len(),
                None => true,
            }),
            None => true,
        },
{
    if g.spec_is_menu(m) && !g.spec_is_menu_ready(m) {
        let kids = g.spec_focusables_of(m);
        g.lemma_focusables_of_members(m);
        lemma_first_preferred_member(g, kids, 0);
        match spec_pick_active_child(g, m) {
            Some(ac) => {
                assert(kids.contains(ac));
                let i = choose|i: int| 0 <= i < kids.len() && kids[i] == ac;
                assert(g.spec_in_sibling_set(kids[i]));
            },
            None => {},
        }
    }
}

/// The index of the first request the lock gate lets through, at or
/// after `k`: while locked, only `Unlock` passes.
pub open spec fn spec_first_ungated(reqs: Seq<NavRequest>, locked: bool, k: int) -> Option<int>
    decreases reqs.len() as int - k,
{
    if 0 <= k < reqs.len() {
        if locked && reqs[k] != NavRequest::Unlock {
            spec_first_ungated(reqs, locked, k + 1)
        } else {
            Some(k)
        }
    } else {
        None
    }
}

/// The focused node after an event is applied: the head of a focus
/// change's destination, else the previously focused node.
pub open spec fn spec_new_focus(ev: EventModel, f: usize) -> usize {
    match ev {
        EventModel::FocusChanged { to, from } => to[0],
        _ => f,
    }
}


/// A focus jump to a sibling of the focused node's menu keeps every
/// active node on the new focused node's ascent path: the sibling
/// climbs through exactly the menus the old focus did.
proof fn lemma_sibling_jump_breadcrumbs(
    g1: NavGraph,
    g2: NavGraph,
    f: usize,
    new_target: usize,
    fr: Seq<usize>,
    tos: Seq<usize>,
)
    requires
        g1.wf(),
        g2.wf(),
        g1.nodes@.len() == g2.nodes@.len(),
        same_skeleton(g1, g2),
        breadcrumbs_consistent(g1),
        spec_root_path(g1, f) is Ok,
        g1.spec_parent_menu(f as int) is Some,
        g1.spec_focusables_of(g1.spec_parent_menu(f as int)->0 as int).contains(new_target),
        fr == Seq::<usize>::empty().push(f),
        tos == seq![new_target],
        forall|x: int|
            0 <= x < g1.nodes@.len() && g1.spec_is_focusable(x) && #[trigger] g1.spec_state(x)
                == FocusState::Focused ==> x == f as int,
        forall|x: int|
            0 <= x < g1.nodes@.len() && g2.spec_is_focusable(x) && #[trigger] g2.spec_state(x)
                == FocusState::Focused ==> x == tos[0] || (g1.spec_is_focusable(x)
                && g1.spec_state(x) == FocusState::Focused && !fr.contains(x as usize)),
        forall|x: int|
            0 <= x < g1.nodes@.len() && g2.spec_is_focusable(x) && #[trigger] g2.spec_state(x)
                == FocusState::Active ==> tos.contains(x as usize) || (g1.spec_is_focusable(x)
                && g1.spec_state(x) == FocusState::Active && !fr.contains(x as usize)),
    ensures
        breadcrumbs_consistent_weak(g2),
{
    let m = g1.spec_parent_menu(f as int)->0;
    let siblings = g1.spec_focusables_of(m as int);
    g1.lemma_focusables_of_parent(m as int);
    g1.lemma_parent_menu_ready(f as int);
    let si = choose|i: int| 0 <= i < siblings.len() && siblings[i] == new_target;
    assert(siblings[si] == new_target);
    assert(g1.spec_parent_menu(new_target as int) == Some(m));
    assert(spec_next_focus_parent(g1, new_target) == spec_next_focus_parent(g1, f));
    let p_from = spec_root_path(g1, f)->Ok_0;
    crate::resolve::lemma_root_path_from_props(g1, seq![f]);
    lemma_first_focused_char(g2, 0);
    match spec_first_focused_from(g2, 0) {
        Some(f2) => {
            assert(f2 as int == tos[0] as int) by {
                if f2 as int != tos[0] as int {
                    assert(g1.spec_state(f2 as int) == FocusState::Focused);
                    assert(f2 == f);
                    assert(fr[0] == f);
                    assert(fr.contains(f2));
                    assert(false);
                }
            }
            assert(f2 == new_target);
            lemma_skeleton_root_path(g1, g2, seq![f2]);
            match spec_root_path(g1, new_target) {
                Err(_) => {},
                Ok(p_new) => {
                    crate::resolve::lemma_root_path_from_props(g1, seq![new_target]);
                    assert(p_new[0] == new_target);
                    match spec_next_focus_parent(g1, f) {
                        None => {
                            assert(spec_root_path(g1, f) == Ok::<Seq<usize>, NavError>(seq![f]));
                            assert(p_from =~= seq![f]);
                        },
                        Some(nf) => {
                            assert(!seq![f].contains(nf) && seq![f].len() < g1.len());
                            assert(!seq![new_target].contains(nf) && seq![new_target].len()
                                < g1.len());
                            assert(spec_root_path_from(g1, seq![f]) == spec_root_path_from(
                                g1,
                                seq![f].push(nf),
                            ));
                            assert(spec_root_path_from(g1, seq![new_target])
                                == spec_root_path_from(g1, seq![new_target].push(nf)));
                            crate::resolve::lemma_root_path_reseed(
                                g1,
                                seq![f].push(nf),
                                seq![new_target].push(nf),
                            );
                            crate::resolve::lemma_root_path_from_props(g1, seq![f].push(nf));
                            crate::resolve::lemma_root_path_from_props(
                                g1,
                                seq![new_target].push(nf),
                            );
                        },
                    }
                    assert forall|x: int|
                        0 <= x < g2.nodes@.len() && g2.spec_is_focusable(x)
                            && #[trigger] g2.spec_state(x) == FocusState::Active implies p_new.contains(
                        x as usize,
                    ) by {
                        if tos.contains(x as usize) {
                            assert(x as usize == new_target);
                            assert(p_new[0] == x as usize);
                        } else {
                            assert(g1.spec_is_focusable(x) && g1.spec_state(x)
                                == FocusState::Active && !fr.contains(x as usize));
                            match spec_first_focused_from(g1, 0) {
                                Some(f0) => {
                                    lemma_first_focused_char(g1, 0);
                                    assert(g1.spec_is_focusable(f0 as int) && g1.spec_state(
                                        f0 as int,
                                    ) == FocusState::Focused);
                                    assert(f0 as int == f as int);
                                    assert(p_from.contains(x as usize));
                                    let idx = choose|i: int|
                                        0 <= i < p_from.len() && p_from[i] == x as usize;
                                    assert(p_from[0] == f);
                                    assert(fr[0] == f);
                                    assert(idx != 0);
                                    match spec_next_focus_parent(g1, f) {
                                        None => {
                                            assert(false);
                                        },
                                        Some(nf) => {
                                            assert(p_from[1] == nf);
                                            assert(p_new[1] == nf);
                                            if idx == 1 {
                                                assert(p_new[1] == x as usize);
                                                assert(p_new.contains(x as usize));
                                            } else {
                                                assert(p_from.skip(2) == p_new.skip(2));
                                                assert(p_from.len() >= 2 && p_new.len() >= 2);
                                                assert(p_from.skip(2).len() == p_from.len() - 2);
                                                assert(p_new.skip(2).len() == p_new.len() - 2);
                                                assert(p_from.len() == p_new.len());
                                                assert(idx < p_new.len());
                                                assert(p_from.skip(2)[idx - 2] == p_from[idx]);
                                                assert(p_new.skip(2)[idx - 2] == p_new[idx]);
                                                assert(p_new[idx] == x as usize);
                                                assert(p_new.contains(x as usize));
                                            }
                                        },
                                    }
                                },
                                None => {
                                    assert(false);
                                },
                            }
                        }
                    }
                },
            }
        },
        None => {},
    }
}

/// The first in-service menu at or after `k` whose cached active child
/// is `e`.
pub open spec fn spec_menu_with_active_from(g: NavGraph, e: usize, k: int) -> Option<usize>
    decreases g.len() as int - k,
{
    if 0 <= k < g.len() {
        if g.spec_is_menu_ready(k) && g.spec_tree(k).active_child == e {
            Some(k as usize)
        } else {
            spec_menu_with_active_from(g, e, k + 1)
        }
    } else {
        None
    }
}

/// Clean menu caches along a destination breadcrumb: the nodes are
/// distinct, no two live in the same menu, and no menu on the way
/// already caches another node of the breadcrumb. Real breadcrumbs
/// produced by resolution have this shape; a stale cache outside it
/// could demote a just-promoted node again (in this library and in
/// unverified menu systems of this kind alike), so the positive
/// effect of a focus change is promised under this hypothesis.
pub open spec fn spec_to_menus_fresh(g: NavGraph, to: Seq<usize>) -> bool {
    &&& to.no_duplicates()
    &&& forall|i: int, j: int|
        #![trigger to[i], to[j]]
        0 <= i < j < to.len() ==> (match (
            g.spec_parent_menu(to[i] as int),
            g.spec_parent_menu(to[j] as int),
        ) {
            (Some(a), Some(b)) => a != b,
            _ => true,
        })
    &&& forall|j: int, i: int|
        #![trigger to[j], to[i]]
        0 <= j < to.len() && 0 <= i < to.len() && i != j ==> (match g.spec_parent_menu(
            to[j] as int,
        ) {
            Some(m) => g.spec_tree(m as int).active_child != to[i],
            None => true,
        })
}

/// The persistent navigation state: the menu graph and the lock.
#[derive(Debug)]
pub struct NavState {
    /// The navigation graph.
    pub graph: NavGraph,
    /// The navigation lock.
    pub lock: NavLock,
}

impl NavState {
    /// A navigation state over `graph`, unlocked.
    pub fn new(graph: NavGraph) -> (r: NavState)
        ensures
            r.graph == graph,
            r.lock.lock_reason is None,
    {
        NavState { graph, lock: NavLock::new() }
    }

    /// Sets the focus state of `entity`, if it is a focusable; does
    /// nothing otherwise.
    pub fn set_entity_focus(&mut self, entity: usize, state: FocusState)
        requires
            old(self).graph.wf(),
            entity < old(self).graph.nodes@.len(),
        ensures
            final(self).graph.wf(),
            final(self).lock == old(self).lock,
            final(self).graph.nodes@.len() == old(self).graph.nodes@.len(),
            same_skeleton(old(self).graph, final(self).graph),
            forall|j: int|
                0 <= j < old(self).graph.nodes@.len() && j != entity ==> final(self).graph.nodes@[j] == old(self).graph.nodes@[j],
            old(self).graph.spec_is_focusable(entity as int) ==> final(self).graph.nodes@[entity as int]
                == node_with_state(old(self).graph.nodes@[entity as int], state),
            !old(self).graph.spec_is_focusable(entity as int) ==> final(self).graph.nodes@ == old(self).graph.nodes@,
    {
        let node = &mut self.graph.nodes[entity];
        match &mut node.data {
            NodeData::Focus(f) => {
                f.state = state;
            },
            _ => {},
        }
        proof {
            assert forall|i: int| 0 <= i < self.graph.nodes@.len() implies #[trigger] self.graph.wf_node(i) by {
                assert(old(self).graph.wf_node(i));
            }
            assert forall|i: int|
                0 <= i < self.graph.nodes@.len() implies #[trigger] skeleton_eq_node(
                old(self).graph.nodes@[i],
                self.graph.nodes@[i],
            ) by {}
        }
    }

    /// Sets the cached active child of the menu enclosing `child` to
    /// `child`, and sets the menu's previous active child inert; does
    /// nothing when no menu encloses `child`.
    pub fn set_active_child(&mut self, child: usize)
        requires
            old(self).graph.wf(),
            child < old(self).graph.nodes@.len(),
        ensures
            final(self).graph.wf(),
            final(self).lock == old(self).lock,
            final(self).graph.nodes@.len() == old(self).graph.nodes@.len(),
            same_skeleton(old(self).graph, final(self).graph),
            match old(self).graph.spec_parent_menu(child as int) {
                None => final(self).graph.nodes@ == old(self).graph.nodes@,
                Some(m) => {
                    let prev = old(self).graph.spec_tree(m as int).active_child;
                    &&& final(self).graph.nodes@[m as int] == node_with_active_child(
                        old(self).graph.nodes@[m as int],
                        child,
                    )
                    &&& (prev != m && old(self).graph.spec_is_focusable(prev as int) ==> final(self).graph.nodes@[prev as int] == node_with_state(
                        old(self).graph.nodes@[prev as int],
                        FocusState::Inert,
                    ))
                    &&& (!old(self).graph.spec_is_focusable(prev as int) ==> forall|j: int|
                        0 <= j < old(self).graph.nodes@.len() && j != m ==> final(self).graph.nodes@[j] == old(self).graph.nodes@[j])
                    &&& forall|j: int|
                        0 <= j < old(self).graph.nodes@.len() && j != m && j != prev ==> final(self).graph.nodes@[j] == old(self).graph.nodes@[j]
                },
            },
            // no node gains focus nor activity from this operation
            forall|x: int|
                0 <= x < old(self).graph.nodes@.len() && final(self).graph.spec_is_focusable(x)
                    && final(self).graph.spec_state(x) == FocusState::Focused ==> old(self).graph.spec_is_focusable(x) && old(self).graph.spec_state(x)
                    == FocusState::Focused,
            forall|x: int|
                0 <= x < old(self).graph.nodes@.len() && final(self).graph.spec_is_focusable(x)
                    && final(self).graph.spec_state(x) == FocusState::Active ==> old(self).graph.spec_is_focusable(x) && old(self).graph.spec_state(x)
                    == FocusState::Active,
    {
        let m_opt = self.graph.parent_menu(child);
        match m_opt {
            None => {},
            Some(m) => {
                let ghost pre = self.graph;
                proof {
                    assert(pre.wf_node(m as int));
                }
                let t = self.graph.tree_of(m);
                let prev = t.active_child;
                let node = &mut self.graph.nodes[m];
                match &mut node.data {
                    NodeData::Menu(mn) => {
                        match &mut mn.tree {
                            Some(t2) => {
                                t2.active_child = child;
                            },
                            None => {},
                        }
                    },
                    _ => {},
                }
                proof {
                    assert(self.graph.nodes@[m as int] == node_with_active_child(
                        pre.nodes@[m as int],
                        child,
                    ));
                    assert forall|i: int| 0 <= i < self.graph.nodes@.len() implies #[trigger] self.graph.wf_node(i) by {
                        assert(pre.wf_node(i));
                    }
                    assert forall|i: int|
                        0 <= i < self.graph.nodes@.len() implies #[trigger] skeleton_eq_node(
                        pre.nodes@[i],
                        self.graph.nodes@[i],
                    ) by {}
                }
                let ghost mid = self.graph;
                self.set_entity_focus(prev, FocusState::Inert);
                proof {
                    lemma_same_skeleton_trans(pre, mid, self.graph);
                }
            },
        }
    }

    /// Applies one focus change: the nodes of `from` are put to sleep
    /// (the outermost set inert, the rest prioritized), then the nodes
    /// of `to` take over (the first focused, the rest active), each
    /// becoming its menu's cached active child. Returns the newly
    /// focused node.
    ///
    /// When `to` and `from` are equal the change is a no-op.
    pub fn update_focus(&mut self, from: &Vec<usize>, to: &NonEmpty<usize>) -> (focus: usize)
        requires
            old(self).graph.wf(),
            forall|i: int| 0 <= i < from@.len() ==> #[trigger] from@[i] < old(self).graph.nodes@.len(),
            forall|i: int|
                0 <= i < ne_contents(*to).len() ==> #[trigger] ne_contents(*to)[i] < old(self).graph.nodes@.len(),
            ne_contents(*to).len() >= 1,
        ensures
            final(self).graph.wf(),
            final(self).lock == old(self).lock,
            final(self).graph.nodes@.len() == old(self).graph.nodes@.len(),
            same_skeleton(old(self).graph, final(self).graph),
            focus == ne_contents(*to)[0],
            ne_contents(*to) =~= from@ ==> final(self).graph == old(self).graph,
            // only the head of `to` can gain focus; nodes listed in
            // `from` lose it
            !(ne_contents(*to) =~= from@) ==> forall|x: int|
                0 <= x < old(self).graph.nodes@.len() && final(self).graph.spec_is_focusable(x)
                    && final(self).graph.spec_state(x) == FocusState::Focused ==> x
                    == ne_contents(*to)[0] || (old(self).graph.spec_is_focusable(x) && old(self).graph.spec_state(x) == FocusState::Focused && !from@.contains(x as usize)),
            // a node is active afterwards only if the change itself
            // activated it, or it was active and left untouched
            !(ne_contents(*to) =~= from@) ==> forall|x: int|
                0 <= x < old(self).graph.nodes@.len() && final(self).graph.spec_is_focusable(x)
                    && final(self).graph.spec_state(x) == FocusState::Active ==> ne_contents(
                    *to,
                ).contains(x as usize) || (old(self).graph.spec_is_focusable(x) && old(self).graph.spec_state(x) == FocusState::Active && !from@.contains(x as usize)),
            // with a single-node destination, the head does gain focus
            ne_contents(*to).len() == 1 && old(self).graph.spec_is_focusable(
                ne_contents(*to)[0] as int,
            ) && !(ne_contents(*to) =~= from@) ==> final(self).graph.spec_state(
                ne_contents(*to)[0] as int,
            ) == FocusState::Focused,
            // the change is applied: with clean menu caches the head of
            // `to` is focused afterwards and the rest of `to` active
            !(ne_contents(*to) =~= from@) && spec_to_menus_fresh(
                old(self).graph,
                ne_contents(*to),
            ) ==> (old(self).graph.spec_is_focusable(ne_contents(*to)[0] as int) ==> final(self).graph.spec_state(
                ne_contents(*to)[0] as int,
            ) == FocusState::Focused) && (forall|k: int|
                1 <= k < ne_contents(*to).len() && old(self).graph.spec_is_focusable(
                    #[trigger] ne_contents(*to)[k] as int,
                ) ==> final(self).graph.spec_state(ne_contents(*to)[k] as int)
                    == FocusState::Active),
            // the `from` breadcrumb is put to sleep
            !(ne_contents(*to) =~= from@) ==> forall|i: int|
                0 <= i < from@.len() && !ne_contents(*to).contains(#[trigger] from@[i]) && old(self).graph.spec_is_focusable(from@[i] as int) ==> (final(self).graph.spec_state(
                    from@[i] as int,
                ) == FocusState::Inert || final(self).graph.spec_state(from@[i] as int)
                    == FocusState::Prioritized),
            // its outermost node becomes exactly inert
            !(ne_contents(*to) =~= from@) && from@.len() > 0 && from@.no_duplicates()
                && !ne_contents(*to).contains(from@.last()) && old(self).graph.spec_is_focusable(
                from@.last() as int,
            ) ==> final(self).graph.spec_state(from@.last() as int) == FocusState::Inert,
            // uniqueness carries over whenever the previously focused
            // node, if any, is listed in `from`
            !(ne_contents(*to) =~= from@) && at_most_one_focused(old(self).graph) && (forall|x: int|
                0 <= x < old(self).graph.nodes@.len() && old(self).graph.spec_is_focusable(x)
                    && #[trigger] old(self).graph.spec_state(x) == FocusState::Focused
                    ==> from@.contains(x as usize)) ==> at_most_one_focused(final(self).graph),
    {
        let to_len = ne_len(to);
        let from_len = from.len();
        let to0 = ne_first(to);

        // a focus change onto the same breadcrumb is a no-op
        let mut same = to_len == from_len;
        let mut i: usize = 0;
        while i < to_len
            invariant
                to_len == ne_contents(*to).len(),
                from_len == from@.len(),
                0 <= i <= to_len,
                same <==> (to_len == from@.len() && (forall|j: int|
                    0 <= j < i ==> ne_contents(*to)[j] == from@[j])),
            decreases to_len - i,
        {
            if i < from_len {
                if ne_get(to, i) != from[i] {
                    same = false;
                }
            }
            i = i + 1;
        }
        if same {
            proof {
                assert(ne_contents(*to) =~= from@);
            }
            return to0;
        }
        let ghost g0 = self.graph;

        // put the `from` breadcrumb to sleep: outermost inert, rest
        // prioritized
        if from_len > 0 {
            proof {
                assert(skeleton_eq_node(
                    g0.nodes@[from@[from_len - 1] as int],
                    self.graph.nodes@[from@[from_len - 1] as int],
                ));
            }
            self.set_entity_focus(from[from_len - 1], FocusState::Inert);
        }
        proof {
            assert(same_skeleton(g0, self.graph));
            assert forall|mm: int|
                0 <= mm < g0.nodes@.len() && !g0.spec_is_focusable(mm) implies #[trigger] self.graph.nodes@[mm]
                == g0.nodes@[mm] by {
                assert(skeleton_eq_node(g0.nodes@[mm], self.graph.nodes@[mm]));
            }
        }
        let mut j: usize = 0;
        while j < from_len
            invariant
                self.graph.wf(),
                self.graph.nodes@.len() == g0.nodes@.len(),
                same_skeleton(g0, self.graph),
                self.lock == old(self).lock,
                from_len == from@.len(),
                0 <= j <= from_len,
                forall|i: int| 0 <= i < from@.len() ==> #[trigger] from@[i] < g0.nodes@.len(),
                forall|x: int|
                    0 <= x < g0.nodes@.len() && self.graph.spec_is_focusable(x)
                        && self.graph.spec_state(x) == FocusState::Focused ==> g0.spec_is_focusable(
                        x,
                    ) && g0.spec_state(x) == FocusState::Focused,
                forall|x: int|
                    0 <= x < g0.nodes@.len() && self.graph.spec_is_focusable(x)
                        && self.graph.spec_state(x) == FocusState::Active ==> g0.spec_is_focusable(
                        x,
                    ) && g0.spec_state(x) == FocusState::Active,
                from_len > 0 ==> !(self.graph.spec_is_focusable(from@[from_len - 1] as int)
                    && self.graph.spec_state(from@[from_len - 1] as int) == FocusState::Focused)
                    && !(self.graph.spec_is_focusable(from@[from_len - 1] as int)
                    && self.graph.spec_state(from@[from_len - 1] as int) == FocusState::Active),
                forall|i: int|
                    0 <= i < j && j < from_len ==> !(self.graph.spec_is_focusable(
                        #[trigger] from@[i] as int,
                    ) && (self.graph.spec_state(from@[i] as int) == FocusState::Focused
                        || self.graph.spec_state(from@[i] as int) == FocusState::Active)),
                j == from_len ==> forall|i: int|
                    0 <= i < from_len ==> !(self.graph.spec_is_focusable(
                        #[trigger] from@[i] as int,
                    ) && (self.graph.spec_state(from@[i] as int) == FocusState::Focused
                        || self.graph.spec_state(from@[i] as int) == FocusState::Active)),
                forall|i: int|
                    0 <= i < j && i < from_len - 1 && g0.spec_is_focusable(
                        #[trigger] from@[i] as int,
                    ) ==> (self.graph.spec_state(from@[i] as int) == FocusState::Inert
                        || self.graph.spec_state(from@[i] as int) == FocusState::Prioritized),
                from_len > 0 && g0.spec_is_focusable(from@[from_len - 1] as int)
                    ==> (self.graph.spec_state(from@[from_len - 1] as int) == FocusState::Inert
                    || self.graph.spec_state(from@[from_len - 1] as int)
                    == FocusState::Prioritized),
                from_len > 0 && from@.no_duplicates() && g0.spec_is_focusable(
                    from@[from_len - 1] as int,
                ) ==> self.graph.spec_state(from@[from_len - 1] as int) == FocusState::Inert,
                forall|mm: int|
                    0 <= mm < g0.nodes@.len() && !g0.spec_is_focusable(mm)
                        ==> #[trigger] self.graph.nodes@[mm] == g0.nodes@[mm],
            decreases from_len - j,
        {
            let ghost gpre = self.graph;
            if j < from_len - 1 {
                proof {
                    assert(skeleton_eq_node(
                        g0.nodes@[from@[j as int] as int],
                        gpre.nodes@[from@[j as int] as int],
                    ));
                }
                self.set_entity_focus(from[j], FocusState::Prioritized);
                proof {
                    lemma_same_skeleton_trans(g0, gpre, self.graph);
                    assert forall|i: int|
                        0 <= i < j + 1 && i < from_len - 1 && g0.spec_is_focusable(
                            #[trigger] from@[i] as int,
                        ) implies (self.graph.spec_state(from@[i] as int) == FocusState::Inert
                        || self.graph.spec_state(from@[i] as int)
                        == FocusState::Prioritized) by {
                        if from@[i] != from@[j as int] {
                            assert(self.graph.nodes@[from@[i] as int] == gpre.nodes@[from@[i] as int]);
                        }
                    }
                    assert forall|i: int|
                        0 <= i < from_len && from@[i] != from@[j as int] implies self.graph.nodes@[from@[i] as int]
                        == gpre.nodes@[from@[i] as int] by {}
                    assert forall|mm: int|
                        0 <= mm < g0.nodes@.len() && !g0.spec_is_focusable(mm) implies #[trigger] self.graph.nodes@[mm]
                        == g0.nodes@[mm] by {
                        assert(skeleton_eq_node(g0.nodes@[mm], gpre.nodes@[mm]));
                        if mm != from@[j as int] as int {
                            assert(self.graph.nodes@[mm] == gpre.nodes@[mm]);
                        }
                    }
                }
            }
            j = j + 1;
        }

        // wake the `to` breadcrumb: first focused, rest active
        let ghost ga = self.graph;
        self.set_active_child(to0);
        proof {
            lemma_same_skeleton_trans(g0, ga, self.graph);
        }
        let ghost gb = self.graph;
        proof {
            lemma_skeleton_parent_menu(g0, ga, to0 as int);
        }
        self.set_entity_focus(to0, FocusState::Focused);
        proof {
            lemma_same_skeleton_trans(g0, gb, self.graph);
            assert(skeleton_eq_node(g0.nodes@[to0 as int], self.graph.nodes@[to0 as int]));
            let ghost tos = ne_contents(*to);
            // the head is focused now, and the breadcrumb caches of the
            // remaining destination nodes are untouched so far
            if g0.spec_is_focusable(to0 as int) {
                assert(self.graph.spec_state(to0 as int) == FocusState::Focused);
            }
            if spec_to_menus_fresh(g0, tos) {
                assert forall|j: int|
                    1 <= j < tos.len() implies (match g0.spec_parent_menu(
                    #[trigger] tos[j] as int,
                ) {
                    Some(m) => self.graph.spec_tree(m as int).active_child == g0.spec_tree(
                        m as int,
                    ).active_child,
                    None => true,
                }) by {
                    match g0.spec_parent_menu(tos[j] as int) {
                        Some(m) => {
                            g0.lemma_parent_menu_ready(tos[j] as int);
                            assert(tos[0] == to0);
                            assert(g0.spec_is_menu_ready(m as int));
                            assert(skeleton_eq_node(g0.nodes@[m as int], ga.nodes@[m as int]));
                            assert(skeleton_eq_node(g0.nodes@[m as int], gb.nodes@[m as int]));
                            // the focus write touches at most the head
                            assert(gb.nodes@[m as int] == self.graph.nodes@[m as int]) by {
                                if gb.spec_is_focusable(to0 as int) {
                                    assert(m as int != to0 as int);
                                } else {
                                    assert(self.graph.nodes@ == gb.nodes@);
                                }
                            }
                            // the cache write of the head touched a
                            // different menu, if any
                            assert(ga.nodes@[m as int] == gb.nodes@[m as int]) by {
                                match g0.spec_parent_menu(to0 as int) {
                                    Some(m0) => {
                                        assert(m0 != m);
                                        let prevv = ga.spec_tree(m0 as int).active_child;
                                        if ga.spec_is_focusable(prevv as int) {
                                            assert(prevv as int != m as int);
                                        }
                                    },
                                    None => {
                                        assert(gb.nodes@ == ga.nodes@);
                                    },
                                }
                            }
                            assert(ga.nodes@[m as int] == g0.nodes@[m as int]) by {
                                assert(!g0.spec_is_focusable(m as int));
                            }
                        },
                        None => {},
                    }
                }
            }
            // the `from` breadcrumb stays asleep through the wake phase:
            // the cache hand-over can only demote further, to inert
            assert forall|i: int|
                0 <= i < from@.len() && !ne_contents(*to).contains(#[trigger] from@[i])
                    && g0.spec_is_focusable(from@[i] as int) implies (self.graph.spec_state(
                from@[i] as int,
            ) == FocusState::Inert || self.graph.spec_state(from@[i] as int)
                == FocusState::Prioritized) by {
                assert(ne_contents(*to)[0] == to0);
                assert(from@[i] != to0);
                assert(skeleton_eq_node(g0.nodes@[from@[i] as int], ga.nodes@[from@[i] as int]));
                match g0.spec_parent_menu(to0 as int) {
                    Some(m0) => {
                        g0.lemma_parent_menu_ready(to0 as int);
                        assert(!g0.spec_is_focusable(m0 as int));
                        let prevv = ga.spec_tree(m0 as int).active_child;
                        if from@[i] as int == prevv as int {
                            assert(gb.spec_state(from@[i] as int) == FocusState::Inert);
                        } else {
                            assert(gb.nodes@[from@[i] as int] == ga.nodes@[from@[i] as int]);
                        }
                    },
                    None => {
                        assert(gb.nodes@ == ga.nodes@);
                    },
                }
                assert(self.graph.nodes@[from@[i] as int] == gb.nodes@[from@[i] as int]);
            }
            // and its outermost node stays exactly inert
            if from_len > 0 && from@.no_duplicates() && !ne_contents(*to).contains(
                from@[from_len - 1],
            ) && g0.spec_is_focusable(from@[from_len - 1] as int) {
                let li = from@[from_len - 1] as int;
                assert(from@[from_len - 1] != to0);
                assert(skeleton_eq_node(g0.nodes@[li], ga.nodes@[li]));
                match g0.spec_parent_menu(to0 as int) {
                    Some(m0) => {
                        g0.lemma_parent_menu_ready(to0 as int);
                        assert(!g0.spec_is_focusable(m0 as int));
                        let prevv = ga.spec_tree(m0 as int).active_child;
                        if li == prevv as int {
                            assert(gb.spec_state(li) == FocusState::Inert);
                        } else {
                            assert(gb.nodes@[li] == ga.nodes@[li]);
                        }
                    },
                    None => {
                        assert(gb.nodes@ == ga.nodes@);
                    },
                }
                assert(self.graph.nodes@[li] == gb.nodes@[li]);
                assert(self.graph.spec_state(li) == FocusState::Inert);
            }
            assert forall|x: int|
                0 <= x < g0.nodes@.len() && self.graph.spec_is_focusable(x)
                    && self.graph.spec_state(x) == FocusState::Focused && x
                    != to0 implies (g0.spec_is_focusable(x) && g0.spec_state(x)
                == FocusState::Focused && !from@.contains(x as usize)) by {
                assert(self.graph.nodes@[x] == gb.nodes@[x]);
                assert(gb.spec_is_focusable(x) && gb.spec_state(x) == FocusState::Focused);
                assert(ga.spec_is_focusable(x) && ga.spec_state(x) == FocusState::Focused);
                if from@.contains(x as usize) {
                    broadcast use vstd::std_specs::vec::axiom_spec_len;

                    let i = choose|i: int| 0 <= i < from@.len() && from@[i] == x as usize;
                    assert(x <= usize::MAX as int) by {
                        assert(vstd::std_specs::vec::spec_vec_len(&g0.nodes) == g0.nodes@.len());
                    }
                    assert(from@[i] as int == x);
                    assert(!(ga.spec_is_focusable(from@[i] as int) && ga.spec_state(
                        from@[i] as int,
                    ) == FocusState::Focused));
                }
            }
            assert forall|x: int|
                0 <= x < g0.nodes@.len() && self.graph.spec_is_focusable(x)
                    && self.graph.spec_state(x) == FocusState::Active implies ne_contents(
                *to,
            ).contains(x as usize) || (g0.spec_is_focusable(x) && g0.spec_state(x)
                == FocusState::Active && !from@.contains(x as usize)) by {
                if x == to0 as int {
                    assert(ne_contents(*to)[0] == to0);
                    assert(ne_contents(*to).contains(x as usize));
                } else {
                    assert(self.graph.nodes@[x] == gb.nodes@[x]);
                    assert(gb.spec_is_focusable(x) && gb.spec_state(x) == FocusState::Active);
                    assert(ga.spec_is_focusable(x) && ga.spec_state(x) == FocusState::Active);
                    if from@.contains(x as usize) {
                        broadcast use vstd::std_specs::vec::axiom_spec_len;

                        let i = choose|i: int| 0 <= i < from@.len() && from@[i] == x as usize;
                        assert(x <= usize::MAX as int) by {
                            assert(vstd::std_specs::vec::spec_vec_len(&g0.nodes)
                                == g0.nodes@.len());
                        }
                        assert(from@[i] as int == x);
                        assert(!(ga.spec_is_focusable(from@[i] as int) && (ga.spec_state(
                            from@[i] as int,
                        ) == FocusState::Focused || ga.spec_state(from@[i] as int)
                            == FocusState::Active)));
                    }
                }
            }
        }
        let mut k: usize = 1;
        while k < to_len
            invariant
                self.graph.wf(),
                self.graph.nodes@.len() == g0.nodes@.len(),
                same_skeleton(g0, self.graph),
                self.lock == old(self).lock,
                to_len == ne_contents(*to).len(),
                1 <= k <= to_len,
                to0 == ne_contents(*to)[0],
                to0 < g0.nodes@.len(),
                forall|i: int|
                    0 <= i < ne_contents(*to).len() ==> #[trigger] ne_contents(*to)[i]
                        < g0.nodes@.len(),
                forall|x: int|
                    0 <= x < g0.nodes@.len() && self.graph.spec_is_focusable(x)
                        && self.graph.spec_state(x) == FocusState::Focused ==> x == to0 || (
                    g0.spec_is_focusable(x) && g0.spec_state(x) == FocusState::Focused
                        && !from@.contains(x as usize)),
                forall|x: int|
                    0 <= x < g0.nodes@.len() && self.graph.spec_is_focusable(x)
                        && self.graph.spec_state(x) == FocusState::Active ==> ne_contents(
                        *to,
                    ).contains(x as usize) || (g0.spec_is_focusable(x) && g0.spec_state(x)
                        == FocusState::Active && !from@.contains(x as usize)),
                to_len == 1 && g0.spec_is_focusable(to0 as int) ==> self.graph.spec_state(
                    to0 as int,
                ) == FocusState::Focused,
                g0.wf(),
                from_len == from@.len(),
                forall|i: int| 0 <= i < from@.len() ==> #[trigger] from@[i] < g0.nodes@.len(),
                spec_to_menus_fresh(g0, ne_contents(*to)) ==> forall|j: int|
                    k <= j < to_len ==> (match g0.spec_parent_menu(
                        #[trigger] ne_contents(*to)[j] as int,
                    ) {
                        Some(m) => self.graph.spec_tree(m as int).active_child == g0.spec_tree(
                            m as int,
                        ).active_child,
                        None => true,
                    }),
                spec_to_menus_fresh(g0, ne_contents(*to)) && g0.spec_is_focusable(to0 as int)
                    ==> self.graph.spec_state(to0 as int) == FocusState::Focused,
                spec_to_menus_fresh(g0, ne_contents(*to)) ==> forall|i: int|
                    1 <= i < k && g0.spec_is_focusable(#[trigger] ne_contents(*to)[i] as int)
                        ==> self.graph.spec_state(ne_contents(*to)[i] as int)
                        == FocusState::Active,
                forall|i: int|
                    0 <= i < from@.len() && !ne_contents(*to).contains(#[trigger] from@[i])
                        && g0.spec_is_focusable(from@[i] as int) ==> (self.graph.spec_state(
                        from@[i] as int,
                    ) == FocusState::Inert || self.graph.spec_state(from@[i] as int)
                        == FocusState::Prioritized),
                from_len > 0 && from@.no_duplicates() && !ne_contents(*to).contains(
                    from@[from_len - 1],
                ) && g0.spec_is_focusable(from@[from_len - 1] as int) ==> self.graph.spec_state(
                    from@[from_len - 1] as int,
                ) == FocusState::Inert,
            decreases to_len - k,
        {
            let e = ne_get(to, k);
            let ghost gc = self.graph;
            proof {
                lemma_skeleton_parent_menu(g0, gc, e as int);
            }
            self.set_active_child(e);
            proof {
                lemma_same_skeleton_trans(g0, gc, self.graph);
                let ghost tos = ne_contents(*to);
                // the cache hand-over of this step touches only this
                // step's menu and demotes only its remembered child
                match g0.spec_parent_menu(e as int) {
                    Some(mk) => {
                        g0.lemma_parent_menu_ready(e as int);
                        assert(!g0.spec_is_focusable(mk as int));
                        let prevv = gc.spec_tree(mk as int).active_child;
                        if spec_to_menus_fresh(g0, tos) {
                            assert(prevv == g0.spec_tree(mk as int).active_child);
                            assert forall|j: int|
                                k as int + 1 <= j < to_len implies (match g0.spec_parent_menu(
                                #[trigger] tos[j] as int,
                            ) {
                                Some(m) => self.graph.spec_tree(m as int).active_child
                                    == g0.spec_tree(m as int).active_child,
                                None => true,
                            }) by {
                                match g0.spec_parent_menu(tos[j] as int) {
                                    Some(m) => {
                                        assert(m != mk);
                                        g0.lemma_parent_menu_ready(tos[j] as int);
                                        assert(!g0.spec_is_focusable(m as int));
                                        if gc.spec_is_focusable(prevv as int) {
                                            assert(skeleton_eq_node(
                                                g0.nodes@[prevv as int],
                                                gc.nodes@[prevv as int],
                                            ));
                                            assert(prevv as int != m as int);
                                        }
                                        assert(self.graph.nodes@[m as int] == gc.nodes@[m as int]);
                                    },
                                    None => {},
                                }
                            }
                            if g0.spec_is_focusable(to0 as int) {
                                assert(prevv != tos[0]);
                                assert(skeleton_eq_node(
                                    g0.nodes@[to0 as int],
                                    gc.nodes@[to0 as int],
                                ));
                                assert(self.graph.nodes@[to0 as int] == gc.nodes@[to0 as int]);
                            }
                            assert forall|i: int|
                                1 <= i < k && g0.spec_is_focusable(
                                    #[trigger] tos[i] as int,
                                ) implies self.graph.spec_state(tos[i] as int)
                                == FocusState::Active by {
                                assert(prevv != tos[i]);
                                assert(self.graph.nodes@[tos[i] as int] == gc.nodes@[tos[i] as int]);
                            }
                        }
                        // sleeping nodes can only be demoted further
                        assert forall|i: int|
                            0 <= i < from@.len() && !tos.contains(#[trigger] from@[i])
                                && g0.spec_is_focusable(from@[i] as int) implies (
                        self.graph.spec_state(from@[i] as int) == FocusState::Inert
                            || self.graph.spec_state(from@[i] as int)
                            == FocusState::Prioritized) by {
                            if from@[i] as int == prevv as int {
                                assert(skeleton_eq_node(
                                    g0.nodes@[prevv as int],
                                    gc.nodes@[prevv as int],
                                ));
                                assert(self.graph.spec_state(from@[i] as int)
                                    == FocusState::Inert);
                            } else {
                                assert(self.graph.nodes@[from@[i] as int] == gc.nodes@[from@[i] as int]);
                            }
                        }
                        if from_len > 0 && from@.no_duplicates() && !tos.contains(
                            from@[from_len - 1],
                        ) && g0.spec_is_focusable(from@[from_len - 1] as int) {
                            let li = from@[from_len - 1] as int;
                            if li == prevv as int {
                                assert(skeleton_eq_node(g0.nodes@[li], gc.nodes@[li]));
                                assert(self.graph.spec_state(li) == FocusState::Inert);
                            } else {
                                assert(self.graph.nodes@[li] == gc.nodes@[li]);
                            }
                        }
                    },
                    None => {
                        assert(self.graph.nodes@ == gc.nodes@);
                    },
                }
            }
            let ghost gd = self.graph;
            self.set_entity_focus(e, FocusState::Active);
            proof {
                lemma_same_skeleton_trans(g0, gd, self.graph);
                let ghost tos = ne_contents(*to);
                assert(e == tos[k as int]);
                if spec_to_menus_fresh(g0, tos) {
                    // this step's node is active now; everything else
                    // kept its state
                    if g0.spec_is_focusable(e as int) {
                        assert(skeleton_eq_node(g0.nodes@[e as int], gd.nodes@[e as int]));
                        assert(self.graph.spec_state(e as int) == FocusState::Active);
                    }
                    if g0.spec_is_focusable(to0 as int) {
                        assert(tos[k as int] != tos[0]);
                        assert(self.graph.nodes@[to0 as int] == gd.nodes@[to0 as int]);
                    }
                    assert forall|i: int|
                        1 <= i < k + 1 && g0.spec_is_focusable(
                            #[trigger] tos[i] as int,
                        ) implies self.graph.spec_state(tos[i] as int) == FocusState::Active by {
                        if i < k {
                            assert(tos[i] != tos[k as int]);
                            assert(self.graph.nodes@[tos[i] as int] == gd.nodes@[tos[i] as int]);
                        }
                    }
                    assert forall|j: int|
                        k as int + 1 <= j < to_len implies (match g0.spec_parent_menu(
                        #[trigger] tos[j] as int,
                    ) {
                        Some(m) => self.graph.spec_tree(m as int).active_child == g0.spec_tree(
                            m as int,
                        ).active_child,
                        None => true,
                    }) by {
                        match g0.spec_parent_menu(tos[j] as int) {
                            Some(m) => {
                                g0.lemma_parent_menu_ready(tos[j] as int);
                                assert(!g0.spec_is_focusable(m as int));
                                if gd.spec_is_focusable(e as int) {
                                    assert(skeleton_eq_node(
                                        g0.nodes@[e as int],
                                        gd.nodes@[e as int],
                                    ));
                                    assert(e as int != m as int);
                                    assert(self.graph.nodes@[m as int] == gd.nodes@[m as int]);
                                } else {
                                    assert(self.graph.nodes@ == gd.nodes@);
                                }
                            },
                            None => {},
                        }
                    }
                }
                // the focus write of this step touches a breadcrumb
                // node, never a sleeping one
                assert forall|i: int|
                    0 <= i < from@.len() && !tos.contains(#[trigger] from@[i])
                        && g0.spec_is_focusable(from@[i] as int) implies (self.graph.spec_state(
                    from@[i] as int,
                ) == FocusState::Inert || self.graph.spec_state(from@[i] as int)
                    == FocusState::Prioritized) by {
                    assert(from@[i] != tos[k as int]);
                    assert(self.graph.nodes@[from@[i] as int] == gd.nodes@[from@[i] as int]);
                }
                if from_len > 0 && from@.no_duplicates() && !tos.contains(from@[from_len - 1])
                    && g0.spec_is_focusable(from@[from_len - 1] as int) {
                    assert(from@[from_len - 1] != tos[k as int]);
                    assert(self.graph.nodes@[from@[from_len - 1] as int] == gd.nodes@[from@[from_len - 1] as int]);
                }
            }
            k = k + 1;
        }
        proof {
            // uniqueness carries over when the old focused node, if
            // any, was listed in `from`
            if at_most_one_focused(g0) && (forall|x: int|
                0 <= x < g0.nodes@.len() && g0.spec_is_focusable(x) && #[trigger] g0.spec_state(x)
                    == FocusState::Focused ==> from@.contains(x as usize)) {
                assert forall|x: int, y: int|
                    self.graph.spec_is_focusable(x) && self.graph.spec_is_focusable(y)
                        && #[trigger] self.graph.spec_state(x) == FocusState::Focused
                        && #[trigger] self.graph.spec_state(y)
                        == FocusState::Focused implies x == y by {
                    if x != to0 as int {
                        assert(g0.spec_state(x) == FocusState::Focused);
                        assert(from@.contains(x as usize));
                        assert(false);
                    }
                    if y != to0 as int {
                        assert(g0.spec_state(y) == FocusState::Focused);
                        assert(from@.contains(y as usize));
                        assert(false);
                    }
                }
            }
        }
        to0
    }

    /// The focused node, if any.
    pub fn first_focused(&self) -> (r: Option<usize>)
        requires
            self.graph.wf(),
        ensures
            r == spec_first_focused_from(self.graph, 0),
            match r {
                Some(f) => f < self.graph.nodes@.len() && self.graph.spec_is_focusable(f as int),
                None => true,
            },
    {
        let n = self.graph.count();
        let mut k: usize = 0;
        while k < n
            invariant
                self.graph.wf(),
                n == self.graph.len(),
                0 <= k <= n,
                spec_first_focused_from(self.graph, 0) == spec_first_focused_from(
                    self.graph,
                    k as int,
                ),
            decreases n - k,
        {
            match self.graph.focus_state_at(k) {
                Some(st) => {
                    if matches!(st, FocusState::Focused) {
                        return Some(k);
                    }
                },
                None => {},
            }
            assert(spec_first_focused_from(self.graph, k as int) == spec_first_focused_from(
                self.graph,
                k as int + 1,
            ));
            k = k + 1;
        }
        None
    }

    /// The first in-service root menu, if any.
    fn root_menu(&self) -> (r: Option<usize>)
        requires
            self.graph.wf(),
        ensures
            r == spec_root_menu_from(self.graph, 0),
            match r {
                Some(m) => m < self.graph.nodes@.len() && self.graph.spec_is_menu_ready(m as int),
                None => true,
            },
    {
        let n = self.graph.count();
        let mut k: usize = 0;
        while k < n
            invariant
                self.graph.wf(),
                n == self.graph.len(),
                0 <= k <= n,
                spec_root_menu_from(self.graph, 0) == spec_root_menu_from(self.graph, k as int),
            decreases n - k,
        {
            if self.graph.is_menu_ready(k) {
                let t = self.graph.tree_of(k);
                if t.focus_parent.is_none() {
                    return Some(k);
                }
            }
            assert(spec_root_menu_from(self.graph, k as int) == spec_root_menu_from(
                self.graph,
                k as int + 1,
            ));
            k = k + 1;
        }
        None
    }

    /// The first non-blocked, non-inert focusable, if any.
    fn any_prioritized(&self) -> (r: Option<usize>)
        requires
            self.graph.wf(),
        ensures
            r == spec_any_prioritized_from(self.graph, 0),
            match r {
                Some(f) => f < self.graph.nodes@.len() && self.graph.spec_is_focusable(f as int),
                None => true,
            },
    {
        let n = self.graph.count();
        let mut k: usize = 0;
        while k < n
            invariant
                self.graph.wf(),
                n == self.graph.len(),
                0 <= k <= n,
                spec_any_prioritized_from(self.graph, 0) == spec_any_prioritized_from(
                    self.graph,
                    k as int,
                ),
            decreases n - k,
        {
            match self.graph.focus_state_at(k) {
                Some(st) => {
                    if !matches!(st, FocusState::Blocked) && !matches!(st, FocusState::Inert) {
                        return Some(k);
                    }
                },
                None => {},
            }
            assert(spec_any_prioritized_from(self.graph, k as int) == spec_any_prioritized_from(
                self.graph,
                k as int + 1,
            ));
            k = k + 1;
        }
        None
    }

    /// The first non-blocked focusable, if any.
    fn fallback_pick(&self) -> (r: Option<usize>)
        requires
            self.graph.wf(),
        ensures
            r == spec_fallback_from(self.graph, 0),
            match r {
                Some(f) => f < self.graph.nodes@.len() && self.graph.spec_is_focusable(f as int),
                None => true,
            },
    {
        let n = self.graph.count();
        let mut k: usize = 0;
        while k < n
            invariant
                self.graph.wf(),
                n == self.graph.len(),
                0 <= k <= n,
                spec_fallback_from(self.graph, 0) == spec_fallback_from(self.graph, k as int),
            decreases n - k,
        {
            match self.graph.focus_state_at(k) {
                Some(st) => {
                    if !matches!(st, FocusState::Blocked) {
                        return Some(k);
                    }
                },
                None => {},
            }
            assert(spec_fallback_from(self.graph, k as int) == spec_fallback_from(
                self.graph,
                k as int + 1,
            ));
            k = k + 1;
        }
        None
    }

    /// A representative focusable of menu `entity` with cached child
    /// `child`.
    fn any_in_menu(&self, entity: usize, child: usize) -> (r: Option<usize>)
        requires
            self.graph.wf(),
            entity < self.graph.nodes@.len(),
            child < self.graph.nodes@.len(),
        ensures
            r == spec_any_in_menu(self.graph, entity, child),
            match r {
                Some(f) => f < self.graph.nodes@.len() && self.graph.spec_is_focusable(f as int),
                None => true,
            },
    {
        if self.graph.is_focusable(child) {
            return Some(child);
        }
        let s = self.graph.focusables_of(entity);
        proof {
            self.graph.lemma_focusables_of_members(entity as int);
        }
        if s.len() > 0 {
            Some(s[0])
        } else {
            None
        }
    }

    /// Descends from menu `entity` (cached child `child`) through
    /// active children to the deepest active menu.
    fn active_menu(&self, entity: usize, child: usize) -> (r: Result<
        Option<(usize, usize)>,
        NavError,
    >)
        requires
            self.graph.wf(),
            self.graph.nodes@.len() < usize::MAX,
            entity < self.graph.nodes@.len(),
            child < self.graph.nodes@.len(),
        ensures
            r == spec_active_menu_rec(
                self.graph,
                entity,
                child,
                false,
                self.graph.len() + 1,
            ),
            match r {
                Ok(Some(pair)) => pair.0 < self.graph.nodes@.len() && pair.1
                    < self.graph.nodes@.len(),
                _ => true,
            },
    {
        let n = self.graph.count();
        let mut cur_e = entity;
        let mut cur_c = child;
        let mut repeated = false;
        let mut fuel: usize = n + 1;
        loop
            invariant
                self.graph.wf(),
                n == self.graph.len(),
                cur_e < n,
                cur_c < n,
                spec_active_menu_rec(self.graph, entity, child, false, self.graph.len() + 1)
                    == spec_active_menu_rec(self.graph, cur_e, cur_c, repeated, fuel as nat),
            decreases fuel,
        {
            if fuel == 0 {
                return Err(NavError::Cycle);
            }
            let mut descended = false;
            if self.graph.is_focusable(cur_c) {
                let f = self.graph.focusable_of(cur_c);
                if matches!(f.state, FocusState::Active) {
                    match self.graph.child_menu(cur_c) {
                        Some(m2) => {
                            proof {
                                assert(self.graph.wf_node(m2 as int));
                            }
                            let t = self.graph.tree_of(m2);
                            cur_e = m2;
                            cur_c = t.active_child;
                            repeated = true;
                            fuel = fuel - 1;
                            descended = true;
                        },
                        None => {},
                    }
                }
            }
            if !descended {
                if !repeated {
                    return Ok(None);
                }
                return Ok(Some((cur_e, cur_c)));
            }
        }
    }

    /// The later entries of the first-focusable preference chain.
    fn pick_rest(&self) -> (r: Option<usize>)
        requires
            self.graph.wf(),
        ensures
            r == spec_pick_rest(self.graph),
            match r {
                Some(f) => f < self.graph.nodes@.len() && self.graph.spec_is_focusable(f as int),
                None => true,
            },
    {
        match self.any_prioritized() {
            Some(x) => Some(x),
            None => {
                match self.root_menu() {
                    Some(rm) => {
                        proof {
                            assert(self.graph.wf_node(rm as int));
                        }
                        let t = self.graph.tree_of(rm);
                        match self.any_in_menu(rm, t.active_child) {
                            Some(x) => Some(x),
                            None => self.fallback_pick(),
                        }
                    },
                    None => self.fallback_pick(),
                }
            },
        }
    }

    /// The node a resolution starts from when no request has been
    /// handled yet: the focused node if one exists, else a
    /// representative of the deepest active menu, else the first
    /// prioritized or selectable focusable; `None` when the graph has
    /// no selectable focusable at all.
    pub fn pick_first_focused(&self) -> (r: Result<Option<usize>, NavError>)
        requires
            self.graph.wf(),
            self.graph.nodes@.len() < usize::MAX,
        ensures
            r == spec_pick_first_focused(self.graph),
            match r {
                Ok(Some(f)) => f < self.graph.nodes@.len() && self.graph.spec_is_focusable(
                    f as int,
                ),
                _ => true,
            },
    {
        match self.first_focused() {
            Some(f) => {
                proof {
                    lemma_first_focused_char(self.graph, 0);
                }
                Ok(Some(f))
            },
            None => {
                match self.root_menu() {
                    None => Ok(self.pick_rest()),
                    Some(rm) => {
                        proof {
                            assert(self.graph.wf_node(rm as int));
                        }
                        let t = self.graph.tree_of(rm);
                        match self.active_menu(rm, t.active_child) {
                            Err(e) => Err(e),
                            Ok(None) => Ok(self.pick_rest()),
                            Ok(Some(pair)) => {
                                match self.any_in_menu(pair.0, pair.1) {
                                    Some(x) => Ok(Some(x)),
                                    None => Ok(self.pick_rest()),
                                }
                            },
                        }
                    },
                }
            },
        }
    }

    /// Puts every declared menu in service: computes each pending
    /// menu's bookkeeping (focus parent from its declaration, active
    /// child from its sibling set) and installs it. A pending menu
    /// with an empty sibling set is a fatal configuration error, and
    /// the graph is left untouched.
    pub fn insert_tree_menus(&mut self) -> (r: Result<(), NavError>)
        requires
            old(self).graph.wf(),
        ensures
            final(self).graph.wf(),
            final(self).lock == old(self).lock,
            final(self).graph.nodes@.len() == old(self).graph.nodes@.len(),
            match r {
                Ok(()) => forall|j: int|
                    0 <= j < old(self).graph.nodes@.len() ==> final(self).graph.nodes@[j] == (
                    match spec_menu_plan(old(self).graph, j) {
                        Some(t) => node_with_tree(old(self).graph.nodes@[j], t),
                        None => old(self).graph.nodes@[j],
                    }),
                Err(e) => e == NavError::EmptyMenu && final(self).graph == old(self).graph
                    && exists|m: int|
                    0 <= m < old(self).graph.nodes@.len() && old(self).graph.spec_is_menu(m) && !old(self).graph.spec_is_menu_ready(m) && spec_pick_active_child(old(self).graph, m) is None,
            },
            r is Ok ==> forall|m: int|
                0 <= m < old(self).graph.nodes@.len() && old(self).graph.spec_is_menu(m) && !old(self).graph.spec_is_menu_ready(m) ==> spec_pick_active_child(
                    old(self).graph,
                    m,
                ) is Some,
    {
        let ghost g0 = self.graph;
        let n = self.graph.count();
        let mut plan: Vec<Option<TreeMenu>> = Vec::new();
        let mut m: usize = 0;
        while m < n
            invariant
                self.graph == g0,
                g0.wf(),
                old(self).graph == g0,
                old(self).lock == self.lock,
                n == g0.len(),
                0 <= m <= n,
                plan@.len() == m,
                forall|j: int| 0 <= j < m ==> plan@[j] == spec_menu_plan(g0, j),
                forall|j: int|
                    0 <= j < m && g0.spec_is_menu(j) && !g0.spec_is_menu_ready(j)
                        ==> spec_pick_active_child(g0, j) is Some,
            decreases n - m,
        {
            let mut entry: Option<TreeMenu> = None;
            if self.graph.is_menu(m) && !self.graph.is_menu_ready(m) {
                let kids = self.graph.focusables_of(m);
                proof {
                    self.graph.lemma_focusables_of_members(m as int);
                }
                // the first previously-visited child, if any
                let nk = kids.len();
                let mut pick: Option<usize> = None;
                let mut k: usize = 0;
                while k < nk
                    invariant
                        self.graph == g0,
                        g0.wf(),
                        nk == kids@.len(),
                        0 <= k <= nk,
                        m < g0.len(),
                        kids@ == g0.spec_focusables_of(m as int),
                        forall|i: int|
                            0 <= i < kids@.len() ==> g0.spec_in_sibling_set(#[trigger] kids@[i]),
                        match pick {
                            None => spec_first_preferred(g0, kids@, 0) == spec_first_preferred(
                                g0,
                                kids@,
                                k as int,
                            ),
                            Some(c) => spec_first_preferred(g0, kids@, 0) == Some(c)
                                && g0.spec_in_sibling_set(c),
                        },
                    decreases nk - k,
                {
                    if pick.is_none() {
                        let c = kids[k];
                        assert(g0.spec_in_sibling_set(c));
                        let f = self.graph.focusable_of(c);
                        if matches!(f.state, FocusState::Prioritized) || matches!(
                            f.state,
                            FocusState::Active,
                        ) || matches!(f.state, FocusState::Focused) {
                            assert(spec_first_preferred(g0, kids@, k as int) == Some(c));
                            pick = Some(c);
                        } else {
                            assert(spec_first_preferred(g0, kids@, k as int)
                                == spec_first_preferred(g0, kids@, k as int + 1));
                        }
                    }
                    k = k + 1;
                }
                proof {
                    if pick is None {
                        assert(spec_first_preferred(g0, kids@, nk as int) is None);
                    }
                }
                let chosen: Option<usize> = match pick {
                    Some(c) => Some(c),
                    None => {
                        if kids.len() > 0 {
                            Some(kids[0])
                        } else {
                            None
                        }
                    },
                };
                match chosen {
                    None => {
                        assert(spec_pick_active_child(g0, m as int) is None);
                        return Err(NavError::EmptyMenu);
                    },
                    Some(ac) => {
                        assert(spec_pick_active_child(g0, m as int) == Some(ac));
                        let fp_opt: Option<Option<usize>> = match &self.graph.nodes[m].data {
                            NodeData::Menu(mn) => match &mn.builder {
                                MenuBuilder::EntityParent(e) => {
                                    if *e < n {
                                        Some(Some(*e))
                                    } else {
                                        None
                                    }
                                },
                                MenuBuilder::Root => Some(None),
                                MenuBuilder::NamedParent(_) => None,
                            },
                            _ => None,
                        };
                        entry = match fp_opt {
                            Some(fp) => Some(TreeMenu { focus_parent: fp, active_child: ac }),
                            None => None,
                        };
                    },
                }
            }
            plan.push(entry);
            proof {
                assert(plan@[m as int] == spec_menu_plan(g0, m as int));
            }
            m = m + 1;
        }

        // install the computed bookkeeping
        let mut m2: usize = 0;
        while m2 < n
            invariant
                self.graph.wf(),
                g0.wf(),
                old(self).graph == g0,
                old(self).lock == self.lock,
                self.graph.nodes@.len() == g0.nodes@.len(),
                n == g0.len(),
                0 <= m2 <= n,
                plan@.len() == n,
                forall|j: int| 0 <= j < n ==> plan@[j] == spec_menu_plan(g0, j),
                forall|j: int|
                    0 <= j < m2 ==> self.graph.nodes@[j] == (match spec_menu_plan(g0, j) {
                        Some(t) => node_with_tree(g0.nodes@[j], t),
                        None => g0.nodes@[j],
                    }),
                forall|j: int| m2 <= j < n ==> self.graph.nodes@[j] == g0.nodes@[j],
            decreases n - m2,
        {
            match plan[m2] {
                Some(t) => {
                    proof {
                        lemma_menu_plan_bounds(g0, m2 as int);
                    }
                    let ghost pre = self.graph;
                    let node = &mut self.graph.nodes[m2];
                    match &mut node.data {
                        NodeData::Menu(mn) => {
                            mn.tree = Some(t);
                        },
                        _ => {},
                    }
                    proof {
                        assert(self.graph.nodes@[m2 as int] == node_with_tree(
                            g0.nodes@[m2 as int],
                            t,
                        ));
                        assert forall|i: int|
                            0 <= i < self.graph.nodes@.len() implies #[trigger] self.graph.wf_node(
                            i,
                        ) by {
                            assert(pre.wf_node(i));
                        }
                    }
                },
                None => {},
            }
            m2 = m2 + 1;
        }
        Ok(())
    }

    /// The first focusable carrying `name`, if any.
    fn named_focusable(&self, name: &String) -> (r: Option<usize>)
        requires
            self.graph.wf(),
        ensures
            r == spec_named_focusable_from(self.graph, name@, 0),
    {
        let n = self.graph.count();
        let mut k: usize = 0;
        while k < n
            invariant
                self.graph.wf(),
                n == self.graph.len(),
                0 <= k <= n,
                spec_named_focusable_from(self.graph, name@, 0) == spec_named_focusable_from(
                    self.graph,
                    name@,
                    k as int,
                ),
            decreases n - k,
        {
            if self.graph.is_focusable(k) {
                match &self.graph.nodes[k].name {
                    Some(nm) => {
                        if nm.eq(name) {
                            return Some(k);
                        }
                    },
                    None => {},
                }
            }
            assert(spec_named_focusable_from(self.graph, name@, k as int)
                == spec_named_focusable_from(self.graph, name@, k as int + 1));
            k = k + 1;
        }
        None
    }

    /// Replaces each menu declaration that names its parent focusable
    /// with one holding the node id of the first focusable carrying
    /// that name; declarations naming no known focusable are kept.
    pub fn resolve_named_menus(&mut self)
        requires
            old(self).graph.wf(),
        ensures
            final(self).graph.wf(),
            final(self).lock == old(self).lock,
            final(self).graph.nodes@.len() == old(self).graph.nodes@.len(),
            forall|j: int|
                0 <= j < old(self).graph.nodes@.len() ==> final(self).graph.nodes@[j] == (
                match spec_name_plan(old(self).graph, j) {
                    Some(id) => node_with_builder(
                        old(self).graph.nodes@[j],
                        MenuBuilder::EntityParent(id),
                    ),
                    None => old(self).graph.nodes@[j],
                }),
    {
        let ghost g0 = self.graph;
        let n = self.graph.count();
        let mut plan: Vec<Option<usize>> = Vec::new();
        let mut m: usize = 0;
        while m < n
            invariant
                self.graph == g0,
                g0.wf(),
                old(self).graph == g0,
                old(self).lock == self.lock,
                n == g0.len(),
                0 <= m <= n,
                plan@.len() == m,
                forall|j: int| 0 <= j < m ==> plan@[j] == spec_name_plan(g0, j),
            decreases n - m,
        {
            let mut entry: Option<usize> = None;
            let name_opt: Option<String> = match &self.graph.nodes[m].data {
                NodeData::Menu(mn) => match &mn.builder {
                    MenuBuilder::NamedParent(nm) => Some(nm.clone()),
                    _ => None,
                },
                _ => None,
            };
            match name_opt {
                Some(nm) => {
                    entry = self.named_focusable(&nm);
                },
                None => {},
            }
            plan.push(entry);
            proof {
                assert(plan@[m as int] == spec_name_plan(g0, m as int));
            }
            m = m + 1;
        }
        let mut m2: usize = 0;
        while m2 < n
            invariant
                self.graph.wf(),
                g0.wf(),
                old(self).graph == g0,
                old(self).lock == self.lock,
                self.graph.nodes@.len() == g0.nodes@.len(),
                n == g0.len(),
                0 <= m2 <= n,
                plan@.len() == n,
                forall|j: int| 0 <= j < n ==> plan@[j] == spec_name_plan(g0, j),
                forall|j: int|
                    0 <= j < m2 ==> self.graph.nodes@[j] == (match spec_name_plan(g0, j) {
                        Some(id) => node_with_builder(
                            g0.nodes@[j],
                            MenuBuilder::EntityParent(id),
                        ),
                        None => g0.nodes@[j],
                    }),
                forall|j: int| m2 <= j < n ==> self.graph.nodes@[j] == g0.nodes@[j],
            decreases n - m2,
        {
            match plan[m2] {
                Some(id) => {
                    let ghost pre = self.graph;
                    let node = &mut self.graph.nodes[m2];
                    match &mut node.data {
                        NodeData::Menu(mn) => {
                            mn.builder = MenuBuilder::EntityParent(id);
                        },
                        _ => {},
                    }
                    proof {
                        assert(self.graph.nodes@[m2 as int] == node_with_builder(
                            g0.nodes@[m2 as int],
                            MenuBuilder::EntityParent(id),
                        ));
                        assert forall|i: int|
                            0 <= i < self.graph.nodes@.len() implies #[trigger] self.graph.wf_node(
                            i,
                        ) by {
                            assert(pre.wf_node(i));
                        }
                    }
                },
                None => {},
            }
            m2 = m2 + 1;
        }
    }

    /// Keeps menu bookkeeping consistent when `entity` was blocked: the
    /// menu caching it as active child falls back to the first of its
    /// sibling set.
    pub fn consistent_menu(&mut self, entity: usize)
        requires
            old(self).graph.wf(),
            entity < old(self).graph.nodes@.len(),
        ensures
            final(self).graph.wf(),
            final(self).lock == old(self).lock,
            final(self).graph.nodes@.len() == old(self).graph.nodes@.len(),
            same_skeleton(old(self).graph, final(self).graph),
            ({
                let g0 = old(self).graph;
                if g0.spec_is_focusable(entity as int) && g0.spec_state(entity as int)
                    == FocusState::Blocked {
                    match spec_menu_with_active_from(g0, entity, 0) {
                        Some(m) => {
                            let kids = g0.spec_focusables_of(m as int);
                            if kids.len() > 0 {
                                final(self).graph.nodes@[m as int] == node_with_active_child(
                                    g0.nodes@[m as int],
                                    kids[0],
                                ) && forall|j: int|
                                    0 <= j < g0.nodes@.len() && j != m ==> final(self).graph.nodes@[j] == g0.nodes@[j]
                            } else {
                                final(self).graph == g0
                            }
                        },
                        None => final(self).graph == g0,
                    }
                } else {
                    final(self).graph == g0
                }
            }),
    {
        let ghost g0 = self.graph;
        let is_blocked = match self.graph.focus_state_at(entity) {
            Some(st) => matches!(st, FocusState::Blocked),
            None => false,
        };
        if !is_blocked {
            proof {
                assert(same_skeleton(g0, self.graph));
            }
            return ;
        }
        let n = self.graph.count();
        let mut k: usize = 0;
        while k < n
            invariant
                self.graph == g0,
                g0.wf(),
                old(self).graph == g0,
                old(self).lock == self.lock,
                entity < g0.nodes@.len(),
                n == g0.len(),
                0 <= k <= n,
                g0.spec_is_focusable(entity as int) && g0.spec_state(entity as int)
                    == FocusState::Blocked,
                spec_menu_with_active_from(g0, entity, 0) == spec_menu_with_active_from(
                    g0,
                    entity,
                    k as int,
                ),
            decreases n - k,
        {
            let mut hit = false;
            if self.graph.is_menu_ready(k) {
                let t = self.graph.tree_of(k);
                if t.active_child == entity {
                    hit = true;
                }
            }
            if hit {
                assert(spec_menu_with_active_from(g0, entity, k as int) == Some(k));
                let kids = self.graph.focusables_of(k);
                proof {
                    self.graph.lemma_focusables_of_members(k as int);
                }
                if kids.len() > 0 {
                    let newc = kids[0];
                    assert(g0.spec_in_sibling_set(newc));
                    let ghost pre = self.graph;
                    let node = &mut self.graph.nodes[k];
                    match &mut node.data {
                        NodeData::Menu(mn) => {
                            match &mut mn.tree {
                                Some(t2) => {
                                    t2.active_child = newc;
                                },
                                None => {},
                            }
                        },
                        _ => {},
                    }
                    proof {
                        assert(self.graph.nodes@[k as int] == node_with_active_child(
                            g0.nodes@[k as int],
                            newc,
                        ));
                        assert forall|i: int|
                            0 <= i < self.graph.nodes@.len() implies #[trigger] self.graph.wf_node(
                            i,
                        ) by {
                            assert(pre.wf_node(i));
                        }
                        assert forall|i: int|
                            0 <= i < self.graph.nodes@.len() implies #[trigger] skeleton_eq_node(
                            g0.nodes@[i],
                            self.graph.nodes@[i],
                        ) by {}
                    }
                }
                return ;
            }
            assert(spec_menu_with_active_from(g0, entity, k as int) == spec_menu_with_active_from(
                g0,
                entity,
                k as int + 1,
            ));
            k = k + 1;
        }
    }

    /// Handles the requests of one tick.
    ///
    /// At most one request is honored per tick: the first one that
    /// passes the lock gate is resolved from the picked focused node,
    /// its focus change (if any) is applied, and every later request
    /// of the tick is reported back as an unhandled `NoChanges` event.
    /// While locked, requests other than `Unlock` are skipped silently,
    /// as the lock demands. `Err` means the menu graph is misdeclared
    /// and must be treated as fatal.
    ///
    /// At most one node is focused afterwards, and a locked state lets
    /// no request but `Unlock` touch the graph.
    #[verifier::rlimit(100)]
    pub fn tick<S: MenuNavigationStrategy>(&mut self, stgy: &S, requests: &Vec<NavRequest>) -> (r:
        Result<Vec<NavEvent>, NavError>)
        requires
            old(self).graph.wf(),
            old(self).graph.nodes@.len() < usize::MAX,
            at_most_one_focused(old(self).graph),
            forall|i: int|
                0 <= i < requests@.len() ==> (match #[trigger] requests@[i] {
                    NavRequest::FocusOn(t) => (t as int) < old(self).graph.nodes@.len(),
                    _ => true,
                }),
        ensures
            final(self).graph.wf(),
            final(self).graph.nodes@.len() == old(self).graph.nodes@.len(),
            at_most_one_focused(final(self).graph),
            same_skeleton(old(self).graph, final(self).graph),
            // the resolved focus change is applied: the event's `from`
            // breadcrumb is put to sleep, and under clean menu caches
            // its `to` breadcrumb takes over
            match spec_pick_first_focused(old(self).graph) {
                Ok(Some(f)) => match spec_first_ungated(
                    requests@,
                    old(self).lock.lock_reason is Some,
                    0,
                ) {
                    Some(i) => match spec_resolve(
                        old(self).graph,
                        *stgy,
                        f,
                        requests@[i],
                        old(self).lock.lock_reason,
                        Seq::empty(),
                    ) {
                        Ok(pair) => match pair.0 {
                            EventModel::FocusChanged { from: fr, to: tos } => (!(tos =~= fr)
                                ==> forall|i2: int|
                                0 <= i2 < fr.len() && !tos.contains(#[trigger] fr[i2]) && old(self).graph.spec_is_focusable(fr[i2] as int) ==> (final(self).graph.spec_state(
                                    fr[i2] as int,
                                ) == FocusState::Inert || final(self).graph.spec_state(
                                    fr[i2] as int,
                                ) == FocusState::Prioritized)) && (!(tos =~= fr)
                                && spec_to_menus_fresh(old(self).graph, tos) ==> (old(self).graph.spec_is_focusable(tos[0] as int) ==> final(self).graph.spec_state(
                                tos[0] as int,
                            ) == FocusState::Focused) && (forall|k: int|
                                1 <= k < tos.len() && old(self).graph.spec_is_focusable(
                                    #[trigger] tos[k] as int,
                                ) ==> final(self).graph.spec_state(tos[k] as int)
                                    == FocusState::Active)),
                            _ => true,
                        },
                        _ => true,
                    },
                    None => true,
                },
                _ => true,
            },
            // a tick carrying one focus-on request, or one plane move
            // within a menu whose breadcrumb is sound, preserves
            // breadcrumb consistency
            breadcrumbs_consistent(old(self).graph) && requests@.len() == 1 && (
            match spec_pick_first_focused(old(self).graph) {
                Ok(Some(f)) => match requests@[0] {
                    NavRequest::FocusOn(_) => true,
                    NavRequest::Move(_) => old(self).graph.spec_parent_menu(f as int) is Some
                        && spec_root_path(old(self).graph, f) is Ok,
                    NavRequest::Cancel => spec_root_path(old(self).graph, f) is Ok,
                    NavRequest::Action => spec_root_path(old(self).graph, f) is Ok && old(self).graph.spec_focusable(f as int).action is Normal && (
                    match old(self).graph.spec_child_menu(f) {
                        Some(m2) => old(self).graph.spec_parent_menu(
                            old(self).graph.spec_tree(m2 as int).active_child as int,
                        ) == Some(m2),
                        None => true,
                    }),
                    NavRequest::ScopeMove(sd) => spec_root_path(old(self).graph, f) is Ok && (
                    match old(self).graph.spec_parent_menu(f as int) {
                        Some(m) => old(self).graph.spec_menu(m as int).setting.scope && (
                        match crate::resolve::spec_resolve_scope(
                            old(self).graph.spec_focusables_of(m as int),
                            f,
                            sd,
                            old(self).graph.spec_menu(m as int).setting.wrapping,
                        ) {
                            Some(t) => old(self).graph.spec_child_menu(t) is None,
                            None => true,
                        }),
                        None => false,
                    }),
                    _ => false,
                },
                _ => true,
            }) ==> breadcrumbs_consistent_weak(final(self).graph),
            match spec_pick_first_focused(old(self).graph) {
                Err(e) => r == Err::<Vec<NavEvent>, NavError>(e) && final(self).graph == old(self).graph
                    && final(self).lock.lock_reason == old(self).lock.lock_reason,
                Ok(None) => r is Ok && r->Ok_0@.len() == 0 && final(self).graph == old(self).graph
                    && final(self).lock.lock_reason == old(self).lock.lock_reason,
                Ok(Some(f)) => match spec_first_ungated(
                    requests@,
                    old(self).lock.lock_reason is Some,
                    0,
                ) {
                    None => r is Ok && r->Ok_0@.len() == 0 && final(self).graph == old(self).graph
                        && final(self).lock.lock_reason == old(self).lock.lock_reason,
                    Some(i) => match spec_resolve(
                        old(self).graph,
                        *stgy,
                        f,
                        requests@[i],
                        old(self).lock.lock_reason,
                        Seq::empty(),
                    ) {
                        Err(e) => r == Err::<Vec<NavEvent>, NavError>(e) && final(self).graph
                            == old(self).graph && final(self).lock.lock_reason == old(self).lock.lock_reason,
                        Ok(pair) => r is Ok && {
                            let evs = r->Ok_0;
                            &&& final(self).lock.lock_reason == pair.1
                            &&& evs@.len() == requests@.len() - i
                            &&& evs@[0]@ == pair.0
                            &&& (!(pair.0 is FocusChanged) ==> final(self).graph == old(self).graph)
                            &&& forall|j: int|
                                1 <= j < evs@.len() ==> evs@[j]@ == (EventModel::NoChanges {
                                    from: seq![spec_new_focus(pair.0, f)],
                                    request: requests@[i + j],
                                })
                        },
                    },
                },
            },
    {
        let ghost g0 = self.graph;
        let picked = self.pick_first_focused();
        let f = match picked {
            Err(e) => {
                proof {
                    assert(same_skeleton(g0, self.graph));
                }
                return Err(e);
            },
            Ok(None) => {
                proof {
                    assert(same_skeleton(g0, self.graph));
                }
                return Ok(Vec::new());
            },
            Ok(Some(f)) => f,
        };
        // the first request that passes the lock gate
        let n_req = requests.len();
        let locked0 = self.lock.is_locked();
        let mut i: usize = 0;
        let mut sel: Option<usize> = None;
        while i < n_req
            invariant
                n_req == requests@.len(),
                0 <= i <= n_req,
                match sel {
                    None => spec_first_ungated(requests@, locked0, 0) == spec_first_ungated(
                        requests@,
                        locked0,
                        i as int,
                    ),
                    Some(s) => spec_first_ungated(requests@, locked0, 0) == Some(s as int) && s
                        < n_req,
                },
            decreases n_req - i,
        {
            if sel.is_none() {
                let req = requests[i];
                if locked0 && !matches!(req, NavRequest::Unlock) {
                    assert(spec_first_ungated(requests@, locked0, i as int) == spec_first_ungated(
                        requests@,
                        locked0,
                        i as int + 1,
                    ));
                } else {
                    assert(spec_first_ungated(requests@, locked0, i as int) == Some(i as int));
                    sel = Some(i);
                }
            }
            i = i + 1;
        }
        let i0 = match sel {
            None => {
                proof {
                    assert(same_skeleton(g0, self.graph));
                }
                return Ok(Vec::new());
            },
            Some(i0) => i0,
        };
        let request = requests[i0];
        let ghost lock0 = self.lock.lock_reason;
        let ev_res = crate::resolve::resolve(
            &self.graph,
            stgy,
            f,
            request,
            &mut self.lock,
            Vec::new(),
        );
        let ev = match ev_res {
            Err(e) => {
                proof {
                    assert(same_skeleton(g0, self.graph));
                }
                return Err(e);
            },
            Ok(ev) => ev,
        };
        proof {
            crate::resolve::lemma_resolve_event_shape(
                g0,
                *stgy,
                f,
                request,
                lock0,
                Seq::empty(),
            );
        }
        let ghost pair = spec_resolve(g0, *stgy, f, request, lock0, Seq::<usize>::empty())->Ok_0;
        let mut new_focus = f;
        let ev_out: NavEvent;
        match ev {
            NavEvent::FocusChanged { to, from } => {
                let from_vec = crate::nevec::ne_to_vec(crate::nevec::ne_clone(&from));
                let nf = self.update_focus(&from_vec, &to);
                new_focus = nf;
                proof {
                    // at most one focused node afterwards
                    let fr = ne_contents(from);
                    let tos = ne_contents(to);
                    lemma_first_focused_char(g0, 0);
                    if !(tos =~= from_vec@) {
                        assert forall|x: int, y: int|
                            self.graph.spec_is_focusable(x) && self.graph.spec_is_focusable(y)
                                && #[trigger] self.graph.spec_state(x) == FocusState::Focused
                                && #[trigger] self.graph.spec_state(y)
                                == FocusState::Focused implies x == y by {
                            assert(fr[0] == f);
                            assert(fr.contains(f));
                            if x != tos[0] as int {
                                assert(g0.spec_state(x) == FocusState::Focused);
                                assert(x == f as int);
                                assert(false);
                            }
                            if y != tos[0] as int {
                                assert(g0.spec_state(y) == FocusState::Focused);
                                assert(y == f as int);
                                assert(false);
                            }
                        }
                    }
                    // a focus-on request keeps every active node on the
                    // new focused node's ascent path
                    match request {
                        NavRequest::FocusOn(target) => {
                            if breadcrumbs_consistent(g0) {
                                let p_from = spec_root_path(g0, f)->Ok_0;
                                let p_to = spec_root_path(g0, target)->Ok_0;
                                let c = crate::resolve::spec_common_suffix_len(p_from, p_to);
                                crate::resolve::lemma_common_suffix_len_bounds(p_from, p_to);
                                crate::resolve::lemma_common_suffix_matches(p_from, p_to);
                                crate::resolve::lemma_root_path_from_props(g0, seq![f]);
                                crate::resolve::lemma_root_path_from_props(g0, seq![target]);
                                let trimmed = crate::resolve::spec_trim_pair(p_from, p_to);
                                assert(fr == trimmed.0 && tos == trimmed.1);
                                assert(tos[0] == p_to[0]);
                                assert(p_to[0] == target);
                                assert(!(tos =~= from_vec@));
                                lemma_first_focused_char(self.graph, 0);
                                match spec_first_focused_from(self.graph, 0) {
                                    Some(f2) => {
                                        assert(f2 as int == tos[0] as int) by {
                                            if f2 as int != tos[0] as int {
                                                assert(g0.spec_state(f2 as int)
                                                    == FocusState::Focused);
                                                assert(f2 == f);
                                                assert(fr[0] == f);
                                                assert(fr.contains(f2));
                                                assert(false);
                                            }
                                        }
                                        lemma_skeleton_root_path(g0, self.graph, seq![f2]);
                                        assert(spec_root_path(self.graph, f2) == Ok::<
                                            Seq<usize>,
                                            NavError,
                                        >(p_to));
                                        assert forall|x: int|
                                            0 <= x < self.graph.nodes@.len()
                                                && self.graph.spec_is_focusable(x)
                                                && #[trigger] self.graph.spec_state(x)
                                                == FocusState::Active implies p_to.contains(
                                            x as usize,
                                        ) by {
                                            if tos.contains(x as usize) {
                                                let i = choose|i: int|
                                                    0 <= i < tos.len() && tos[i] == x as usize;
                                                assert(tos[i] == p_to[i]);
                                                assert(p_to.contains(x as usize));
                                            } else {
                                                assert(g0.spec_is_focusable(x) && g0.spec_state(x)
                                                    == FocusState::Active && !fr.contains(
                                                    x as usize,
                                                ));
                                                match spec_first_focused_from(g0, 0) {
                                                    Some(f0) => {
                                                        assert(f == f0);
                                                        assert(p_from.contains(x as usize));
                                                        let idx = choose|i: int|
                                                            0 <= i < p_from.len() && p_from[i]
                                                                == x as usize;
                                                        if c < p_from.len() && c < p_to.len() {
                                                            assert(fr == p_from.take(
                                                                p_from.len() - c,
                                                            ));
                                                            if idx < p_from.len() - c {
                                                                assert(fr[idx] == p_from[idx]);
                                                                assert(fr.contains(x as usize));
                                                                assert(false);
                                                            }
                                                            let j = p_from.len() - 1 - idx;
                                                            assert(0 <= j < c);
                                                            assert(p_from[p_from.len() - 1 - j]
                                                                == p_to[p_to.len() - 1 - j]);
                                                            assert(p_to[p_to.len() - 1 - j]
                                                                == x as usize);
                                                            assert(p_to.contains(x as usize));
                                                        } else {
                                                            assert(fr == p_from);
                                                            assert(false);
                                                        }
                                                    },
                                                    None => {
                                                        assert(false);
                                                    },
                                                }
                                            }
                                        }
                                    },
                                    None => {},
                                }
                            }
                        },
                        NavRequest::Move(direction) => {
                            if breadcrumbs_consistent(g0) && g0.spec_parent_menu(f as int) is Some
                                && spec_root_path(g0, f) is Ok {
                                let m = g0.spec_parent_menu(f as int)->0;
                                let siblings = g0.spec_focusables_of(m as int);
                                let cycles = g0.spec_menu(m as int).setting.wrapping;
                                stgy.lemma_resolve_2d_members(f, direction, cycles, siblings);
                                match stgy.spec_resolve_2d(f, direction, cycles, siblings) {
                                    Some(new_target) => {
                                        assert(tos == seq![new_target]);
                                        assert(fr == Seq::<usize>::empty().push(f));
                                        assert(new_target != f);
                                        assert(!(tos =~= from_vec@)) by {
                                            assert(tos[0] != fr[0]);
                                        }
                                        lemma_first_focused_char(g0, 0);
                                        assert forall|x: int|
                                            0 <= x < g0.nodes@.len() && g0.spec_is_focusable(x)
                                                && #[trigger] g0.spec_state(x)
                                                == FocusState::Focused implies x == f as int by {
                                            match spec_first_focused_from(g0, 0) {
                                                Some(ff) => {
                                                    assert(f == ff);
                                                },
                                                None => {},
                                            }
                                        }
                                        lemma_sibling_jump_breadcrumbs(
                                            g0,
                                            self.graph,
                                            f,
                                            new_target,
                                            fr,
                                            tos,
                                        );
                                    },
                                    None => {},
                                }
                            }
                        },
                        NavRequest::Cancel => {
                            if breadcrumbs_consistent(g0) && spec_root_path(g0, f) is Ok {
                                match spec_next_focus_parent(g0, f) {
                                    None => {},
                                    Some(fp) => {
                                        assert(fr == Seq::<usize>::empty().push(f).push(fp));
                                        assert(tos == seq![fp]);
                                        let p_from = spec_root_path(g0, f)->Ok_0;
                                        crate::resolve::lemma_root_path_from_props(g0, seq![f]);
                                        lemma_first_focused_char(self.graph, 0);
                                        match spec_first_focused_from(self.graph, 0) {
                                            Some(f2) => {
                                                assert(f2 as int == tos[0] as int) by {
                                                    if f2 as int != tos[0] as int {
                                                        assert(g0.spec_state(f2 as int)
                                                            == FocusState::Focused);
                                                        assert(f2 == f);
                                                        assert(fr[0] == f);
                                                        assert(fr.contains(f2));
                                                        assert(false);
                                                    }
                                                }
                                                assert(f2 == fp);
                                                lemma_skeleton_root_path(
                                                    g0,
                                                    self.graph,
                                                    seq![f2],
                                                );
                                                match spec_root_path(g0, fp) {
                                                    Err(_) => {},
                                                    Ok(p_new) => {
                                                        crate::resolve::lemma_root_path_from_props(
                                                            g0,
                                                            seq![fp],
                                                        );
                                                        assert(p_new[0] == fp);
                                                        if seq![f].contains(fp) || seq![f].len()
                                                            >= g0.len() {
                                                            assert(spec_root_path(g0, f) == Err::<
                                                                Seq<usize>,
                                                                NavError,
                                                            >(NavError::Cycle));
                                                            assert(false);
                                                        }
                                                        assert(spec_root_path_from(g0, seq![f])
                                                            == spec_root_path_from(
                                                            g0,
                                                            seq![f].push(fp),
                                                        ));
                                                        crate::resolve::lemma_root_path_reseed(
                                                            g0,
                                                            seq![f].push(fp),
                                                            seq![fp],
                                                        );
                                                        crate::resolve::lemma_root_path_from_props(
                                                            g0,
                                                            seq![f].push(fp),
                                                        );
                                                        assert forall|x: int|
                                                            0 <= x < self.graph.nodes@.len()
                                                                && self.graph.spec_is_focusable(x)
                                                                && #[trigger] self.graph.spec_state(
                                                                x,
                                                            ) == FocusState::Active implies p_new.contains(
                                                            x as usize,
                                                        ) by {
                                                            if tos.contains(x as usize) {
                                                                assert(x as usize == fp);
                                                                assert(p_new[0] == x as usize);
                                                            } else {
                                                                assert(g0.spec_is_focusable(x)
                                                                    && g0.spec_state(x)
                                                                    == FocusState::Active
                                                                    && !fr.contains(x as usize));
                                                                match spec_first_focused_from(
                                                                    g0,
                                                                    0,
                                                                ) {
                                                                    Some(f0) => {
                                                                        assert(f == f0);
                                                                        assert(p_from.contains(
                                                                            x as usize,
                                                                        ));
                                                                        let idx = choose|i: int|
                                                                            0 <= i < p_from.len()
                                                                                && p_from[i]
                                                                                == x as usize;
                                                                        assert(p_from[0] == f);
                                                                        assert(p_from[1] == fp);
                                                                        assert(fr[0] == f && fr[1]
                                                                            == fp);
                                                                        assert(idx != 0 && idx
                                                                            != 1);
                                                                        assert(p_from.skip(2)
                                                                            == p_new.skip(1));
                                                                        assert(p_from.len() >= 2
                                                                            && p_new.len() >= 1);
                                                                        assert(p_from.skip(
                                                                            2,
                                                                        ).len() == p_from.len()
                                                                            - 2);
                                                                        assert(p_new.skip(
                                                                            1,
                                                                        ).len() == p_new.len()
                                                                            - 1);
                                                                        assert(idx - 1
                                                                            < p_new.len());
                                                                        assert(p_from.skip(
                                                                            2,
                                                                        )[idx - 2]
                                                                            == p_from[idx]);
                                                                        assert(p_new.skip(
                                                                            1,
                                                                        )[idx - 2] == p_new[idx
                                                                            - 1]);
                                                                        assert(p_new[idx - 1]
                                                                            == x as usize);
                                                                        assert(p_new.contains(
                                                                            x as usize,
                                                                        ));
                                                                    },
                                                                    None => {
                                                                        assert(false);
                                                                    },
                                                                }
                                                            }
                                                        }
                                                    },
                                                }
                                            },
                                            None => {},
                                        }
                                    },
                                }
                            }
                        },
                        NavRequest::Action => {
                            if breadcrumbs_consistent(g0) && spec_root_path(g0, f) is Ok
                                && g0.spec_focusable(f as int).action is Normal {
                                match g0.spec_child_menu(f) {
                                    None => {},
                                    Some(m2) => {
                                        let ac = g0.spec_tree(m2 as int).active_child;
                                        if g0.spec_parent_menu(ac as int) == Some(m2) {
                                            g0.lemma_child_menu_ready(f, 0);
                                            assert(tos == seq![ac] + Seq::<usize>::empty().push(
                                                f,
                                            ));
                                            assert(tos.len() == 2 && tos[0] == ac && tos[1] == f);
                                            assert(fr == Seq::<usize>::empty().push(f));
                                            assert(spec_next_focus_parent(g0, ac) == Some(f));
                                            let p_from = spec_root_path(g0, f)->Ok_0;
                                            crate::resolve::lemma_root_path_from_props(
                                                g0,
                                                seq![f],
                                            );
                                            lemma_first_focused_char(self.graph, 0);
                                            match spec_first_focused_from(self.graph, 0) {
                                                Some(f2) => {
                                                    assert(f2 as int == tos[0] as int) by {
                                                        if f2 as int != tos[0] as int {
                                                            assert(g0.spec_state(f2 as int)
                                                                == FocusState::Focused);
                                                            assert(f2 == f);
                                                            assert(fr[0] == f);
                                                            assert(fr.contains(f2));
                                                            assert(false);
                                                        }
                                                    }
                                                    assert(f2 == ac);
                                                    lemma_skeleton_root_path(
                                                        g0,
                                                        self.graph,
                                                        seq![f2],
                                                    );
                                                    match spec_root_path(g0, ac) {
                                                        Err(_) => {},
                                                        Ok(p_new) => {
                                                            crate::resolve::lemma_root_path_from_props(
                                                                g0,
                                                                seq![ac],
                                                            );
                                                            assert(p_new[0] == ac);
                                                            if seq![ac].contains(f) || seq![
                                                                ac,
                                                            ].len() >= g0.len() {
                                                                assert(spec_root_path(g0, ac)
                                                                    == Err::<Seq<usize>, NavError>(
                                                                    NavError::Cycle,
                                                                ));
                                                                assert(false);
                                                            }
                                                            assert(spec_root_path_from(
                                                                g0,
                                                                seq![ac],
                                                            ) == spec_root_path_from(
                                                                g0,
                                                                seq![ac].push(f),
                                                            ));
                                                            crate::resolve::lemma_root_path_reseed(
                                                                g0,
                                                                seq![f],
                                                                seq![ac].push(f),
                                                            );
                                                            crate::resolve::lemma_root_path_from_props(
                                                                g0,
                                                                seq![ac].push(f),
                                                            );
                                                            assert(p_new[1] == f);
                                                            assert forall|x: int|
                                                                0 <= x < self.graph.nodes@.len()
                                                                    && self.graph.spec_is_focusable(
                                                                    x,
                                                                )
                                                                    && #[trigger] self.graph.spec_state(
                                                                    x,
                                                                ) == FocusState::Active implies p_new.contains(
                                                                x as usize,
                                                            ) by {
                                                                if tos.contains(x as usize) {
                                                                    if x as usize == ac {
                                                                        assert(p_new[0]
                                                                            == x as usize);
                                                                    } else {
                                                                        assert(x as usize == f);
                                                                        assert(p_new[1]
                                                                            == x as usize);
                                                                    }
                                                                } else {
                                                                    assert(g0.spec_is_focusable(x)
                                                                        && g0.spec_state(x)
                                                                        == FocusState::Active
                                                                        && !fr.contains(
                                                                        x as usize,
                                                                    ));
                                                                    match spec_first_focused_from(
                                                                        g0,
                                                                        0,
                                                                    ) {
                                                                        Some(f0) => {
                                                                            assert(f == f0);
                                                                            assert(p_from.contains(
                                                                                x as usize,
                                                                            ));
                                                                            let idx = choose|
                                                                                i: int,
                                                                            |
                                                                                0 <= i
                                                                                    < p_from.len()
                                                                                    && p_from[i]
                                                                                    == x as usize;
                                                                            assert(p_from[0] == f);
                                                                            assert(fr[0] == f);
                                                                            assert(idx != 0);
                                                                            assert(p_from.skip(1)
                                                                                == p_new.skip(2));
                                                                            assert(p_from.skip(
                                                                                1,
                                                                            ).len()
                                                                                == p_from.len()
                                                                                - 1);
                                                                            assert(p_new.skip(
                                                                                2,
                                                                            ).len() == p_new.len()
                                                                                - 2);
                                                                            assert(idx + 1
                                                                                < p_new.len());
                                                                            assert(p_from.skip(
                                                                                1,
                                                                            )[idx - 1]
                                                                                == p_from[idx]);
                                                                            assert(p_new.skip(
                                                                                2,
                                                                            )[idx - 1] == p_new[idx
                                                                                + 1]);
                                                                            assert(p_new[idx + 1]
                                                                                == x as usize);
                                                                            assert(p_new.contains(
                                                                                x as usize,
                                                                            ));
                                                                        },
                                                                        None => {
                                                                            assert(false);
                                                                        },
                                                                    }
                                                                }
                                                            }
                                                        },
                                                    }
                                                },
                                                None => {},
                                            }
                                        }
                                    },
                                }
                            }
                        },
                        NavRequest::ScopeMove(sd) => {
                            if breadcrumbs_consistent(g0) && spec_root_path(g0, f) is Ok
                                && g0.spec_parent_menu(f as int) is Some {
                                let m = g0.spec_parent_menu(f as int)->0;
                                if g0.spec_menu(m as int).setting.scope {
                                    let siblings = g0.spec_focusables_of(m as int);
                                    let cycles = g0.spec_menu(m as int).setting.wrapping;
                                    match crate::resolve::spec_resolve_scope(
                                        siblings,
                                        f,
                                        sd,
                                        cycles,
                                    ) {
                                        None => {},
                                        Some(new_target) => {
                                            if g0.spec_child_menu(new_target) is None {
                                                assert(tos == seq![new_target]);
                                                assert(fr == Seq::<usize>::empty().push(f));
                                                assert(siblings.contains(new_target)) by {
                                                    match crate::resolve::spec_position(
                                                        siblings,
                                                        f,
                                                        0,
                                                    ) {
                                                        Some(i) => {
                                                            match crate::resolve::spec_resolve_index(
                                                                i as usize,
                                                                cycles,
                                                                sd,
                                                                (siblings.len() - 1) as usize,
                                                            ) {
                                                                Some(j) => {
                                                                    assert(siblings[j as int]
                                                                        == new_target);
                                                                },
                                                                None => {},
                                                            }
                                                        },
                                                        None => {},
                                                    }
                                                }
                                                lemma_first_focused_char(g0, 0);
                                                assert forall|x: int|
                                                    0 <= x < g0.nodes@.len()
                                                        && g0.spec_is_focusable(x)
                                                        && #[trigger] g0.spec_state(x)
                                                        == FocusState::Focused implies x
                                                    == f as int by {
                                                    match spec_first_focused_from(g0, 0) {
                                                        Some(ff) => {
                                                            assert(f == ff);
                                                        },
                                                        None => {},
                                                    }
                                                }
                                                if new_target == f {
                                                    // a one-item cycling scope lands back on
                                                    // the focused node: the change is a no-op
                                                    assert(tos =~= from_vec@);
                                                    assert(self.graph == g0);
                                                } else {
                                                    assert(!(tos =~= from_vec@)) by {
                                                        assert(tos[0] != fr[0]);
                                                    }
                                                    lemma_sibling_jump_breadcrumbs(
                                                        g0,
                                                        self.graph,
                                                        f,
                                                        new_target,
                                                        fr,
                                                        tos,
                                                    );
                                                }
                                            }
                                        },
                                    }
                                }
                            }
                        },
                        _ => {},
                    }
                }
                ev_out = NavEvent::FocusChanged { to, from };
            },
            other => {
                proof {
                    assert(same_skeleton(g0, self.graph));
                }
                ev_out = other;
            },
        }
        let mut events: Vec<NavEvent> = Vec::new();
        events.push(ev_out);
        let mut j = i0 + 1;
        while j < n_req
            invariant
                n_req == requests@.len(),
                i0 < n_req,
                i0 + 1 <= j <= n_req,
                events@.len() == j - i0,
                events@[0]@ == pair.0,
                new_focus == spec_new_focus(pair.0, f),
                forall|t: int|
                    1 <= t < events@.len() ==> events@[t]@ == (EventModel::NoChanges {
                        from: seq![spec_new_focus(pair.0, f)],
                        request: requests@[i0 + t],
                    }),
            decreases n_req - j,
        {
            events.push(NavEvent::NoChanges { from: crate::nevec::ne_new(new_focus), request: requests[j] });
            j = j + 1;
        }
        Ok(events)
    }

    /// Chooses and installs the very first focused node, when no node
    /// is focused yet: the picked node is focused, its breadcrumb
    /// activated, and an initial-focus event reported. Does nothing
    /// when a node is already focused or no focusable exists.
    pub fn set_first_focused(&mut self) -> (r: Result<Option<NavEvent>, NavError>)
        requires
            old(self).graph.wf(),
            old(self).graph.nodes@.len() < usize::MAX,
            at_most_one_focused(old(self).graph),
        ensures
            final(self).graph.wf(),
            final(self).graph.nodes@.len() == old(self).graph.nodes@.len(),
            final(self).lock.lock_reason == old(self).lock.lock_reason,
            same_skeleton(old(self).graph, final(self).graph),
            at_most_one_focused(final(self).graph),
            // breadcrumb consistency at initialization: starting from a
            // graph without active or focused nodes, every node active
            // afterwards lies on the focus-parent ascent path of the
            // focused node
            (forall|x: int|
                0 <= x < old(self).graph.nodes@.len() ==> !(old(self).graph.spec_is_focusable(x)
                    && (#[trigger] old(self).graph.spec_state(x) == FocusState::Active || old(self).graph.spec_state(x) == FocusState::Focused))) ==> match spec_first_focused_from(
                final(self).graph,
                0,
            ) {
                Some(f2) => match spec_root_path(final(self).graph, f2 as usize) {
                    Ok(p) => forall|x: int|
                        0 <= x < final(self).graph.nodes@.len() && final(self).graph.spec_is_focusable(x)
                            && #[trigger] final(self).graph.spec_state(x) == FocusState::Active
                            ==> p.contains(x as usize),
                    Err(_) => true,
                },
                None => true,
            },
            match spec_first_focused_from(old(self).graph, 0) {
                Some(_) => final(self).graph == old(self).graph && r == Ok::<
                    Option<NavEvent>,
                    NavError,
                >(None),
                None => match spec_pick_first_focused(old(self).graph) {
                    Err(e) => r == Err::<Option<NavEvent>, NavError>(e) && final(self).graph
                        == old(self).graph,
                    Ok(None) => r == Ok::<Option<NavEvent>, NavError>(None) && final(self).graph
                        == old(self).graph,
                    Ok(Some(f)) => match spec_root_path(old(self).graph, f) {
                        Err(e) => r == Err::<Option<NavEvent>, NavError>(e) && final(self).graph
                            == old(self).graph,
                        Ok(p) => (match r {
                            Ok(Some(ev)) => ev@ == EventModel::InitiallyFocused(f),
                            _ => false,
                        }) && (forall|x: int|
                            final(self).graph.spec_is_focusable(x) && #[trigger] final(self).graph.spec_state(x)
                                == FocusState::Focused ==> x == f as int) && (spec_to_menus_fresh(
                            old(self).graph,
                            p,
                        ) ==> (old(self).graph.spec_is_focusable(f as int) ==> final(self).graph.spec_state(
                            f as int,
                        ) == FocusState::Focused) && (forall|k: int|
                            1 <= k < p.len() && old(self).graph.spec_is_focusable(
                                #[trigger] p[k] as int,
                            ) ==> final(self).graph.spec_state(p[k] as int)
                                == FocusState::Active)),
                    },
                },
            },
    {
        let ghost g0 = self.graph;
        match self.first_focused() {
            Some(_) => {
                proof {
                    assert(same_skeleton(g0, self.graph));
                }
                Ok(None)
            },
            None => {
                proof {
                    lemma_first_focused_char(g0, 0);
                }
                match self.pick_first_focused() {
                    Err(e) => {
                        proof {
                            assert(same_skeleton(g0, self.graph));
                        }
                        Err(e)
                    },
                    Ok(None) => {
                        proof {
                            assert(same_skeleton(g0, self.graph));
                        }
                        Ok(None)
                    },
                    Ok(Some(f)) => {
                        match crate::resolve::root_path(&self.graph, f) {
                            Err(e) => {
                                proof {
                                    assert(same_skeleton(g0, self.graph));
                                }
                                Err(e)
                            },
                            Ok(path) => {
                                proof {
                                    crate::resolve::lemma_root_path_from_props(g0, seq![f]);
                                    assert(ne_contents(path)[0] == f);
                                    assert forall|i: int|
                                        0 <= i < ne_contents(path).len() implies (
                                    #[trigger] ne_contents(path)[i]) < g0.nodes@.len() by {
                                        if i == 0 {
                                            assert(ne_contents(path)[0] == f);
                                        }
                                    }
                                }
                                let empty_from: Vec<usize> = Vec::new();
                                let nf = self.update_focus(&empty_from, &path);
                                proof {
                                    let tos = ne_contents(path);
                                    assert(!(tos =~= empty_from@));
                                    assert forall|x: int|
                                        self.graph.spec_is_focusable(x)
                                            && #[trigger] self.graph.spec_state(x)
                                            == FocusState::Focused implies x == f as int by {
                                        if x != tos[0] as int {
                                            assert(g0.spec_state(x) == FocusState::Focused);
                                            assert(false);
                                        }
                                    }
                                    if forall|x: int|
                                        0 <= x < g0.nodes@.len() ==> !(g0.spec_is_focusable(x) && (
                                        #[trigger] g0.spec_state(x) == FocusState::Active
                                            || g0.spec_state(x) == FocusState::Focused)) {
                                        lemma_first_focused_char(self.graph, 0);
                                        match spec_first_focused_from(self.graph, 0) {
                                            Some(f2) => {
                                                assert(f2 as int == f as int);
                                                lemma_skeleton_root_path(
                                                    g0,
                                                    self.graph,
                                                    seq![f],
                                                );
                                                assert(spec_root_path(self.graph, f) == Ok::<
                                                    Seq<usize>,
                                                    NavError,
                                                >(tos));
                                                assert forall|x: int|
                                                    0 <= x < self.graph.nodes@.len()
                                                        && self.graph.spec_is_focusable(x)
                                                        && #[trigger] self.graph.spec_state(x)
                                                        == FocusState::Active implies tos.contains(
                                                    x as usize,
                                                ) by {
                                                    if !tos.contains(x as usize) {
                                                        assert(g0.spec_state(x)
                                                            == FocusState::Active);
                                                        assert(false);
                                                    }
                                                }
                                            },
                                            None => {},
                                        }
                                    }
                                }
                                Ok(Some(NavEvent::InitiallyFocused(f)))
                            },
                        }
                    },
                }
            },
        }
    }
}

} // verus!
