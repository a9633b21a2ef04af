//! The navigation graph: an arena of nodes indexed by integer id.
//!
//! Each node knows its parent and its children; a node carries either
//! nothing, a [`Focusable`], or a menu. Ids are handed out in creation
//! order and a node's parent is always created before it, so every
//! child id is greater than its parent's id — the well-formedness
//! predicate [`NavGraph::wf`] records this, and every traversal's
//! termination rests on it.
use vstd::prelude::*;

use crate::menu::MenuBuilder;
use crate::menu::MenuSetting;
use crate::menu::TreeMenu;
use crate::resolve::Focusable;
use crate::resolve::FocusState;

verus! {

/// What a node carries.
#[derive(Debug)]
pub enum NodeData {
    /// A structural node: traversals pass through it.
    Plain,
    /// A navigable leaf.
    Focus(Focusable),
    /// A menu container.
    Menu(MenuNode),
}

/// The menu payload of a menu node.
#[derive(Debug)]
pub struct MenuNode {
    /// How navigation works within this menu.
    pub setting: MenuSetting,
    /// From where the menu was declared reachable.
    pub builder: MenuBuilder,
    /// The menu's bookkeeping once it is in service; `None` until
    /// [`crate::state::NavState::insert_tree_menus`] runs.
    pub tree: Option<TreeMenu>,
}

/// One node of the navigation graph.
#[derive(Debug)]
pub struct Node {
    /// The structural parent, created before this node.
    pub parent: Option<usize>,
    /// The structural children, in creation order (hence increasing).
    pub children: Vec<usize>,
    /// An optional name, used to resolve named menu declarations.
    pub name: Option<String>,
    /// What the node carries.
    pub data: NodeData,
}

/// The navigation graph.
#[derive(Debug)]
pub struct NavGraph {
    pub nodes: Vec<Node>,
}

impl NavGraph {
    /// Number of nodes.
    pub open spec fn len(self) -> nat {
        self.nodes@.len()
    }

    /// Whether `i` is a node id of this graph.
    pub open spec fn valid(self, i: int) -> bool {
        0 <= i < self.nodes@.len()
    }

    /// The node with id `i`.
    pub open spec fn node(self, i: int) -> Node {
        self.nodes@[i]
    }

    /// Whether node `i` is a focusable.
    pub open spec fn spec_is_focusable(self, i: int) -> bool {
        self.valid(i) && self.node(i).data is Focus
    }

    /// The focusable carried by node `i`.
    pub open spec fn spec_focusable(self, i: int) -> Focusable {
        self.node(i).data->Focus_0
    }

    /// The focus state of node `i`.
    pub open spec fn spec_state(self, i: int) -> FocusState {
        self.spec_focusable(i).state
    }

    /// Whether node `i` is a menu (in service or not).
    pub open spec fn spec_is_menu(self, i: int) -> bool {
        self.valid(i) && self.node(i).data is Menu
    }

    /// Whether node `i` is a menu in service (its bookkeeping computed).
    pub open spec fn spec_is_menu_ready(self, i: int) -> bool {
        self.spec_is_menu(i) && self.node(i).data->Menu_0.tree is Some
    }

    /// The menu payload of node `i`.
    pub open spec fn spec_menu(self, i: int) -> MenuNode {
        self.node(i).data->Menu_0
    }

    /// The bookkeeping of the in-service menu `i`.
    pub open spec fn spec_tree(self, i: int) -> TreeMenu {
        self.spec_menu(i).tree->0
    }

    /// Well-formedness of one node: the parent link points backward, the
    /// children list is exactly the increasing list of nodes pointing
    /// back at it, and menu bookkeeping points inside the graph.
    pub open spec fn wf_node(self, i: int) -> bool {
        let n = self.nodes@.len() as int;
        let node = self.nodes@[i];
        &&& (match node.parent {
            Some(p) => p < i && self.nodes@[p as int].children@.contains(i as usize),
            None => true,
        })
        &&& forall|k: int|
            0 <= k < node.children@.len() ==> ((#[trigger] node.children@[k]) as int > i && ((
            node.children@[k]) as int) < n && self.nodes@[node.children@[k] as int].parent == Some(
                i as usize,
            ))
        &&& forall|k1: int, k2: int|
            0 <= k1 < k2 < node.children@.len() ==> (#[trigger] node.children@[k1])
                < (#[trigger] node.children@[k2])
        &&& (match node.data {
            NodeData::Menu(m) => match m.tree {
                Some(t) => t.active_child < n && (match t.focus_parent {
                    Some(fp) => fp < n,
                    None => true,
                }),
                None => true,
            },
            _ => true,
        })
    }

    /// Well-formedness of the whole graph.
    pub open spec fn wf(self) -> bool {
        forall|i: int| 0 <= i < self.nodes@.len() ==> #[trigger] self.wf_node(i)
    }

    /// An empty graph.
    pub fn new() -> (r: NavGraph)
        ensures
            r.nodes@.len() == 0,
            r.wf(),
    {
        NavGraph { nodes: Vec::new() }
    }

    /// Number of nodes.
    pub fn count(&self) -> (r: usize)
        ensures
            r == self.len(),
    {
        self.nodes.len()
    }

    /// Adds one node under `parent` and returns its id.
    pub fn add_node(&mut self, parent: Option<usize>, name: Option<String>, data: NodeData) -> (id:
        usize)
        requires
            old(self).wf(),
            match parent {
                Some(p) => p < old(self).nodes@.len(),
                None => true,
            },
            match data {
                NodeData::Menu(m) => match m.tree {
                    Some(t) => t.active_child < old(self).nodes@.len() && (match t.focus_parent {
                        Some(fp) => fp < old(self).nodes@.len(),
                        None => true,
                    }),
                    None => true,
                },
                _ => true,
            },
        ensures
            final(self).wf(),
            id == old(self).nodes@.len(),
            final(self).nodes@.len() == old(self).nodes@.len() + 1,
            final(self).nodes@[id as int].parent == parent,
            final(self).nodes@[id as int].name == name,
            final(self).nodes@[id as int].data == data,
            final(self).nodes@[id as int].children@.len() == 0,
            forall|j: int|
                0 <= j < id && Some(j as usize) != parent ==> final(self).nodes@[j] == old(self).nodes@[j],
            match parent {
                Some(p) => final(self).nodes@[p as int].parent == old(self).nodes@[p as int].parent
                    && final(self).nodes@[p as int].name == old(self).nodes@[p as int].name && final(self).nodes@[p as int].data == old(self).nodes@[p as int].data && final(self).nodes@[p as int].children@ == old(self).nodes@[p as int].children@.push(id),
                None => true,
            },
    {
        let id = self.nodes.len();
        let node = Node { parent, children: Vec::new(), name, data };
        self.nodes.push(node);
        if let Some(p) = parent {
            let parent_node = &mut self.nodes[p];
            parent_node.children.push(id);
        }
        proof {
            let post = *self;
            let pre = *old(self);
            assert forall|i: int| 0 <= i < post.nodes@.len() implies #[trigger] post.wf_node(
                i,
            ) by {
                if i < id {
                    assert(pre.wf_node(i));
                    if parent == Some(i as usize) {
                        let kids = post.nodes@[i].children@;
                        let old_kids = pre.nodes@[i].children@;
                        assert(kids == old_kids.push(id));
                        assert forall|k: int| 0 <= k < kids.len() implies (
                        #[trigger] kids[k]) as int > i && ((kids[k]) as int)
                            < post.nodes@.len() && post.nodes@[kids[k] as int].parent == Some(
                            i as usize,
                        ) by {
                            if k < old_kids.len() {
                                assert(old_kids[k] == kids[k]);
                                assert(pre.wf_node(i));
                            } else {
                                assert(kids[k] == id);
                            }
                        }
                        assert forall|k1: int, k2: int|
                            0 <= k1 < k2 < kids.len() implies (#[trigger] kids[k1]) < (
                        #[trigger] kids[k2]) by {
                            if k2 < old_kids.len() {
                                assert(pre.wf_node(i));
                            } else {
                                assert(kids[k2] == id);
                                assert(old_kids[k1] == kids[k1]);
                                assert(pre.wf_node(i));
                                assert(((kids[k1]) as int) < post.nodes@.len() - 1);
                            }
                        }
                    } else {
                        assert(post.nodes@[i] == pre.nodes@[i]);
                        match post.nodes@[i].parent {
                            Some(p2) => {
                                assert(pre.nodes@[p2 as int].children@.contains(i as usize));
                                if Some(p2) == parent {
                                    assert(post.nodes@[p2 as int].children@ == pre.nodes@[p2 as int].children@.push(id));
                                    let ck = choose|k: int|
                                        0 <= k < pre.nodes@[p2 as int].children@.len()
                                            && pre.nodes@[p2 as int].children@[k] == i as usize;
                                    assert(post.nodes@[p2 as int].children@[ck] == i as usize);
                                } else {
                                    assert(post.nodes@[p2 as int].children@ == pre.nodes@[p2 as int].children@);
                                }
                            },
                            None => {},
                        }
                    }
                } else {
                    assert(i == id);
                    match parent {
                        Some(p) => {
                            let kids = post.nodes@[p as int].children@;
                            assert(kids[kids.len() - 1] == id);
                        },
                        None => {},
                    }
                }
            }
        }
        id
    }

    /// Adds a structural (pass-through) node.
    pub fn add_plain(&mut self, parent: Option<usize>) -> (id: usize)
        requires
            old(self).wf(),
            match parent {
                Some(p) => p < old(self).nodes@.len(),
                None => true,
            },
        ensures
            final(self).wf(),
            id == old(self).nodes@.len(),
            final(self).nodes@.len() == old(self).nodes@.len() + 1,
            final(self).nodes@[id as int].data is Plain,
            final(self).nodes@[id as int].parent == parent,
    {
        self.add_node(parent, None, NodeData::Plain)
    }

    /// Adds a focusable node, optionally named.
    pub fn add_focusable(&mut self, parent: Option<usize>, focusable: Focusable, name: Option<
        String,
    >) -> (id: usize)
        requires
            old(self).wf(),
            match parent {
                Some(p) => p < old(self).nodes@.len(),
                None => true,
            },
        ensures
            final(self).wf(),
            id == old(self).nodes@.len(),
            final(self).nodes@.len() == old(self).nodes@.len() + 1,
            final(self).spec_is_focusable(id as int),
            final(self).spec_focusable(id as int) == focusable,
            final(self).nodes@[id as int].parent == parent,
            final(self).nodes@[id as int].name == name,
    {
        self.add_node(parent, name, NodeData::Focus(focusable))
    }

    /// Adds a menu node with its settings and declaration.
    pub fn add_menu(&mut self, parent: Option<usize>, setting: MenuSetting, builder: MenuBuilder)
        -> (id: usize)
        requires
            old(self).wf(),
            match parent {
                Some(p) => p < old(self).nodes@.len(),
                None => true,
            },
        ensures
            final(self).wf(),
            id == old(self).nodes@.len(),
            final(self).nodes@.len() == old(self).nodes@.len() + 1,
            final(self).spec_is_menu(id as int),
            !final(self).spec_is_menu_ready(id as int),
            final(self).spec_menu(id as int).setting == setting,
            final(self).spec_menu(id as int).builder == builder,
            final(self).nodes@[id as int].parent == parent,
    {
        self.add_node(parent, None, NodeData::Menu(MenuNode { setting, builder, tree: None }))
    }

    /// The menu containing node `i`: the nearest in-service menu among
    /// its strict ancestors.
    pub open spec fn spec_parent_menu(self, i: int) -> Option<usize>
        decreases i,
    {
        if self.valid(i) && self.wf_node(i) {
            match self.node(i).parent {
                Some(p) => if self.spec_is_menu_ready(p as int) {
                    Some(p)
                } else {
                    self.spec_parent_menu(p as int)
                },
                None => None,
            }
        } else {
            None
        }
    }

    /// The first in-service menu (by id) whose `focus_parent` is
    /// `focusable`, looking from id `k` upward.
    pub open spec fn spec_child_menu_from(self, focusable: usize, k: int) -> Option<usize>
        decreases self.nodes@.len() - k,
    {
        if 0 <= k < self.nodes@.len() {
            if self.spec_is_menu_ready(k) && self.spec_tree(k).focus_parent == Some(focusable) {
                Some(k as usize)
            } else {
                self.spec_child_menu_from(focusable, k + 1)
            }
        } else {
            None
        }
    }

    /// The menu reachable by activating `focusable`, if any.
    pub open spec fn spec_child_menu(self, focusable: usize) -> Option<usize> {
        self.spec_child_menu_from(focusable, 0)
    }

    /// Whether node `c` belongs to the sibling set of its menu: a
    /// focusable that is not blocked.
    pub open spec fn spec_in_sibling_set(self, c: usize) -> bool {
        self.spec_is_focusable(c as int) && self.spec_state(c as int) != FocusState::Blocked
    }

    /// The non-blocked focusables among the first `k` direct children of
    /// node `m`, in order.
    pub open spec fn spec_direct_focusables(self, m: int, k: int) -> Seq<usize>
        decreases k,
    {
        if self.valid(m) && 0 < k <= self.node(m).children@.len() {
            let prev = self.spec_direct_focusables(m, k - 1);
            let c = self.node(m).children@[k - 1];
            if self.spec_in_sibling_set(c) {
                prev.push(c)
            } else {
                prev
            }
        } else {
            Seq::empty()
        }
    }

    /// The ordered sibling set of menu `m`: its direct non-blocked
    /// focusable children, then the focusables nested under its plain
    /// (non-focusable, non-menu) descendants, recursion stopping at any
    /// nested menu boundary.
    pub open spec fn spec_focusables_of(self, m: int) -> Seq<usize>
        decreases self.nodes@.len() - m, 1int, 0int,
    {
        if self.valid(m) && self.wf_node(m) {
            self.spec_direct_focusables(m, self.node(m).children@.len() as int)
                + self.spec_transitive_focusables(m, self.node(m).children@.len() as int)
        } else {
            Seq::empty()
        }
    }

    /// The contributions of the first `k` children of `m` that are
    /// neither focusables nor menus.
    pub open spec fn spec_transitive_focusables(self, m: int, k: int) -> Seq<usize>
        decreases self.nodes@.len() - m, 0int, k,
    {
        if self.valid(m) && self.wf_node(m) && 0 < k <= self.node(m).children@.len() {
            let c = self.node(m).children@[k - 1] as int;
            let rest = self.spec_transitive_focusables(m, k - 1);
            if self.node(c).data is Plain {
                rest + self.spec_focusables_of(c)
            } else {
                rest
            }
        } else {
            Seq::empty()
        }
    }

    /// The menu found by [`NavGraph::spec_parent_menu`] is a valid,
    /// in-service menu.
    pub proof fn lemma_parent_menu_ready(self, i: int)
        ensures
            match self.spec_parent_menu(i) {
                Some(m) => self.spec_is_menu_ready(m as int) && (m as int) < self.len(),
                None => true,
            },
        decreases i,
    {
        if self.valid(i) && self.wf_node(i) {
            match self.node(i).parent {
                Some(p) => {
                    if !self.spec_is_menu_ready(p as int) {
                        self.lemma_parent_menu_ready(p as int);
                    }
                },
                None => {},
            }
        }
    }

    /// The menu found by [`NavGraph::spec_child_menu_from`] is a valid,
    /// in-service menu whose focus parent is the given focusable.
    pub proof fn lemma_child_menu_ready(self, focusable: usize, k: int)
        ensures
            match self.spec_child_menu_from(focusable, k) {
                Some(m) => self.spec_is_menu_ready(m as int) && (m as int) < self.len()
                    && self.spec_tree(m as int).focus_parent == Some(focusable),
                None => true,
            },
        decreases self.nodes@.len() - k,
    {
        if 0 <= k < self.nodes@.len() {
            if self.spec_is_menu_ready(k) && self.spec_tree(k).focus_parent == Some(focusable) {
                assert(vstd::std_specs::vec::spec_vec_len(&self.nodes) == self.nodes@.len());
                assert((k as usize) as int == k);
                assert(self.spec_child_menu_from(focusable, k) == Some(k as usize));
            } else {
                self.lemma_child_menu_ready(focusable, k + 1);
                assert(self.spec_child_menu_from(focusable, k) == self.spec_child_menu_from(
                    focusable,
                    k + 1,
                ));
            }
        }
    }

    /// Every member of the direct part of a sibling set is a
    /// non-blocked focusable.
    pub proof fn lemma_direct_focusables_members(self, m: int, k: int)
        ensures
            forall|i: int|
                0 <= i < self.spec_direct_focusables(m, k).len() ==> self.spec_in_sibling_set(
                    #[trigger] self.spec_direct_focusables(m, k)[i],
                ),
        decreases k,
    {
        if self.valid(m) && 0 < k <= self.node(m).children@.len() {
            self.lemma_direct_focusables_members(m, k - 1);
            let prev = self.spec_direct_focusables(m, k - 1);
            let cur = self.spec_direct_focusables(m, k);
            let c = self.node(m).children@[k - 1];
            assert forall|i: int| 0 <= i < cur.len() implies self.spec_in_sibling_set(
                #[trigger] cur[i],
            ) by {
                if self.spec_in_sibling_set(c) {
                    assert(cur == prev.push(c));
                    if i < prev.len() {
                        assert(cur[i] == prev[i]);
                    } else {
                        assert(cur[i] == c);
                    }
                } else {
                    assert(cur == prev);
                }
            }
        }
    }

    /// Every member of a sibling set is a non-blocked focusable.
    pub proof fn lemma_focusables_of_members(self, m: int)
        ensures
            forall|i: int|
                0 <= i < self.spec_focusables_of(m).len() ==> self.spec_in_sibling_set(
                    #[trigger] self.spec_focusables_of(m)[i],
                ),
        decreases self.nodes@.len() - m, 1int, 0int,
    {
        if self.valid(m) && self.wf_node(m) {
            let nk = self.node(m).children@.len() as int;
            self.lemma_direct_focusables_members(m, nk);
            self.lemma_transitive_focusables_members(m, nk);
            let a = self.spec_direct_focusables(m, nk);
            let b = self.spec_transitive_focusables(m, nk);
            let cur = self.spec_focusables_of(m);
            assert forall|i: int| 0 <= i < cur.len() implies self.spec_in_sibling_set(
                #[trigger] cur[i],
            ) by {
                assert(cur == a + b);
                if i < a.len() {
                    assert(cur[i] == a[i]);
                } else {
                    assert(cur[i] == b[i - a.len()]);
                }
            }
        }
    }

    /// Every member of the transitive part of a sibling set is a
    /// non-blocked focusable.
    pub proof fn lemma_transitive_focusables_members(self, m: int, k: int)
        ensures
            forall|i: int|
                0 <= i < self.spec_transitive_focusables(m, k).len() ==> self.spec_in_sibling_set(
                    #[trigger] self.spec_transitive_focusables(m, k)[i],
                ),
        decreases self.nodes@.len() - m, 0int, k,
    {
        if self.valid(m) && self.wf_node(m) && 0 < k <= self.node(m).children@.len() {
            let c = self.node(m).children@[k - 1] as int;
            self.lemma_transitive_focusables_members(m, k - 1);
            let rest = self.spec_transitive_focusables(m, k - 1);
            let cur = self.spec_transitive_focusables(m, k);
            if self.node(c).data is Plain {
                self.lemma_focusables_of_members(c);
                let sub = self.spec_focusables_of(c);
                assert forall|i: int| 0 <= i < cur.len() implies self.spec_in_sibling_set(
                    #[trigger] cur[i],
                ) by {
                    assert(cur == rest + sub);
                    if i < rest.len() {
                        assert(cur[i] == rest[i]);
                    } else {
                        assert(cur[i] == sub[i - rest.len()]);
                    }
                }
            } else {
                assert(cur == rest);
            }
        }
    }

    /// The menu that contains a node of `m`'s sibling set, seen from
    /// the outside: `m` itself when in service, else `m`'s own menu.
    pub open spec fn spec_menu_through(self, m: int) -> Option<usize> {
        if self.spec_is_menu_ready(m) {
            Some(m as usize)
        } else {
            self.spec_parent_menu(m)
        }
    }

    /// Members of the direct part of `m`'s sibling set live in the
    /// menu `m` stands for.
    pub proof fn lemma_direct_focusables_parent(self, m: int, k: int)
        requires
            self.wf(),
            self.valid(m),
        ensures
            forall|i: int|
                0 <= i < self.spec_direct_focusables(m, k).len() ==> self.spec_parent_menu(
                    (#[trigger] self.spec_direct_focusables(m, k)[i]) as int,
                ) == self.spec_menu_through(m),
        decreases k,
    {
        broadcast use vstd::std_specs::vec::axiom_spec_len;

        if 0 < k <= self.node(m).children@.len() {
            self.lemma_direct_focusables_parent(m, k - 1);
            let prev = self.spec_direct_focusables(m, k - 1);
            let cur = self.spec_direct_focusables(m, k);
            let c = self.node(m).children@[k - 1];
            assert(self.wf_node(m));
            assert forall|i: int| 0 <= i < cur.len() implies self.spec_parent_menu(
                (#[trigger] cur[i]) as int,
            ) == self.spec_menu_through(m) by {
                if self.spec_in_sibling_set(c) {
                    assert(cur == prev.push(c));
                    if i < prev.len() {
                        assert(cur[i] == prev[i]);
                    } else {
                        assert(cur[i] == c);
                        assert(self.wf_node(c as int));
                        assert(self.node(c as int).parent == Some(m as usize));
                        assert((m as usize) as int == m);
                    }
                } else {
                    assert(cur == prev);
                }
            }
        }
    }

    /// Members of a menu's sibling set live in the menu the set
    /// belongs to.
    pub proof fn lemma_focusables_of_parent(self, m: int)
        requires
            self.wf(),
        ensures
            forall|i: int|
                0 <= i < self.spec_focusables_of(m).len() ==> self.spec_parent_menu(
                    (#[trigger] self.spec_focusables_of(m)[i]) as int,
                ) == self.spec_menu_through(m),
        decreases self.nodes@.len() - m, 1int, 0int,
    {
        if self.valid(m) && self.wf_node(m) {
            let nk = self.node(m).children@.len() as int;
            self.lemma_direct_focusables_parent(m, nk);
            self.lemma_transitive_focusables_parent(m, nk);
            let a = self.spec_direct_focusables(m, nk);
            let b = self.spec_transitive_focusables(m, nk);
            let cur = self.spec_focusables_of(m);
            assert forall|i: int| 0 <= i < cur.len() implies self.spec_parent_menu(
                (#[trigger] cur[i]) as int,
            ) == self.spec_menu_through(m) by {
                assert(cur == a + b);
                if i < a.len() {
                    assert(cur[i] == a[i]);
                } else {
                    assert(cur[i] == b[i - a.len()]);
                }
            }
        }
    }

    /// Members contributed through plain descendants live in the menu
    /// the set belongs to.
    pub proof fn lemma_transitive_focusables_parent(self, m: int, k: int)
        requires
            self.wf(),
        ensures
            forall|i: int|
                0 <= i < self.spec_transitive_focusables(m, k).len() ==> self.spec_parent_menu(
                    (#[trigger] self.spec_transitive_focusables(m, k)[i]) as int,
                ) == self.spec_menu_through(m),
        decreases self.nodes@.len() - m, 0int, k,
    {
        broadcast use vstd::std_specs::vec::axiom_spec_len;

        if self.valid(m) && self.wf_node(m) && 0 < k <= self.node(m).children@.len() {
            let c = self.node(m).children@[k - 1] as int;
            self.lemma_transitive_focusables_parent(m, k - 1);
            let rest = self.spec_transitive_focusables(m, k - 1);
            let cur = self.spec_transitive_focusables(m, k);
            if self.node(c).data is Plain {
                self.lemma_focusables_of_parent(c);
                let sub = self.spec_focusables_of(c);
                assert forall|i: int| 0 <= i < cur.len() implies self.spec_parent_menu(
                    (#[trigger] cur[i]) as int,
                ) == self.spec_menu_through(m) by {
                    assert(cur == rest + sub);
                    if i < rest.len() {
                        assert(cur[i] == rest[i]);
                    } else {
                        assert(cur[i] == sub[i - rest.len()]);
                        // a plain node is no menu, so its members see
                        // through it to `m`'s own menu
                        assert(self.wf_node(c));
                        assert(!self.spec_is_menu_ready(c));
                        assert(self.node(c).parent == Some(m as usize));
                        assert(self.spec_parent_menu(c) == self.spec_menu_through(m));
                    }
                }
            } else {
                assert(cur == rest);
            }
        }
    }

    /// Whether node `id` is a menu, in service or not.
    pub fn is_menu(&self, id: usize) -> (r: bool)
        requires
            id < self.nodes@.len(),
        ensures
            r == self.spec_is_menu(id as int),
    {
        match &self.nodes[id].data {
            NodeData::Menu(_) => true,
            _ => false,
        }
    }

    /// Whether node `id` is an in-service menu.
    pub fn is_menu_ready(&self, id: usize) -> (r: bool)
        requires
            id < self.nodes@.len(),
        ensures
            r == self.spec_is_menu_ready(id as int),
    {
        match &self.nodes[id].data {
            NodeData::Menu(m) => m.tree.is_some(),
            _ => false,
        }
    }

    /// The bookkeeping of the in-service menu `id`.
    pub fn tree_of(&self, id: usize) -> (r: TreeMenu)
        requires
            id < self.nodes@.len(),
            self.spec_is_menu_ready(id as int),
        ensures
            r == self.spec_tree(id as int),
    {
        match &self.nodes[id].data {
            NodeData::Menu(m) => match &m.tree {
                Some(t) => *t,
                None => unreached(),
            },
            _ => unreached(),
        }
    }

    /// The settings of the menu `id`.
    pub fn setting_of(&self, id: usize) -> (r: MenuSetting)
        requires
            id < self.nodes@.len(),
            self.spec_is_menu(id as int),
        ensures
            r == self.spec_menu(id as int).setting,
    {
        match &self.nodes[id].data {
            NodeData::Menu(m) => m.setting,
            _ => unreached(),
        }
    }

    /// Whether node `id` is a focusable.
    pub fn is_focusable(&self, id: usize) -> (r: bool)
        requires
            id < self.nodes@.len(),
        ensures
            r == self.spec_is_focusable(id as int),
    {
        match &self.nodes[id].data {
            NodeData::Focus(_) => true,
            _ => false,
        }
    }

    /// The focusable carried by node `id`.
    pub fn focusable_of(&self, id: usize) -> (r: Focusable)
        requires
            id < self.nodes@.len(),
            self.spec_is_focusable(id as int),
        ensures
            r == self.spec_focusable(id as int),
    {
        match &self.nodes[id].data {
            NodeData::Focus(f) => *f,
            _ => unreached(),
        }
    }

    /// The menu containing `focusable`, if any: walks up the parent
    /// links until an in-service menu is found.
    pub fn parent_menu(&self, focusable: usize) -> (r: Option<usize>)
        requires
            self.wf(),
            focusable < self.nodes@.len(),
        ensures
            r == self.spec_parent_menu(focusable as int),
            match r {
                Some(m) => self.spec_is_menu_ready(m as int) && m < self.nodes@.len(),
                None => true,
            },
    {
        let mut cur: usize = focusable;
        loop
            invariant
                self.wf(),
                cur < self.nodes@.len(),
                self.spec_parent_menu(focusable as int) == self.spec_parent_menu(cur as int),
            decreases cur,
        {
            assert(self.wf_node(cur as int));
            match self.nodes[cur].parent {
                None => {
                    return None;
                },
                Some(p) => {
                    if self.is_menu_ready(p) {
                        assert(self.spec_parent_menu(cur as int) == Some(p));
                        return Some(p);
                    }
                    assert(self.spec_parent_menu(cur as int) == self.spec_parent_menu(p as int));
                    cur = p;
                },
            }
        }
    }

    /// The menu reachable by activating `focusable`, if any: the first
    /// in-service menu whose `focus_parent` is `focusable`.
    pub fn child_menu(&self, focusable: usize) -> (r: Option<usize>)
        requires
            self.wf(),
        ensures
            r == self.spec_child_menu(focusable),
            match r {
                Some(m) => self.spec_is_menu_ready(m as int) && m < self.nodes@.len(),
                None => true,
            },
    {
        let n = self.nodes.len();
        let mut k: usize = 0;
        while k < n
            invariant
                self.wf(),
                n == self.nodes@.len(),
                0 <= k <= n,
                self.spec_child_menu(focusable) == self.spec_child_menu_from(focusable, k as int),
            decreases n - k,
        {
            if self.is_menu_ready(k) {
                let t = self.tree_of(k);
                match t.focus_parent {
                    Some(fp) => if fp == focusable {
                        return Some(k);
                    },
                    None => {},
                }
            }
            assert(self.spec_child_menu_from(focusable, k as int) == self.spec_child_menu_from(
                focusable,
                k as int + 1,
            ));
            k = k + 1;
        }
        None
    }

    /// The ordered sibling set of menu `m`; see
    /// [`NavGraph::spec_focusables_of`].
    pub fn focusables_of(&self, m: usize) -> (r: Vec<usize>)
        requires
            self.wf(),
            m < self.nodes@.len(),
        ensures
            r@ == self.spec_focusables_of(m as int),
        decreases self.nodes@.len() - m,
    {
        proof {
            assert(self.wf_node(m as int));
        }
        let mut out: Vec<usize> = Vec::new();
        let n_kids = self.nodes[m].children.len();
        let mut k: usize = 0;
        while k < n_kids
            invariant
                self.wf(),
                m < self.nodes@.len(),
                n_kids == self.node(m as int).children@.len(),
                0 <= k <= n_kids,
                out@ == self.spec_direct_focusables(m as int, k as int),
            decreases n_kids - k,
        {
            assert(self.wf_node(m as int));
            let c = self.nodes[m].children[k];
            match &self.nodes[c].data {
                NodeData::Focus(f) => {
                    if !matches!(f.state, FocusState::Blocked) {
                        out.push(c);
                    }
                },
                _ => {},
            }
            k = k + 1;
        }
        let mut k: usize = 0;
        while k < n_kids
            invariant
                self.wf(),
                m < self.nodes@.len(),
                n_kids == self.node(m as int).children@.len(),
                0 <= k <= n_kids,
                out@ == self.spec_direct_focusables(m as int, n_kids as int)
                    + self.spec_transitive_focusables(m as int, k as int),
            decreases n_kids - k,
        {
            assert(self.wf_node(m as int));
            let c = self.nodes[m].children[k];
            if matches!(&self.nodes[c].data, NodeData::Plain) {
                let mut sub = self.focusables_of(c);
                out.append(&mut sub);
            }
            k = k + 1;
        }
        out
    }

    /// The focus state of node `id`, `None` if it is not a focusable.
    pub fn focus_state_at(&self, id: usize) -> (r: Option<FocusState>)
        requires
            id < self.nodes@.len(),
        ensures
            r == if self.spec_is_focusable(id as int) {
                Some(self.spec_state(id as int))
            } else {
                Option::<FocusState>::None
            },
    {
        match &self.nodes[id].data {
            NodeData::Focus(f) => Some(f.state()),
            _ => None,
        }
    }

    /// Blocks the focusable `id`; see [`Focusable::block`].
    pub fn block(&mut self, id: usize) -> (r: bool)
        requires
            old(self).wf(),
            id < old(self).nodes@.len(),
        ensures
            final(self).wf(),
            final(self).nodes@.len() == old(self).nodes@.len(),
            forall|j: int|
                0 <= j < old(self).nodes@.len() && j != id ==> final(self).nodes@[j] == old(self).nodes@[j],
            old(self).spec_is_focusable(id as int) ==> {
                let f0 = old(self).spec_focusable(id as int);
                let blockable = f0.state == FocusState::Inert || f0.state
                    == FocusState::Prioritized;
                &&& r == blockable
                &&& final(self).spec_is_focusable(id as int)
                &&& final(self).spec_focusable(id as int) == if blockable {
                    Focusable { state: FocusState::Blocked, ..f0 }
                } else {
                    f0
                }
                &&& final(self).nodes@[id as int].parent == old(self).nodes@[id as int].parent
                &&& final(self).nodes@[id as int].children == old(self).nodes@[id as int].children
                &&& final(self).nodes@[id as int].name == old(self).nodes@[id as int].name
            },
            !old(self).spec_is_focusable(id as int) ==> final(self).nodes@ == old(self).nodes@ && !r,
    {
        let node = &mut self.nodes[id];
        let r = match &mut node.data {
            NodeData::Focus(f) => f.block(),
            _ => false,
        };
        proof {
            assert forall|i: int| 0 <= i < self.nodes@.len() implies #[trigger] self.wf_node(i) by {
                assert(old(self).wf_node(i));
            }
        }
        r
    }

    /// Unblocks the focusable `id`; see [`Focusable::unblock`].
    pub fn unblock(&mut self, id: usize) -> (r: bool)
        requires
            old(self).wf(),
            id < old(self).nodes@.len(),
        ensures
            final(self).wf(),
            final(self).nodes@.len() == old(self).nodes@.len(),
            forall|j: int|
                0 <= j < old(self).nodes@.len() && j != id ==> final(self).nodes@[j] == old(self).nodes@[j],
            old(self).spec_is_focusable(id as int) ==> {
                let f0 = old(self).spec_focusable(id as int);
                let was_blocked = f0.state == FocusState::Blocked;
                &&& r == was_blocked
                &&& final(self).spec_is_focusable(id as int)
                &&& final(self).spec_focusable(id as int) == if was_blocked {
                    Focusable { state: FocusState::Inert, ..f0 }
                } else {
                    f0
                }
                &&& final(self).nodes@[id as int].parent == old(self).nodes@[id as int].parent
                &&& final(self).nodes@[id as int].children == old(self).nodes@[id as int].children
                &&& final(self).nodes@[id as int].name == old(self).nodes@[id as int].name
            },
            !old(self).spec_is_focusable(id as int) ==> final(self).nodes@ == old(self).nodes@ && !r,
    {
        let node = &mut self.nodes[id];
        let r = match &mut node.data {
            NodeData::Focus(f) => f.unblock(),
            _ => false,
        };
        proof {
            assert forall|i: int| 0 <= i < self.nodes@.len() implies #[trigger] self.wf_node(i) by {
                assert(old(self).wf_node(i));
            }
        }
        r
    }
}

} // verus!
