//! A linear navigation tree.
//!
//! The hierarchy is implicit in the order of the branches: the first
//! branch is the root, each branch's container is a child of the
//! previous branch, and the focused element is the active focusable of
//! the last branch. Movement commands resolve within the last branch
//! and bubble towards the root while no neighbor is found.
use vstd::prelude::*;

use vstd::std_specs::cmp::PartialEqSpec;

use crate::events::Pos;
use crate::strategy::spec_dist2;

verus! {

/// Commands a host sends to move the tree's focus.
#[derive(Debug, PartialEq, Eq, Structural, Clone, Copy)]
pub enum Command {
    MoveUp,
    MoveDown,
    MoveLeft,
    MoveRight,
    Previous,
    Next,
    Action,
    Cancel,
}

/// What resolving one command produced.
#[derive(Debug, PartialEq)]
pub enum Event<T> {
    /// Focus moved to `to`; the elements of `disactivated` ceased to
    /// be active.
    FocusChanged { to: T, disactivated: Vec<T> },
    /// The command stopped at `container` without moving focus.
    Caught { container: T, focused: T, command: Command },
    /// No branch resolved the command.
    Uncaught { focused: T, command: Command },
}

/// A plane direction for tree movement commands.
#[derive(Debug, PartialEq, Eq, Structural, Clone, Copy)]
pub enum Direction {
    South,
    North,
    East,
    West,
}

impl Direction {
    /// The direction a movement command asks for, `None` for
    /// non-movement commands.
    pub open spec fn spec_from_command(command: Command) -> Option<Direction> {
        match command {
            Command::MoveUp => Some(Direction::North),
            Command::MoveDown => Some(Direction::South),
            Command::MoveLeft => Some(Direction::West),
            Command::MoveRight => Some(Direction::East),
            _ => None,
        }
    }

    /// The direction a movement command asks for.
    pub fn from_command(command: Command) -> (r: Option<Direction>)
        ensures
            r == Direction::spec_from_command(command),
    {
        match command {
            Command::MoveUp => Some(Direction::North),
            Command::MoveDown => Some(Direction::South),
            Command::MoveLeft => Some(Direction::West),
            Command::MoveRight => Some(Direction::East),
            _ => None,
        }
    }

    /// The equivalent plane direction of the full navigation model.
    pub open spec fn spec_plane(self) -> crate::events::Direction {
        match self {
            Direction::South => crate::events::Direction::South,
            Direction::North => crate::events::Direction::North,
            Direction::East => crate::events::Direction::East,
            Direction::West => crate::events::Direction::West,
        }
    }

    /// The equivalent plane direction of the full navigation model.
    pub fn plane(self) -> (r: crate::events::Direction)
        ensures
            r == self.spec_plane(),
    {
        match self {
            Direction::South => crate::events::Direction::South,
            Direction::North => crate::events::Direction::North,
            Direction::East => crate::events::Direction::East,
            Direction::West => crate::events::Direction::West,
        }
    }
}

/// A value that knows which of its peers lies in a given direction.
pub trait Located: Sized {
    /// The peer this value picks in `direction`, as a function of the
    /// inputs.
    spec fn spec_closest(self, direction: Direction, others: Seq<Self>) -> Option<Self>;

    /// Which element of `others` is reached from `self` when moving in
    /// `direction`, if any.
    fn closest_in_direction(&self, direction: Direction, others: &Vec<Self>) -> (r: Option<Self>)
        ensures
            r == self.spec_closest(direction, others@),
    ;
}

/// The nearest of the first `k` positions lying in `direction`'s cone
/// as seen from `p`; an earlier peer wins ties.
pub open spec fn spec_closest_pos(p: Pos, direction: Direction, others: Seq<Pos>, k: int) -> Option<
    Pos,
>
    decreases k,
{
    if k <= 0 || k > others.len() {
        None
    } else {
        let prev = spec_closest_pos(p, direction, others, k - 1);
        let q = others[k - 1];
        if q != p && direction.spec_plane().spec_is_in(p, q) {
            match prev {
                None => Some(q),
                Some(b) => if spec_dist2(q, p) < spec_dist2(b, p) {
                    Some(q)
                } else {
                    Some(b)
                },
            }
        } else {
            prev
        }
    }
}

impl Located for Pos {
    open spec fn spec_closest(self, direction: Direction, others: Seq<Pos>) -> Option<Pos> {
        spec_closest_pos(self, direction, others, others.len() as int)
    }

    fn closest_in_direction(&self, direction: Direction, others: &Vec<Pos>) -> (r: Option<Pos>) {
        let n = others.len();
        let mut best: Option<Pos> = None;
        let mut k: usize = 0;
        let plane = direction.plane();
        while k < n
            invariant
                n == others@.len(),
                0 <= k <= n,
                plane == direction.spec_plane(),
                best == spec_closest_pos(*self, direction, others@, k as int),
            decreases n - k,
        {
            let q = others[k];
            if !(q.x == self.x && q.y == self.y) && plane.is_in(*self, q) {
                match best {
                    None => {
                        best = Some(q);
                    },
                    Some(b) => {
                        if crate::strategy::dist2(q, *self) < crate::strategy::dist2(b, *self) {
                            best = Some(q);
                        }
                    },
                }
            } else {
                assert(q == *self || !plane.spec_is_in(*self, q));
            }
            k = k + 1;
        }
        best
    }
}

/// A monotonically increasing branch revision, protecting handles
/// against reuse after the tree was rebuilt.
#[derive(Debug, PartialEq, Eq, Structural, Clone, Copy)]
pub struct BranchVersion(pub usize);

/// One branch: a container, its focusables and the active one.
#[derive(Debug)]
pub struct Branch<T> {
    /// The revision this branch was created at.
    pub version: BranchVersion,
    /// Index of the branch's active focusable.
    pub active: usize,
    /// The container element of the branch.
    pub nav_node: T,
    /// The navigable elements of the branch, never empty.
    pub focusables: Vec<T>,
}

/// A handle to a branch of the tree, valid as long as the branch has
/// not been replaced.
#[derive(Debug, PartialEq, Eq, Structural, Clone, Copy)]
pub struct BranchId {
    /// Position of the branch.
    pub index: usize,
    /// Revision the branch had when the handle was made.
    pub version: BranchVersion,
}

/// The hierarchical relation of focusable elements; each branch holds
/// at least one focusable, and the tree at least one branch.
#[derive(Debug)]
pub struct Tree<T> {
    /// The last revision handed out.
    pub last_branch_version: BranchVersion,
    /// The branches, root first.
    pub branches: Vec<Branch<T>>,
}

/// The focused element: the active focusable of the last branch.
pub open spec fn spec_focused<T>(t: Tree<T>) -> T {
    let br = t.branches@.last();
    br.focusables@[br.active as int]
}

/// The active focusables of the branches from `b` on, in branch order.
pub open spec fn spec_trail<T>(t: Tree<T>, b: int) -> Seq<T> {
    Seq::new(
        (t.branches@.len() - b) as nat,
        |i: int|
            {
                let br = t.branches@[b + i];
                br.focusables@[br.active as int]
            },
    )
}

/// The first branch at or after `k` whose container equals `node`.
pub open spec fn spec_branch_of<T: PartialEq + PartialEqSpec>(
    t: Tree<T>,
    node: T,
    k: int,
) -> Option<BranchId>
    decreases t.branches@.len() as int - k,
{
    if 0 <= k < t.branches@.len() {
        if t.branches@[k].nav_node.eq_spec(&node) {
            Some(BranchId { index: k as usize, version: t.branches@[k].version })
        } else {
            spec_branch_of(t, node, k + 1)
        }
    } else {
        None
    }
}

/// The innermost branch at or below `b` that resolves a move in
/// `direction`.
pub open spec fn spec_resolving_branch<T: Located>(
    t: Tree<T>,
    direction: Direction,
    b: int,
) -> Option<int>
    decreases b,
{
    if 0 <= b < t.branches@.len() {
        let br = t.branches@[b];
        let focused = br.focusables@[br.active as int];
        match focused.spec_closest(direction, br.focusables@) {
            Some(_) => Some(b),
            None => if b == 0 {
                None
            } else {
                spec_resolving_branch(t, direction, b - 1)
            },
        }
    } else {
        None
    }
}

impl<T> Tree<T> {
    /// Well-formedness: at least one branch, each with at least one
    /// focusable and a valid active index.
    pub open spec fn wf(self) -> bool {
        &&& self.branches@.len() >= 1
        &&& forall|i: int|
            0 <= i < self.branches@.len() ==> (#[trigger] self.branches@[i]).focusables@.len() >= 1
                && (self.branches@[i]).active < (self.branches@[i]).focusables@.len()
    }

    /// A tree with one root branch holding one focusable.
    pub fn new(focusable: T, root_node: T) -> (r: Tree<T>)
        ensures
            r.wf(),
            r.branches@.len() == 1,
            r.branches@[0].active == 0,
            r.branches@[0].focusables@ =~= seq![focusable],
            r.branches@[0].nav_node == root_node,
            r.last_branch_version == BranchVersion(1usize),
    {
        let mut tree = Tree { last_branch_version: BranchVersion(0), branches: Vec::new() };
        tree.add_branch(focusable, root_node);
        tree
    }

    /// Adds a focusable to the branch behind `branch_id`; refused when
    /// the handle's revision is stale.
    pub fn add_navigable(&mut self, branch_id: BranchId, focusable: T) -> (r: Option<()>)
        requires
            old(self).wf(),
        ensures
            final(self).wf(),
            final(self).branches@.len() == old(self).branches@.len(),
            final(self).last_branch_version == old(self).last_branch_version,
            ({
                let i = branch_id.index as int;
                if 0 <= i < old(self).branches@.len() && old(self).branches@[i].version
                    == branch_id.version {
                    &&& r == Some(())
                    &&& final(self).branches@[i].focusables@ == old(
                        self,
                    ).branches@[i].focusables@.push(focusable)
                    &&& final(self).branches@[i].version == old(self).branches@[i].version
                    &&& final(self).branches@[i].active == old(self).branches@[i].active
                    &&& final(self).branches@[i].nav_node == old(self).branches@[i].nav_node
                    &&& forall|j: int|
                        0 <= j < old(self).branches@.len() && j != i ==> final(self).branches@[j]
                            == old(self).branches@[j]
                } else {
                    r is None && final(self).branches@ == old(self).branches@
                }
            }),
    {
        if branch_id.index >= self.branches.len() {
            return None;
        }
        let matches_version = self.branches[branch_id.index].version.0 == branch_id.version.0;
        if !matches_version {
            return None;
        }
        let branch = &mut self.branches[branch_id.index];
        branch.focusables.push(focusable);
        proof {
            assert(self.branches@[branch_id.index as int].version == branch_id.version);
        }
        Some(())
    }

    /// Appends a branch holding one focusable under `nav_node` and
    /// hands back its handle.
    pub fn add_branch(&mut self, focusable: T, nav_node: T) -> (r: BranchId)
        requires
            old(self).last_branch_version.0 < usize::MAX,
        ensures
            old(self).wf() || old(self).branches@.len() == 0 ==> final(self).wf(),
            final(self).branches@.len() == old(self).branches@.len() + 1,
            final(self).last_branch_version == BranchVersion(
                (old(self).last_branch_version.0 + 1) as usize,
            ),
            ({
                let nb = final(self).branches@.last();
                &&& nb.version == final(self).last_branch_version
                &&& nb.active == 0
                &&& nb.nav_node == nav_node
                &&& nb.focusables@ =~= seq![focusable]
            }),
            forall|j: int|
                0 <= j < old(self).branches@.len() ==> final(self).branches@[j] == old(
                    self,
                ).branches@[j],
            r == (BranchId {
                index: old(self).branches@.len() as usize,
                version: final(self).last_branch_version,
            }),
    {
        let version = BranchVersion(self.last_branch_version.0 + 1);
        let mut focusables: Vec<T> = Vec::new();
        focusables.push(focusable);
        let new_branch = Branch { version, active: 0, nav_node, focusables };
        let index = self.branches.len();
        self.branches.push(new_branch);
        self.last_branch_version = version;
        BranchId { index, version }
    }

    /// Drops every branch deeper than the one behind `extending` and
    /// grows a fresh branch there; refused when the handle is stale.
    pub fn replace_branches(&mut self, extending: BranchId, focusable: T, nav_node: T) -> (r:
        Option<BranchId>)
        requires
            old(self).wf(),
            old(self).last_branch_version.0 < usize::MAX,
        ensures
            final(self).wf(),
            ({
                let i = extending.index as int;
                if 0 <= i < old(self).branches@.len() && old(self).branches@[i].version
                    == extending.version {
                    &&& final(self).branches@.len() == i + 2
                    &&& forall|j: int|
                        0 <= j <= i ==> final(self).branches@[j] == old(self).branches@[j]
                    &&& r == Some(
                        BranchId {
                            index: (i + 1) as usize,
                            version: BranchVersion(
                                (old(self).last_branch_version.0 + 1) as usize,
                            ),
                        },
                    )
                    &&& final(self).branches@.last().focusables@ =~= seq![focusable]
                    &&& final(self).branches@.last().nav_node == nav_node
                    &&& final(self).branches@.last().active == 0
                } else {
                    r is None && final(self).branches@ == old(self).branches@
                }
            }),
    {
        if extending.index >= self.branches.len() {
            return None;
        }
        let matches_version = self.branches[extending.index].version.0 == extending.version.0;
        if !matches_version {
            return None;
        }
        proof {
            assert(self.branches@[extending.index as int].version == extending.version);
        }
        self.branches.truncate(extending.index + 1);
        let id = self.add_branch(focusable, nav_node);
        Some(id)
    }

    /// The handle of the first branch whose container equals `node`.
    pub fn branch_of(&self, node: T) -> (r: Option<BranchId>) where T: PartialEq + PartialEqSpec
        ensures
            T::obeys_eq_spec() ==> r == spec_branch_of(*self, node, 0),
    {
        let n = self.branches.len();
        let mut k: usize = 0;
        while k < n
            invariant
                n == self.branches@.len(),
                0 <= k <= n,
                T::obeys_eq_spec() ==> spec_branch_of(*self, node, 0) == spec_branch_of(
                    *self,
                    node,
                    k as int,
                ),
            decreases n - k,
        {
            if self.branches[k].nav_node == node {
                return Some(BranchId { index: k, version: self.branches[k].version });
            }
            k = k + 1;
        }
        None
    }

    /// The active focusables of the branches from `up_to_branch` on.
    pub fn active_trail(&self, up_to_branch: usize) -> (r: Vec<T>) where T: Copy
        requires
            self.wf(),
            up_to_branch < self.branches@.len(),
        ensures
            r@ == spec_trail(*self, up_to_branch as int),
    {
        let n = self.branches.len();
        let mut out: Vec<T> = Vec::new();
        let mut b = up_to_branch;
        while b < n
            invariant
                self.wf(),
                n == self.branches@.len(),
                up_to_branch <= b <= n,
                out@ =~= spec_trail(*self, up_to_branch as int).take(b - up_to_branch),
            decreases n - b,
        {
            let active = self.branches[b].active;
            out.push(self.branches[b].focusables[active]);
            proof {
                assert(out@ =~= spec_trail(*self, up_to_branch as int).take(
                    b + 1 - up_to_branch,
                ));
            }
            b = b + 1;
        }
        proof {
            assert(out@ =~= spec_trail(*self, up_to_branch as int));
        }
        out
    }

    /// The focused element: the active focusable of the last branch.
    pub fn focused(&self) -> (r: T) where T: Copy
        requires
            self.wf(),
        ensures
            r == spec_focused(*self),
    {
        let last = self.branches.len() - 1;
        let active = self.branches[last].active;
        self.branches[last].focusables[active]
    }

    /// Resolves `command` starting at branch `current_branch`, bubbling
    /// toward the root while no neighbor is found.
    pub fn change_focus_at(&self, command: Command, current_branch: usize) -> (r: Event<T>) where
        T: Located + Copy,

        requires
            self.wf(),
            current_branch < self.branches@.len(),
        ensures
            ({
                let cb = current_branch as int;
                match Direction::spec_from_command(command) {
                    None => r == (Event::Caught {
                        container: self.branches@[cb].nav_node,
                        focused: spec_focused(*self),
                        command,
                    }),
                    Some(dir) => match spec_resolving_branch(*self, dir, cb) {
                        None => r == (Event::Uncaught { focused: spec_focused(*self), command }),
                        Some(b) => {
                            let br = self.branches@[b];
                            let focused_b = br.focusables@[br.active as int];
                            match r {
                                Event::FocusChanged { to, disactivated } => Some(to)
                                    == focused_b.spec_closest(dir, br.focusables@)
                                    && disactivated@ == spec_trail(*self, b),
                                _ => false,
                            }
                        },
                    },
                }
            }),
        decreases current_branch,
    {
        let focused_all = self.focused();
        let active = self.branches[current_branch].active;
        let focused = self.branches[current_branch].focusables[active];
        let nav_node_opt = Direction::from_command(command);
        match nav_node_opt {
            None => Event::Caught {
                container: self.branches[current_branch].nav_node,
                focused: focused_all,
                command,
            },
            Some(direction) => {
                let next = focused.closest_in_direction(
                    direction,
                    &self.branches[current_branch].focusables,
                );
                match next {
                    Some(to) => Event::FocusChanged {
                        to,
                        disactivated: self.active_trail(current_branch),
                    },
                    None => {
                        if current_branch == 0 {
                            Event::Uncaught { focused: focused_all, command }
                        } else {
                            self.change_focus_at(command, current_branch - 1)
                        }
                    },
                }
            },
        }
    }

    /// Resolves `command` starting at the deepest branch.
    pub fn change_focus(&self, command: Command) -> (r: Event<T>) where T: Located + Copy
        requires
            self.wf(),
        ensures
            ({
                let cb = self.branches@.len() - 1;
                match Direction::spec_from_command(command) {
                    None => r == (Event::Caught {
                        container: self.branches@[cb].nav_node,
                        focused: spec_focused(*self),
                        command,
                    }),
                    Some(dir) => match spec_resolving_branch(*self, dir, cb) {
                        None => r == (Event::Uncaught { focused: spec_focused(*self), command }),
                        Some(b) => {
                            let br = self.branches@[b];
                            let focused_b = br.focusables@[br.active as int];
                            match r {
                                Event::FocusChanged { to, disactivated } => Some(to)
                                    == focused_b.spec_closest(dir, br.focusables@)
                                    && disactivated@ == spec_trail(*self, b),
                                _ => false,
                            }
                        },
                    },
                }
            }),
    {
        let last_branch = self.branches.len() - 1;
        self.change_focus_at(command, last_branch)
    }
}

} // verus!
