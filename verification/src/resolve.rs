//! The resolution algorithm for the navigation system.
//!
//! [`resolve`] finds the event produced by one navigation request, given
//! the focused node and a read-only snapshot of the navigation graph. It
//! is a pure function: applying the event to the graph is the mutator's
//! job (see [`crate::state`]).
use vstd::prelude::*;

use non_empty_vec::NonEmpty;

use crate::events::Direction;
use crate::events::EventModel;
use crate::events::NavEvent;
use crate::events::NavRequest;
use crate::events::ScopeDirection;
use crate::graph::NavGraph;
use crate::nevec::ne_contents;
use crate::nevec::ne_equal;
use crate::nevec::ne_from_first_vec;
use crate::nevec::ne_from_vec_last;
use crate::nevec::ne_get;
use crate::nevec::ne_len;
use crate::nevec::ne_new;
use crate::nevec::ne_push;
use crate::nevec::ne_truncate;
use crate::strategy::MenuNavigationStrategy;

verus! {

/// State of a [`Focusable`].
#[derive(Debug, PartialEq, Eq, Structural, Clone, Copy)]
pub enum FocusState {
    /// A node that was previously active in a menu branch that currently
    /// is not focused. When focus comes back to the menu containing this
    /// node, the prioritized node is the one that becomes focused.
    Prioritized,
    /// The currently highlighted node; at most one node is focused.
    Focused,
    /// A node on the breadcrumb path from the root menu to the focused
    /// node.
    Active,
    /// Excluded from all interaction until unblocked.
    Blocked,
    /// None of the above.
    Inert,
}

/// The action triggered by activating a [`Focusable`].
#[derive(Debug, PartialEq, Eq, Structural, Clone, Copy)]
pub enum FocusAction {
    /// Acts as a standard navigation node: entering the menu reachable
    /// from it, if any.
    Normal,
    /// An `Action` request on this node acts as a `Cancel` request.
    Cancel,
    /// An `Action` request on this node freezes the navigation system
    /// until an `Unlock` request arrives.
    Lock,
}

/// A node that can be navigated to.
#[derive(Debug, PartialEq, Eq, Structural, Clone, Copy)]
pub struct Focusable {
    pub state: FocusState,
    pub action: FocusAction,
}

impl Focusable {
    /// An inert focusable with the normal action.
    pub fn new() -> (r: Focusable)
        ensures
            r == (Focusable { state: FocusState::Inert, action: FocusAction::Normal }),
    {
        Focusable { state: FocusState::Inert, action: FocusAction::Normal }
    }

    /// The state of this focusable.
    pub fn state(&self) -> (r: FocusState)
        ensures
            r == self.state,
    {
        self.state
    }

    /// The action of this focusable.
    pub fn action(&self) -> (r: FocusAction)
        ensures
            r == self.action,
    {
        self.action
    }

    /// A "cancel" focusable: activating it acts as a `Cancel` request.
    pub fn cancel() -> (r: Focusable)
        ensures
            r == (Focusable { state: FocusState::Inert, action: FocusAction::Cancel }),
    {
        Focusable { state: FocusState::Inert, action: FocusAction::Cancel }
    }

    /// A "lock" focusable: activating it locks the navigation system.
    pub fn lock() -> (r: Focusable)
        ensures
            r == (Focusable { state: FocusState::Inert, action: FocusAction::Lock }),
    {
        Focusable { state: FocusState::Inert, action: FocusAction::Lock }
    }

    /// This focusable, highlighted in priority when its menu is first
    /// entered.
    pub fn prioritized(self) -> (r: Focusable)
        ensures
            r == (Focusable { state: FocusState::Prioritized, action: self.action }),
    {
        Focusable { state: FocusState::Prioritized, ..self }
    }

    /// This focusable, excluded from selection until unblocked.
    pub fn blocked(self) -> (r: Focusable)
        ensures
            r == (Focusable { state: FocusState::Blocked, action: self.action }),
    {
        Focusable { state: FocusState::Blocked, ..self }
    }

    /// Prevents this focusable from gaining focus until it is unblocked.
    ///
    /// Does nothing when the node is active or focused; returns whether
    /// the node was actually blocked (its state was inert or prioritized).
    pub fn block(&mut self) -> (r: bool)
        ensures
            r == (old(self).state == FocusState::Inert || old(self).state
                == FocusState::Prioritized),
            r ==> *final(self) == (Focusable { state: FocusState::Blocked, action: old(self).action }),
            !r ==> *final(self) == *old(self),
    {
        let blockable = matches!(self.state, FocusState::Inert | FocusState::Prioritized);
        if blockable {
            self.state = FocusState::Blocked;
        }
        blockable
    }

    /// Allows this focusable to gain focus again, setting it inert.
    ///
    /// Returns whether the node was blocked.
    pub fn unblock(&mut self) -> (r: bool)
        ensures
            r == (old(self).state == FocusState::Blocked),
            r ==> *final(self) == (Focusable { state: FocusState::Inert, action: old(self).action }),
            !r ==> *final(self) == *old(self),
    {
        if matches!(self.state, FocusState::Blocked) {
            self.state = FocusState::Inert;
            true
        } else {
            false
        }
    }
}

/// The currently focused node, as a marker value hosts can attach to
/// their own bookkeeping.
#[derive(Debug, PartialEq, Eq, Structural, Clone, Copy)]
pub struct Focused;

/// The reason why the navigation system is locked.
#[derive(Debug, PartialEq, Eq, Structural, Clone, Copy)]
pub enum LockReason {
    /// Navigation was locked by activating a lock focusable.
    Focusable(usize),
    /// Navigation was locked by a `Lock` request.
    NavRequest,
}

/// The navigation system's lock.
///
/// While locked, the navigation system handles no request but `Unlock`.
#[derive(Debug)]
pub struct NavLock {
    pub lock_reason: Option<LockReason>,
}

impl NavLock {
    /// An unlocked lock.
    pub fn new() -> (r: NavLock)
        ensures
            r.lock_reason is None,
    {
        NavLock { lock_reason: None }
    }

    /// The reason why navigation is locked, `None` if currently unlocked.
    pub fn reason(&self) -> (r: Option<LockReason>)
        ensures
            r == self.lock_reason,
    {
        self.lock_reason
    }

    /// Whether the navigation system is locked.
    pub fn is_locked(&self) -> (r: bool)
        ensures
            r == self.lock_reason is Some,
    {
        self.lock_reason.is_some()
    }
}

/// A fatal configuration error: the menu graph was misdeclared.
#[derive(Debug, PartialEq, Eq, Structural, Clone, Copy)]
pub enum NavError {
    /// A cycle in the focus-parent relation was detected; resolution
    /// stops instead of looping forever.
    Cycle,
    /// Resolution was asked to start from, or bubble through, a node
    /// that is not a focusable.
    NotFocusable,
    /// A menu has no focusable to give focus to.
    EmptyMenu,
}

/// The focusable whose activation leads into the menu containing `x`:
/// one step of the breadcrumb ascent.
pub open spec fn spec_next_focus_parent(g: NavGraph, x: usize) -> Option<usize> {
    match g.spec_parent_menu(x as int) {
        Some(m) => g.spec_tree(m as int).focus_parent,
        None => None,
    }
}

/// Extends the breadcrumb `acc` (which already ends at its last node)
/// by ascending focus-parent links until a root is reached, erring on a
/// revisited node.
pub open spec fn spec_root_path_from(g: NavGraph, acc: Seq<usize>) -> Result<Seq<usize>, NavError>
    decreases g.len() as int - acc.len() as int,
{
    if acc.len() == 0 {
        Err(NavError::Cycle)
    } else {
        match spec_next_focus_parent(g, acc.last()) {
            None => Ok(acc),
            Some(fp) => if acc.contains(fp) || acc.len() >= g.len() {
                Err(NavError::Cycle)
            } else {
                spec_root_path_from(g, acc.push(fp))
            },
        }
    }
}

/// The breadcrumb from `from` to the conceptual root, most specific
/// first, built by ascending focus-parent links; a cycle is a fatal
/// error.
pub open spec fn spec_root_path(g: NavGraph, from: usize) -> Result<Seq<usize>, NavError> {
    spec_root_path_from(g, seq![from])
}

/// The length of the longest common suffix of two breadcrumbs.
pub open spec fn spec_common_suffix_len(a: Seq<usize>, b: Seq<usize>) -> int
    decreases a.len(),
{
    if a.len() == 0 || b.len() == 0 {
        0
    } else if a.last() == b.last() {
        1 + spec_common_suffix_len(a.drop_last(), b.drop_last())
    } else {
        0
    }
}

/// Both breadcrumbs with their longest common suffix removed — unless
/// one of them is entirely a suffix of the other, in which case both
/// are kept whole.
pub open spec fn spec_trim_pair(a: Seq<usize>, b: Seq<usize>) -> (Seq<usize>, Seq<usize>) {
    let c = spec_common_suffix_len(a, b);
    if c < a.len() && c < b.len() {
        (a.take(a.len() - c), b.take(b.len() - c))
    } else {
        (a, b)
    }
}

/// The index reached from `from` by one scope step, `None` at a
/// non-cycling boundary.
pub open spec fn spec_resolve_index(
    from: usize,
    cycles: bool,
    direction: ScopeDirection,
    max_value: usize,
) -> Option<usize> {
    match direction {
        ScopeDirection::Previous => if from == 0 {
            if cycles {
                Some(max_value)
            } else {
                None
            }
        } else {
            Some((from - 1) as usize)
        },
        ScopeDirection::Next => if from == max_value {
            if cycles {
                Some(0usize)
            } else {
                None
            }
        } else {
            Some((from + 1) as usize)
        },
    }
}

/// The first index at or after `k` where `s` holds `x`.
pub open spec fn spec_position(s: Seq<usize>, x: usize, k: int) -> Option<int>
    decreases s.len() as int - k,
{
    if 0 <= k < s.len() {
        if s[k] == x {
            Some(k)
        } else {
            spec_position(s, x, k + 1)
        }
    } else {
        None
    }
}

/// The sibling reached from `focused` by one scope step through
/// `siblings`.
pub open spec fn spec_resolve_scope(
    siblings: Seq<usize>,
    focused: usize,
    direction: ScopeDirection,
    cycles: bool,
) -> Option<usize> {
    match spec_position(siblings, focused, 0) {
        None => None,
        Some(i) => match spec_resolve_index(
            i as usize,
            cycles,
            direction,
            (siblings.len() - 1) as usize,
        ) {
            None => None,
            Some(j) => if j < siblings.len() {
                Some(siblings[j as int])
            } else {
                None
            },
        },
    }
}

/// Descends through cached active children below `menu`, accumulating
/// the path deepest-first in front of `acc`; runs out of fuel only on a
/// cyclic menu graph.
pub open spec fn spec_focus_deep_rec(g: NavGraph, menu: usize, acc: Seq<usize>, fuel: nat) -> Result<
    Seq<usize>,
    NavError,
>
    decreases fuel,
{
    if fuel == 0 {
        Err(NavError::Cycle)
    } else if !g.spec_is_menu_ready(menu as int) {
        Err(NavError::Cycle)
    } else {
        let last = g.spec_tree(menu as int).active_child;
        let acc2 = seq![last] + acc;
        match g.spec_child_menu(last) {
            Some(m2) => spec_focus_deep_rec(g, m2, acc2, (fuel - 1) as nat),
            None => Ok(acc2),
        }
    }
}

/// The path of active children below `menu`, deepest first.
pub open spec fn spec_focus_deep(g: NavGraph, menu: usize) -> Result<Seq<usize>, NavError> {
    spec_focus_deep_rec(g, menu, Seq::empty(), g.len() + 1)
}

/// The non-blocked focusables of the whole graph from id `k` on, in id
/// order: the implicit sibling set when no menu exists.
pub open spec fn spec_all_unblocked_from(g: NavGraph, k: int) -> Seq<usize>
    decreases g.len() as int - k,
{
    if 0 <= k < g.len() {
        let rest = spec_all_unblocked_from(g, k + 1);
        if g.spec_in_sibling_set(k as usize) {
            seq![k as usize] + rest
        } else {
            rest
        }
    } else {
        Seq::empty()
    }
}

/// The non-blocked focusables of the whole graph, in id order.
pub open spec fn spec_all_unblocked(g: NavGraph) -> Seq<usize> {
    spec_all_unblocked_from(g, 0)
}

/// The event produced by resolving `request` from `focused`, and the
/// lock state afterwards — the functional model of [`resolve`].
///
/// `from` is the breadcrumb already traversed by outer resolutions
/// (empty at the driving loop's call); revisiting a node in it is the
/// fatal cycle error.
pub open spec fn spec_resolve<S: MenuNavigationStrategy>(
    g: NavGraph,
    stgy: S,
    focused: usize,
    request: NavRequest,
    lock: Option<LockReason>,
    from: Seq<usize>,
) -> Result<(EventModel, Option<LockReason>), NavError>
    decreases g.len() as int - from.len() as int,
{
    if !g.spec_is_focusable(focused as int) {
        Err(NavError::NotFocusable)
    } else if from.contains(focused) || from.len() >= g.len() {
        Err(NavError::Cycle)
    } else {
        let fromf = from.push(focused);
        match request {
            NavRequest::Lock => if lock is Some {
                Ok((EventModel::NoChanges { from: fromf, request }, lock))
            } else {
                Ok(
                    (
                        EventModel::Locked(LockReason::NavRequest),
                        Some(LockReason::NavRequest),
                    ),
                )
            },
            NavRequest::Move(direction) => match g.spec_parent_menu(focused as int) {
                Some(m) => if g.spec_menu(m as int).setting.scope {
                    Ok((EventModel::NoChanges { from: fromf, request }, lock))
                } else {
                    let siblings = g.spec_focusables_of(m as int);
                    let cycles = g.spec_menu(m as int).setting.wrapping;
                    match stgy.spec_resolve_2d(focused, direction, cycles, siblings) {
                        Some(to) => Ok(
                            (EventModel::FocusChanged { to: seq![to], from: fromf }, lock),
                        ),
                        None => Ok((EventModel::NoChanges { from: fromf, request }, lock)),
                    }
                },
                None => {
                    let siblings = spec_all_unblocked(g);
                    match stgy.spec_resolve_2d(focused, direction, true, siblings) {
                        Some(to) => Ok(
                            (EventModel::FocusChanged { to: seq![to], from: fromf }, lock),
                        ),
                        None => Ok((EventModel::NoChanges { from: fromf, request }, lock)),
                    }
                },
            },
            NavRequest::Cancel => match spec_next_focus_parent(g, focused) {
                None => Ok((EventModel::NoChanges { from: fromf, request }, lock)),
                Some(fp) => Ok(
                    (EventModel::FocusChanged { to: seq![fp], from: fromf.push(fp) }, lock),
                ),
            },
            NavRequest::Action => {
                let act = g.spec_focusable(focused as int).action;
                match act {
                    // an action on a cancel focusable is re-resolved as a
                    // `Cancel` request, so its dead end reports `Cancel`
                    FocusAction::Cancel => match spec_next_focus_parent(g, focused) {
                        None => Ok(
                            (
                                EventModel::NoChanges { from: fromf, request: NavRequest::Cancel },
                                lock,
                            ),
                        ),
                        Some(fp) => Ok(
                            (
                                EventModel::FocusChanged { to: seq![fp], from: fromf.push(fp) },
                                lock,
                            ),
                        ),
                    },
                    FocusAction::Lock => Ok(
                        (
                            EventModel::Locked(LockReason::Focusable(focused)),
                            Some(LockReason::Focusable(focused)),
                        ),
                    ),
                    FocusAction::Normal => match g.spec_child_menu(focused) {
                        None => Ok((EventModel::NoChanges { from: fromf, request }, lock)),
                        Some(m) => {
                            let ac = g.spec_tree(m as int).active_child;
                            Ok(
                                (
                                    EventModel::FocusChanged { to: seq![ac] + fromf, from: fromf },
                                    lock,
                                ),
                            )
                        },
                    },
                }
            },
            NavRequest::ScopeMove(sdir) => match g.spec_parent_menu(focused as int) {
                None => Ok((EventModel::NoChanges { from: fromf, request }, lock)),
                Some(m) => {
                    let setting = g.spec_menu(m as int).setting;
                    if !setting.scope {
                        match g.spec_tree(m as int).focus_parent {
                            None => Ok((EventModel::NoChanges { from: fromf, request }, lock)),
                            Some(fp) => spec_resolve(g, stgy, fp, request, lock, fromf),
                        }
                    } else {
                        let siblings = g.spec_focusables_of(m as int);
                        let cycles = setting.wrapping;
                        match spec_resolve_scope(siblings, focused, sdir, cycles) {
                            None => Ok((EventModel::NoChanges { from: fromf, request }, lock)),
                            Some(to) => match g.spec_child_menu(to) {
                                None => Ok(
                                    (
                                        EventModel::FocusChanged { to: seq![to], from: fromf },
                                        lock,
                                    ),
                                ),
                                Some(m2) => match spec_focus_deep(g, m2) {
                                    Ok(extra) => Ok(
                                        (
                                            EventModel::FocusChanged {
                                                to: extra.push(to),
                                                from: fromf,
                                            },
                                            lock,
                                        ),
                                    ),
                                    Err(e) => Err(e),
                                },
                            },
                        }
                    }
                },
            },
            NavRequest::FocusOn(target) => match spec_root_path(g, focused) {
                Err(e) => Err(e),
                Ok(p_from) => match spec_root_path(g, target) {
                    Err(e) => Err(e),
                    Ok(p_to) => {
                        let trimmed = spec_trim_pair(p_from, p_to);
                        if trimmed.0 == trimmed.1 {
                            Ok((EventModel::NoChanges { from: trimmed.0, request }, lock))
                        } else {
                            Ok(
                                (
                                    EventModel::FocusChanged { from: trimmed.0, to: trimmed.1 },
                                    lock,
                                ),
                            )
                        }
                    },
                },
            },
            NavRequest::Unlock => match lock {
                Some(reason) => Ok((EventModel::Unlocked(reason), None)),
                None => Ok((EventModel::NoChanges { from: fromf, request }, lock)),
            },
        }
    }
}

/// Sequences of distinct node ids below `n` have at most `n` elements.
pub proof fn lemma_distinct_ids_bound(s: Seq<usize>, n: nat)
    requires
        s.no_duplicates(),
        forall|i: int| 0 <= i < s.len() ==> (#[trigger] s[i] as nat) < n,
    ensures
        s.len() <= n,
{
    broadcast use vstd::seq_lib::group_seq_properties;

    let t = s.map_values(|x: usize| x as int);
    assert(t.no_duplicates()) by {
        assert forall|i: int, j: int|
            (0 <= i < t.len() && 0 <= j < t.len() && i != j) implies t[i] != t[j] by {
            assert(s[i] != s[j]);
        }
    }
    t.unique_seq_to_set();
    assert(t.to_set().subset_of(vstd::set_lib::set_int_range(0, n as int))) by {
        assert forall|x: int| t.to_set().contains(x) implies vstd::set_lib::set_int_range(
            0,
            n as int,
        ).contains(x) by {
            let i = choose|i: int| 0 <= i < t.len() && t[i] == x;
            assert((s[i] as nat) < n);
        }
    }
    vstd::set_lib::lemma_int_range(0, n as int);
    vstd::set_lib::lemma_len_subset(t.to_set(), vstd::set_lib::set_int_range(0, n as int));
}

/// Members of the implicit rootless sibling set are non-blocked
/// focusables of the graph.
pub proof fn lemma_all_unblocked_members(g: NavGraph, k: int)
    ensures
        forall|i: int|
            0 <= i < spec_all_unblocked_from(g, k).len() ==> g.spec_in_sibling_set(
                #[trigger] spec_all_unblocked_from(g, k)[i],
            ),
    decreases g.len() as int - k,
{
    if 0 <= k < g.len() {
        lemma_all_unblocked_members(g, k + 1);
        let rest = spec_all_unblocked_from(g, k + 1);
        let cur = spec_all_unblocked_from(g, k);
        if g.spec_in_sibling_set(k as usize) {
            assert forall|i: int| 0 <= i < cur.len() implies g.spec_in_sibling_set(
                #[trigger] cur[i],
            ) by {
                assert(cur == seq![k as usize] + rest);
                if i == 0 {
                    assert(cur[0] == k as usize);
                } else {
                    assert(cur[i] == rest[i - 1]);
                }
            }
        } else {
            assert(cur == rest);
        }
    }
}

/// The nodes collected by a deep descent are all inside the graph.
pub proof fn lemma_focus_deep_bounds(g: NavGraph, menu: usize, acc: Seq<usize>, fuel: nat)
    requires
        g.wf(),
        forall|i: int| 0 <= i < acc.len() ==> (#[trigger] acc[i] as int) < g.len(),
    ensures
        match spec_focus_deep_rec(g, menu, acc, fuel) {
            Ok(p) => forall|i: int| 0 <= i < p.len() ==> (#[trigger] p[i] as int) < g.len(),
            Err(_) => true,
        },
    decreases fuel,
{
    if fuel == 0 {
    } else if !g.spec_is_menu_ready(menu as int) {
    } else {
        assert(g.wf_node(menu as int));
        let last = g.spec_tree(menu as int).active_child;
        let acc2 = seq![last] + acc;
        assert forall|i: int| 0 <= i < acc2.len() implies (#[trigger] acc2[i] as int)
            < g.len() by {
            if i == 0 {
                assert(acc2[0] == last);
            } else {
                assert(acc2[i] == acc[i - 1]);
            }
        }
        match g.spec_child_menu(last) {
            Some(m2) => {
                lemma_focus_deep_bounds(g, m2, acc2, (fuel - 1) as nat);
            },
            None => {},
        }
    }
}

/// The longest common suffix is no longer than either breadcrumb.
pub proof fn lemma_common_suffix_len_bounds(a: Seq<usize>, b: Seq<usize>)
    ensures
        0 <= spec_common_suffix_len(a, b),
        spec_common_suffix_len(a, b) <= a.len(),
        spec_common_suffix_len(a, b) <= b.len(),
    decreases a.len(),
{
    if a.len() == 0 || b.len() == 0 {
    } else if a.last() == b.last() {
        lemma_common_suffix_len_bounds(a.drop_last(), b.drop_last());
    }
}

/// Within the longest common suffix, the two breadcrumbs hold the
/// same nodes, counted from their ends.
pub proof fn lemma_common_suffix_matches(a: Seq<usize>, b: Seq<usize>)
    ensures
        forall|j: int|
            0 <= j < spec_common_suffix_len(a, b) ==> #[trigger] a[a.len() - 1 - j] == b[b.len()
                - 1 - j],
    decreases a.len(),
{
    if a.len() == 0 || b.len() == 0 {
    } else if a.last() == b.last() {
        lemma_common_suffix_matches(a.drop_last(), b.drop_last());
        lemma_common_suffix_len_bounds(a.drop_last(), b.drop_last());
        let c = spec_common_suffix_len(a, b);
        assert forall|j: int| 0 <= j < c implies #[trigger] a[a.len() - 1 - j] == b[b.len() - 1
            - j] by {
            if j > 0 {
                assert(a.drop_last()[a.drop_last().len() - 1 - (j - 1)] == b.drop_last()[b.drop_last().len() - 1 - (j - 1)]);
                assert(a.drop_last()[a.len() - 1 - j] == a[a.len() - 1 - j]);
                assert(b.drop_last()[b.len() - 1 - j] == b[b.len() - 1 - j]);
            }
        }
    }
}

/// The breadcrumb built by the root-path ascent keeps its seed as a
/// prefix, and every node it adds is inside the graph.
pub proof fn lemma_root_path_from_props(g: NavGraph, acc: Seq<usize>)
    requires
        g.wf(),
    ensures
        match spec_root_path_from(g, acc) {
            Ok(p) => p.len() >= acc.len() && (forall|i: int|
                0 <= i < acc.len() ==> p[i] == acc[i]) && (forall|i: int|
                acc.len() <= i < p.len() ==> (#[trigger] p[i] as int) < g.len()),
            Err(_) => true,
        },
    decreases g.len() as int - acc.len() as int,
{
    if acc.len() == 0 {
    } else {
        match spec_next_focus_parent(g, acc.last()) {
            None => {},
            Some(fp) => {
                if acc.contains(fp) || acc.len() >= g.len() {
                } else {
                    g.lemma_parent_menu_ready(acc.last() as int);
                    let m = g.spec_parent_menu(acc.last() as int)->0;
                    assert(g.wf_node(m as int));
                    assert((fp as int) < g.len());
                    lemma_root_path_from_props(g, acc.push(fp));
                }
            },
        }
    }
}

/// Two ascents starting over the same node climb through the same
/// nodes, whatever breadcrumbs seeded them — as long as both succeed.
pub proof fn lemma_root_path_reseed(g: NavGraph, a: Seq<usize>, b: Seq<usize>)
    requires
        g.wf(),
        a.len() >= 1,
        b.len() >= 1,
        a.last() == b.last(),
    ensures
        match (spec_root_path_from(g, a), spec_root_path_from(g, b)) {
            (Ok(pa), Ok(pb)) => pa.skip(a.len() as int) == pb.skip(b.len() as int),
            _ => true,
        },
    decreases g.len() as int - a.len() as int,
{
    match spec_next_focus_parent(g, a.last()) {
        None => {
            assert(spec_root_path_from(g, a) == Ok::<Seq<usize>, NavError>(a));
            assert(spec_root_path_from(g, b) == Ok::<Seq<usize>, NavError>(b));
            assert(a.skip(a.len() as int) =~= b.skip(b.len() as int));
        },
        Some(fp) => {
            if a.contains(fp) || a.len() >= g.len() || b.contains(fp) || b.len() >= g.len() {
            } else {
                lemma_root_path_reseed(g, a.push(fp), b.push(fp));
                lemma_root_path_from_props(g, a.push(fp));
                lemma_root_path_from_props(g, b.push(fp));
                match (spec_root_path_from(g, a), spec_root_path_from(g, b)) {
                    (Ok(pa), Ok(pb)) => {
                        assert(pa[a.len() as int] == a.push(fp)[a.len() as int]);
                        assert(pa[a.len() as int] == fp);
                        assert(pb[b.len() as int] == fp);
                        assert(pa.skip(a.len() as int) =~= seq![fp] + pa.skip(a.len() as int + 1));
                        assert(pb.skip(b.len() as int) =~= seq![fp] + pb.skip(b.len() as int + 1));
                    },
                    _ => {},
                }
            }
        },
    }
}

/// Shape of a focus-changed resolution: non-empty breadcrumbs whose
/// nodes lie inside the graph, headed by the node resolution started
/// from, with the lock untouched.
pub proof fn lemma_resolve_event_shape<S: MenuNavigationStrategy>(
    g: NavGraph,
    stgy: S,
    focused: usize,
    request: NavRequest,
    lock: Option<LockReason>,
    from: Seq<usize>,
)
    requires
        g.wf(),
        forall|i: int| 0 <= i < from.len() ==> (#[trigger] from[i] as int) < g.len(),
        match request {
            NavRequest::FocusOn(t) => (t as int) < g.len(),
            _ => true,
        },
    ensures
        match spec_resolve(g, stgy, focused, request, lock, from) {
            Ok(pair) => match pair.0 {
                EventModel::FocusChanged { from: fr, to } => fr.len() >= 1 && to.len() >= 1 && (
                match request {
                    NavRequest::FocusOn(_) => from.len() == 0 ==> fr[0] == focused,
                    _ => fr[0] == if from.len() > 0 {
                        from[0]
                    } else {
                        focused
                    },
                }) && (forall|i: int|
                    0 <= i < fr.len() ==> (#[trigger] fr[i] as int) < g.len()) && (forall|i: int|
                    0 <= i < to.len() ==> (#[trigger] to[i] as int) < g.len()) && pair.1 == lock,
                _ => true,
            },
            Err(_) => true,
        },
    decreases g.len() as int - from.len() as int,
{
    if !g.spec_is_focusable(focused as int) {
        return ;
    }
    if from.contains(focused) || from.len() >= g.len() {
        return ;
    }
    let fromf = from.push(focused);
    assert forall|i: int| 0 <= i < fromf.len() implies (#[trigger] fromf[i] as int) < g.len() by {
        if i < from.len() {
            assert(fromf[i] == from[i]);
        } else {
            assert(fromf[i] == focused);
        }
    }
    match request {
        NavRequest::Lock => {},
        NavRequest::Move(direction) => {
            g.lemma_parent_menu_ready(focused as int);
            match g.spec_parent_menu(focused as int) {
                Some(m) => {
                    if !g.spec_menu(m as int).setting.scope {
                        let siblings = g.spec_focusables_of(m as int);
                        let cycles = g.spec_menu(m as int).setting.wrapping;
                        stgy.lemma_resolve_2d_members(focused, direction, cycles, siblings);
                        g.lemma_focusables_of_members(m as int);
                        match stgy.spec_resolve_2d(focused, direction, cycles, siblings) {
                            Some(to) => {
                                let i = choose|i: int|
                                    0 <= i < siblings.len() && siblings[i] == to;
                                assert(g.spec_in_sibling_set(siblings[i]));
                            },
                            None => {},
                        }
                    }
                },
                None => {
                    let siblings = spec_all_unblocked(g);
                    stgy.lemma_resolve_2d_members(focused, direction, true, siblings);
                    lemma_all_unblocked_members(g, 0);
                    match stgy.spec_resolve_2d(focused, direction, true, siblings) {
                        Some(to) => {
                            let i = choose|i: int| 0 <= i < siblings.len() && siblings[i] == to;
                            assert(g.spec_in_sibling_set(siblings[i]));
                        },
                        None => {},
                    }
                },
            }
        },
        NavRequest::Cancel => {
            g.lemma_parent_menu_ready(focused as int);
            match g.spec_parent_menu(focused as int) {
                Some(m) => {
                    assert(g.wf_node(m as int));
                    match g.spec_tree(m as int).focus_parent {
                        Some(fp) => {
                            assert forall|i: int|
                                0 <= i < fromf.push(fp).len() implies (#[trigger] fromf.push(
                                fp,
                            )[i] as int) < g.len() by {
                                if i < fromf.len() {
                                    assert(fromf.push(fp)[i] == fromf[i]);
                                } else {
                                    assert(fromf.push(fp)[i] == fp);
                                }
                            }
                        },
                        None => {},
                    }
                },
                None => {},
            }
        },
        NavRequest::Action => {
            let act = g.spec_focusable(focused as int).action;
            match act {
                FocusAction::Cancel => {
                    g.lemma_parent_menu_ready(focused as int);
                    match g.spec_parent_menu(focused as int) {
                        Some(m) => {
                            assert(g.wf_node(m as int));
                            match g.spec_tree(m as int).focus_parent {
                                Some(fp) => {
                                    assert forall|i: int|
                                        0 <= i < fromf.push(fp).len() implies (
                                    #[trigger] fromf.push(fp)[i] as int) < g.len() by {
                                        if i < fromf.len() {
                                            assert(fromf.push(fp)[i] == fromf[i]);
                                        } else {
                                            assert(fromf.push(fp)[i] == fp);
                                        }
                                    }
                                },
                                None => {},
                            }
                        },
                        None => {},
                    }
                },
                FocusAction::Lock => {},
                FocusAction::Normal => {
                    g.lemma_child_menu_ready(focused, 0);
                    match g.spec_child_menu(focused) {
                        Some(m) => {
                            assert(g.wf_node(m as int));
                            let ac = g.spec_tree(m as int).active_child;
                            let to = seq![ac] + fromf;
                            assert forall|i: int| 0 <= i < to.len() implies (
                            #[trigger] to[i] as int) < g.len() by {
                                if i == 0 {
                                    assert(to[0] == ac);
                                } else {
                                    assert(to[i] == fromf[i - 1]);
                                }
                            }
                        },
                        None => {},
                    }
                },
            }
        },
        NavRequest::ScopeMove(sdir) => {
            g.lemma_parent_menu_ready(focused as int);
            match g.spec_parent_menu(focused as int) {
                None => {},
                Some(m) => {
                    let setting = g.spec_menu(m as int).setting;
                    if !setting.scope {
                        assert(g.wf_node(m as int));
                        match g.spec_tree(m as int).focus_parent {
                            None => {},
                            Some(fp) => {
                                lemma_resolve_event_shape(g, stgy, fp, request, lock, fromf);
                            },
                        }
                    } else {
                        let siblings = g.spec_focusables_of(m as int);
                        g.lemma_focusables_of_members(m as int);
                        let cycles = setting.wrapping;
                        match spec_resolve_scope(siblings, focused, sdir, cycles) {
                            None => {},
                            Some(to) => {
                                assert((to as int) < g.len()) by {
                                    match spec_position(siblings, focused, 0) {
                                        Some(i) => {
                                            match spec_resolve_index(
                                                i as usize,
                                                cycles,
                                                sdir,
                                                (siblings.len() - 1) as usize,
                                            ) {
                                                Some(j) => {
                                                    assert(g.spec_in_sibling_set(
                                                        siblings[j as int],
                                                    ));
                                                },
                                                None => {},
                                            }
                                        },
                                        None => {},
                                    }
                                }
                                g.lemma_child_menu_ready(to, 0);
                                match g.spec_child_menu(to) {
                                    None => {},
                                    Some(m2) => {
                                        lemma_focus_deep_bounds(g, m2, Seq::empty(), g.len() + 1);
                                        match spec_focus_deep(g, m2) {
                                            Ok(extra) => {
                                                let tox = extra.push(to);
                                                assert forall|i: int|
                                                    0 <= i < tox.len() implies (
                                                #[trigger] tox[i] as int) < g.len() by {
                                                    if i < extra.len() {
                                                        assert(tox[i] == extra[i]);
                                                    } else {
                                                        assert(tox[i] == to);
                                                    }
                                                }
                                            },
                                            Err(_) => {},
                                        }
                                    },
                                }
                            },
                        }
                    }
                },
            }
        },
        NavRequest::FocusOn(target) => {
            lemma_root_path_from_props(g, seq![focused]);
            lemma_root_path_from_props(g, seq![target]);
            match spec_root_path(g, focused) {
                Err(_) => {},
                Ok(p_from) => {
                    match spec_root_path(g, target) {
                        Err(_) => {},
                        Ok(p_to) => {
                            assert(p_from[0] == focused);
                            assert(p_to[0] == target);
                            assert(p_from.len() >= 1 && p_to.len() >= 1);
                            assert forall|i: int|
                                0 <= i < p_from.len() implies (#[trigger] p_from[i] as int)
                                < g.len() by {
                                if i == 0 {
                                    assert(p_from[0] == focused);
                                }
                            }
                            assert forall|i: int|
                                0 <= i < p_to.len() implies (#[trigger] p_to[i] as int)
                                < g.len() by {
                                if i == 0 {
                                    assert(p_to[0] == target);
                                }
                            }
                            let trimmed = spec_trim_pair(p_from, p_to);
                            let c = spec_common_suffix_len(p_from, p_to);
                            lemma_common_suffix_len_bounds(p_from, p_to);
                            if c < p_from.len() && c < p_to.len() {
                                assert(trimmed.0 == p_from.take(p_from.len() - c));
                                assert(trimmed.1 == p_to.take(p_to.len() - c));
                                assert(trimmed.0[0] == p_from[0]);
                                assert forall|i: int|
                                    0 <= i < trimmed.0.len() implies (
                                #[trigger] trimmed.0[i] as int) < g.len() by {
                                    assert(trimmed.0[i] == p_from[i]);
                                }
                                assert forall|i: int|
                                    0 <= i < trimmed.1.len() implies (
                                #[trigger] trimmed.1[i] as int) < g.len() by {
                                    assert(trimmed.1[i] == p_to[i]);
                                }
                            }
                        },
                    }
                },
            }
        },
        NavRequest::Unlock => {},
    }
}

/// Whether `v` holds `x`.
fn vec_contains(v: &Vec<usize>, x: usize) -> (r: bool)
    ensures
        r == v@.contains(x),
{
    let n = v.len();
    let mut i: usize = 0;
    while i < n
        invariant
            n == v@.len(),
            0 <= i <= n,
            forall|j: int| 0 <= j < i ==> v@[j] != x,
        decreases n - i,
    {
        if v[i] == x {
            return true;
        }
        i = i + 1;
    }
    false
}

/// A copy of a vector of node ids.
fn copy_ids(v: &Vec<usize>) -> (r: Vec<usize>)
    ensures
        r@ == v@,
{
    let n = v.len();
    let mut out: Vec<usize> = Vec::new();
    let mut i: usize = 0;
    while i < n
        invariant
            n == v@.len(),
            0 <= i <= n,
            out@ == v@.take(i as int),
        decreases n - i,
    {
        out.push(v[i]);
        proof {
            assert(out@ =~= v@.take(i as int + 1));
        }
        i = i + 1;
    }
    proof {
        assert(out@ =~= v@);
    }
    out
}

/// The first index where `v` holds `x`.
fn position_of(v: &Vec<usize>, x: usize) -> (r: Option<usize>)
    ensures
        match r {
            Some(i) => spec_position(v@, x, 0) == Some(i as int) && i < v@.len(),
            None => spec_position(v@, x, 0) is None,
        },
{
    let n = v.len();
    let mut i: usize = 0;
    while i < n
        invariant
            n == v@.len(),
            0 <= i <= n,
            spec_position(v@, x, 0) == spec_position(v@, x, i as int),
        decreases n - i,
    {
        if v[i] == x {
            return Some(i);
        }
        assert(spec_position(v@, x, i as int) == spec_position(v@, x, i as int + 1));
        i = i + 1;
    }
    None
}

/// Cycles through a scoped menu according to the menu settings.
///
/// Returns the index to focus when moving in `direction` from `from`:
/// one step forward or backward, wrapping past `0` or `max_value` only
/// if `cycles`, a dead end otherwise.
pub fn resolve_index(from: usize, cycles: bool, direction: ScopeDirection, max_value: usize) -> (r:
    Option<usize>)
    requires
        from <= max_value,
    ensures
        r == spec_resolve_index(from, cycles, direction, max_value),
{
    match direction {
        ScopeDirection::Previous => {
            if from == 0 {
                if cycles {
                    Some(max_value)
                } else {
                    None
                }
            } else {
                Some(from - 1)
            }
        },
        ScopeDirection::Next => {
            if from == max_value {
                if cycles {
                    Some(0)
                } else {
                    None
                }
            } else {
                Some(from + 1)
            }
        },
    }
}

/// Returns the next or previous sibling based on `direction`, `None`
/// when `focused` is not among `siblings` or the move is a dead end.
pub fn resolve_scope(
    siblings: &Vec<usize>,
    focused: usize,
    direction: ScopeDirection,
    cycles: bool,
) -> (r: Option<usize>)
    ensures
        r == spec_resolve_scope(siblings@, focused, direction, cycles),
{
    match position_of(siblings, focused) {
        None => None,
        Some(i) => {
            let max_value = siblings.len() - 1;
            match resolve_index(i, cycles, direction, max_value) {
                None => None,
                Some(j) => if j < siblings.len() {
                    Some(siblings[j])
                } else {
                    None
                },
            }
        },
    }
}

/// Removes the longest common suffix of the two breadcrumbs, leaving
/// both whole when one is entirely a suffix of the other; see
/// [`spec_trim_pair`].
pub fn trim_common_tail(v1: &mut NonEmpty<usize>, v2: &mut NonEmpty<usize>)
    ensures
        ne_contents(*final(v1)) == spec_trim_pair(
            ne_contents(*old(v1)),
            ne_contents(*old(v2)),
        ).0,
        ne_contents(*final(v2)) == spec_trim_pair(
            ne_contents(*old(v1)),
            ne_contents(*old(v2)),
        ).1,
{
    let ghost a = ne_contents(*v1);
    let ghost b = ne_contents(*v2);
    let len1 = ne_len(v1);
    let len2 = ne_len(v2);
    let mut i1 = len1 - 1;
    let mut i2 = len2 - 1;
    proof {
        assert(a.take(len1 as int) =~= a);
        assert(b.take(len2 as int) =~= b);
    }
    loop
        invariant
            a == ne_contents(*old(v1)),
            b == ne_contents(*old(v2)),
            len1 == a.len(),
            len2 == b.len(),
            ne_contents(*v1) == a,
            ne_contents(*v2) == b,
            0 <= i1 < len1,
            0 <= i2 < len2,
            len1 - i1 == len2 - i2,
            spec_common_suffix_len(a, b) == (len1 - 1 - i1) + spec_common_suffix_len(
                a.take(i1 + 1),
                b.take(i2 + 1),
            ),
        decreases i1,
    {
        proof {
            assert(a.take(i1 + 1).last() == a[i1 as int]);
            assert(b.take(i2 + 1).last() == b[i2 as int]);
            assert(a.take(i1 + 1).drop_last() =~= a.take(i1 as int));
            assert(b.take(i2 + 1).drop_last() =~= b.take(i2 as int));
        }
        if ne_get(v1, i1) != ne_get(v2, i2) {
            proof {
                assert(spec_common_suffix_len(a.take(i1 + 1), b.take(i2 + 1)) == 0);
                assert(spec_common_suffix_len(a, b) == len1 - 1 - i1);
                assert(a.take(i1 + 1) =~= a.take(a.len() - spec_common_suffix_len(a, b)));
                assert(b.take(i2 + 1) =~= b.take(b.len() - spec_common_suffix_len(a, b)));
            }
            ne_truncate(v1, i1 + 1);
            ne_truncate(v2, i2 + 1);
            return ;
        } else if i1 != 0 && i2 != 0 {
            proof {
                assert(spec_common_suffix_len(a.take(i1 + 1), b.take(i2 + 1)) == 1
                    + spec_common_suffix_len(a.take(i1 as int), b.take(i2 as int)));
            }
            i1 = i1 - 1;
            i2 = i2 - 1;
        } else {
            proof {
                if i1 == 0 {
                    assert(a.take(i1 + 1).drop_last() =~= Seq::<usize>::empty());
                    assert(spec_common_suffix_len(
                        a.take(i1 + 1).drop_last(),
                        b.take(i2 + 1).drop_last(),
                    ) == 0);
                    assert(spec_common_suffix_len(a.take(i1 + 1), b.take(i2 + 1)) == 1);
                    assert(spec_common_suffix_len(a, b) == len1 - i1);
                    assert(spec_common_suffix_len(a, b) >= a.len());
                } else {
                    assert(i2 == 0);
                    assert(b.take(i2 + 1).drop_last() =~= Seq::<usize>::empty());
                    assert(spec_common_suffix_len(
                        a.take(i1 + 1).drop_last(),
                        b.take(i2 + 1).drop_last(),
                    ) == 0);
                    assert(spec_common_suffix_len(a.take(i1 + 1), b.take(i2 + 1)) == 1);
                    assert(spec_common_suffix_len(a, b) == len2 - i2);
                    assert(spec_common_suffix_len(a, b) >= b.len());
                }
            }
            return ;
        }
    }
}

/// The breadcrumb from `from` to the conceptual root, most specific
/// first, built by ascending focus-parent links; a revisited node is
/// the fatal cycle error.
pub fn root_path(g: &NavGraph, from: usize) -> (r: Result<NonEmpty<usize>, NavError>)
    requires
        g.wf(),
    ensures
        match r {
            Ok(p) => spec_root_path(*g, from) == Ok::<Seq<usize>, NavError>(ne_contents(p)),
            Err(e) => spec_root_path(*g, from) == Err::<Seq<usize>, NavError>(e),
        },
{
    let mut ret = ne_new(from);
    let n = g.count();
    if from >= n {
        return Ok(ret);
    }
    let mut cur = from;
    loop
        invariant
            g.wf(),
            cur < g.len(),
            n == g.len(),
            ne_contents(ret).len() >= 1,
            ne_contents(ret).last() == cur,
            ne_contents(ret).no_duplicates(),
            forall|i: int|
                0 <= i < ne_contents(ret).len() ==> (#[trigger] ne_contents(ret)[i] as nat)
                    < g.len(),
            spec_root_path(*g, from) == spec_root_path_from(*g, ne_contents(ret)),
        decreases g.len() as int - ne_contents(ret).len() as int,
    {
        let ghost acc = ne_contents(ret);
        match g.parent_menu(cur) {
            None => {
                return Ok(ret);
            },
            Some(m) => {
                match g.tree_of(m).focus_parent {
                    None => {
                        return Ok(ret);
                    },
                    Some(fp) => {
                        if crate::nevec::ne_contains(&ret, fp) {
                            return Err(NavError::Cycle);
                        }
                        proof {
                            assert(g.wf_node(m as int));
                            assert((fp as nat) < g.len());
                            assert(acc.push(fp).no_duplicates()) by {
                                assert(acc.push(fp)[acc.len() as int] == fp);
                                assert(forall|i: int|
                                    0 <= i < acc.len() ==> acc.push(fp)[i] == #[trigger] acc[i]);
                            }
                            assert forall|i: int| 0 <= i < acc.push(fp).len() implies ((
                            #[trigger] acc.push(fp)[i]) as nat) < g.len() by {
                                if i < acc.len() {
                                    assert(acc.push(fp)[i] == acc[i]);
                                }
                            }
                            lemma_distinct_ids_bound(acc.push(fp), g.len());
                            assert(acc.len() < g.len());
                            assert(spec_root_path_from(*g, acc) == spec_root_path_from(
                                *g,
                                acc.push(fp),
                            ));
                        }
                        ne_push(&mut ret, fp);
                        cur = fp;
                    },
                }
            },
        }
    }
}

/// Navigates down the menu hierarchy, collecting the cached active
/// child of each traversed menu, deepest first; a menu graph deeper
/// than the node count is cyclic and a fatal error.
pub fn focus_deep(g: &NavGraph, menu: usize) -> (r: Result<Vec<usize>, NavError>)
    requires
        g.wf(),
        g.nodes@.len() < usize::MAX,
        menu < g.len(),
        g.spec_is_menu_ready(menu as int),
    ensures
        match r {
            Ok(v) => spec_focus_deep(*g, menu) == Ok::<Seq<usize>, NavError>(v@),
            Err(e) => spec_focus_deep(*g, menu) == Err::<Seq<usize>, NavError>(e),
        },
{
    let mut ret: Vec<usize> = Vec::new();
    let mut cur = menu;
    let n = g.count();
    let mut fuel: usize = n + 1;
    loop
        invariant
            g.wf(),
            cur < g.len(),
            g.spec_is_menu_ready(cur as int),
            spec_focus_deep(*g, menu) == spec_focus_deep_rec(*g, cur, ret@, fuel as nat),
        decreases fuel,
    {
        if fuel == 0 {
            return Err(NavError::Cycle);
        }
        let last = g.tree_of(cur).active_child;
        proof {
            assert(g.wf_node(cur as int));
        }
        let ghost pre = ret@;
        ret.insert(0, last);
        proof {
            assert(ret@ =~= seq![last] + pre);
        }
        match g.child_menu(last) {
            Some(m2) => {
                cur = m2;
                fuel = fuel - 1;
            },
            None => {
                return Ok(ret);
            },
        }
    }
}

/// The non-blocked focusables of the whole graph, in id order.
fn all_unblocked(g: &NavGraph) -> (r: Vec<usize>)
    ensures
        r@ == spec_all_unblocked(*g),
{
    let n = g.count();
    let mut out: Vec<usize> = Vec::new();
    let mut k = n;
    while k > 0
        invariant
            n == g.len(),
            0 <= k <= n,
            out@ == spec_all_unblocked_from(*g, k as int),
        decreases k,
    {
        k = k - 1;
        if g.is_focusable(k) {
            let f = g.focusable_of(k);
            if !matches!(f.state, FocusState::Blocked) {
                let ghost pre = out@;
                let mut out2: Vec<usize> = Vec::new();
                out2.push(k);
                out2.append(&mut out);
                out = out2;
                proof {
                    assert(out@ =~= seq![k] + pre);
                }
            }
        }
    }
    out
}

/// Finds the event produced by `request` when the focused node is
/// `focused`, updating `lock` as the request demands.
///
/// This is the resolution algorithm's entry point; its result and the
/// final lock state equal the functional model [`spec_resolve`]. The
/// driving loop calls it with an empty `from` breadcrumb; `Err` means
/// the menu graph is misdeclared (a focus-parent cycle, or resolution
/// from a non-focusable node) and the caller must treat it as fatal.
pub fn resolve<S: MenuNavigationStrategy>(
    g: &NavGraph,
    stgy: &S,
    focused: usize,
    request: NavRequest,
    lock: &mut NavLock,
    from: Vec<usize>,
) -> (r: Result<NavEvent, NavError>)
    requires
        g.wf(),
        g.nodes@.len() < usize::MAX,
    ensures
        match spec_resolve(*g, *stgy, focused, request, old(lock).lock_reason, from@) {
            Ok(pair) => match r {
                Ok(ev) => ev@ == pair.0 && final(lock).lock_reason == pair.1,
                Err(_) => false,
            },
            Err(e) => r == Err::<NavEvent, NavError>(e) && final(lock).lock_reason == old(
                lock,
            ).lock_reason,
        },
    decreases g.nodes@.len() as int - from@.len() as int,
{
    let n = g.count();
    if focused >= n || !g.is_focusable(focused) {
        return Err(NavError::NotFocusable);
    }
    if vec_contains(&from, focused) || from.len() >= n {
        return Err(NavError::Cycle);
    }
    match request {
        NavRequest::Lock => {
            if lock.is_locked() {
                return Ok(NavEvent::NoChanges { from: ne_from_vec_last(from, focused), request });
            }
            lock.lock_reason = Some(LockReason::NavRequest);
            Ok(NavEvent::Locked(LockReason::NavRequest))
        },
        NavRequest::Move(direction) => {
            match g.parent_menu(focused) {
                Some(m) => {
                    let setting = g.setting_of(m);
                    if setting.is_scope() {
                        return Ok(
                            NavEvent::NoChanges { from: ne_from_vec_last(from, focused), request },
                        );
                    }
                    let siblings = g.focusables_of(m);
                    let cycles = !setting.bound();
                    match stgy.resolve_2d(focused, direction, cycles, &siblings) {
                        Some(to) => Ok(
                            NavEvent::focus_changed(to, ne_from_vec_last(from, focused)),
                        ),
                        None => Ok(
                            NavEvent::NoChanges { from: ne_from_vec_last(from, focused), request },
                        ),
                    }
                },
                None => {
                    let siblings = all_unblocked(g);
                    match stgy.resolve_2d(focused, direction, true, &siblings) {
                        Some(to) => Ok(
                            NavEvent::focus_changed(to, ne_from_vec_last(from, focused)),
                        ),
                        None => Ok(
                            NavEvent::NoChanges { from: ne_from_vec_last(from, focused), request },
                        ),
                    }
                },
            }
        },
        NavRequest::Cancel => {
            match g.parent_menu(focused) {
                None => Ok(NavEvent::NoChanges { from: ne_from_vec_last(from, focused), request }),
                Some(m) => {
                    match g.tree_of(m).focus_parent {
                        None => Ok(
                            NavEvent::NoChanges { from: ne_from_vec_last(from, focused), request },
                        ),
                        Some(to) => {
                            let mut fromf = ne_from_vec_last(from, focused);
                            ne_push(&mut fromf, to);
                            Ok(NavEvent::focus_changed(to, fromf))
                        },
                    }
                },
            }
        },
        NavRequest::Action => {
            let act = g.focusable_of(focused).action;
            match act {
                FocusAction::Cancel => {
                    match g.parent_menu(focused) {
                        None => Ok(
                            NavEvent::NoChanges {
                                from: ne_from_vec_last(from, focused),
                                request: NavRequest::Cancel,
                            },
                        ),
                        Some(m) => {
                            match g.tree_of(m).focus_parent {
                                None => Ok(
                                    NavEvent::NoChanges {
                                        from: ne_from_vec_last(from, focused),
                                        request: NavRequest::Cancel,
                                    },
                                ),
                                Some(to) => {
                                    let mut fromf = ne_from_vec_last(from, focused);
                                    ne_push(&mut fromf, to);
                                    Ok(NavEvent::focus_changed(to, fromf))
                                },
                            }
                        },
                    }
                },
                FocusAction::Lock => {
                    lock.lock_reason = Some(LockReason::Focusable(focused));
                    Ok(NavEvent::Locked(LockReason::Focusable(focused)))
                },
                FocusAction::Normal => {
                    match g.child_menu(focused) {
                        None => Ok(
                            NavEvent::NoChanges { from: ne_from_vec_last(from, focused), request },
                        ),
                        Some(m) => {
                            let ac = g.tree_of(m).active_child;
                            let from2 = copy_ids(&from);
                            let mut fromv = from;
                            fromv.push(focused);
                            let to = ne_from_first_vec(ac, fromv);
                            let fromf = ne_from_vec_last(from2, focused);
                            Ok(NavEvent::FocusChanged { to, from: fromf })
                        },
                    }
                },
            }
        },
        NavRequest::ScopeMove(sdir) => {
            match g.parent_menu(focused) {
                None => Ok(NavEvent::NoChanges { from: ne_from_vec_last(from, focused), request }),
                Some(m) => {
                    let setting = g.setting_of(m);
                    if !setting.is_scope() {
                        match g.tree_of(m).focus_parent {
                            None => Ok(
                                NavEvent::NoChanges {
                                    from: ne_from_vec_last(from, focused),
                                    request,
                                },
                            ),
                            Some(fp) => {
                                let mut fromv = from;
                                fromv.push(focused);
                                resolve(g, stgy, fp, request, lock, fromv)
                            },
                        }
                    } else {
                        let siblings = g.focusables_of(m);
                        let cycles = !setting.bound();
                        match resolve_scope(&siblings, focused, sdir, cycles) {
                            None => Ok(
                                NavEvent::NoChanges {
                                    from: ne_from_vec_last(from, focused),
                                    request,
                                },
                            ),
                            Some(to) => {
                                match g.child_menu(to) {
                                    None => Ok(
                                        NavEvent::focus_changed(
                                            to,
                                            ne_from_vec_last(from, focused),
                                        ),
                                    ),
                                    Some(m2) => {
                                        match focus_deep(g, m2) {
                                            Err(e) => Err(e),
                                            Ok(extra) => {
                                                let to_ne = ne_from_vec_last(extra, to);
                                                Ok(
                                                    NavEvent::FocusChanged {
                                                        to: to_ne,
                                                        from: ne_from_vec_last(from, focused),
                                                    },
                                                )
                                            },
                                        }
                                    },
                                }
                            },
                        }
                    }
                },
            }
        },
        NavRequest::FocusOn(target) => {
            match root_path(g, focused) {
                Err(e) => Err(e),
                Ok(mut p_from) => {
                    match root_path(g, target) {
                        Err(e) => Err(e),
                        Ok(mut p_to) => {
                            trim_common_tail(&mut p_from, &mut p_to);
                            if ne_equal(&p_from, &p_to) {
                                Ok(NavEvent::NoChanges { from: p_from, request })
                            } else {
                                Ok(NavEvent::FocusChanged { from: p_from, to: p_to })
                            }
                        },
                    }
                },
            }
        },
        NavRequest::Unlock => {
            match lock.reason() {
                Some(reason) => {
                    lock.lock_reason = None;
                    Ok(NavEvent::Unlocked(reason))
                },
                None => Ok(NavEvent::NoChanges { from: ne_from_vec_last(from, focused), request }),
            }
        },
    }
}

} // verus!
