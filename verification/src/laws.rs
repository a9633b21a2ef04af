//! Laws of the resolution algorithm, stated and proved over its
//! functional model.
use vstd::prelude::*;

use crate::events::EventModel;
use crate::events::NavRequest;
use crate::graph::NavGraph;
use crate::resolve::LockReason;
use crate::resolve::NavError;
use crate::resolve::spec_resolve;
use crate::resolve::spec_root_path;
use crate::resolve::spec_trim_pair;
use crate::state::spec_first_ungated;
use crate::strategy::MenuNavigationStrategy;

verus! {

/// Dead ends are stable: a `Cancel` that produced no change left both
/// the graph (which it never touches) and the lock exactly as they
/// were, so resolving `Cancel` again immediately afterwards produces
/// the same no-change event.
pub proof fn lemma_cancel_dead_end_stable<S: MenuNavigationStrategy>(
    g: NavGraph,
    stgy: S,
    focused: usize,
    lock: Option<LockReason>,
)
    ensures
        match spec_resolve(g, stgy, focused, NavRequest::Cancel, lock, Seq::empty()) {
            Ok(pair) => pair.0 is NoChanges ==> pair.1 == lock && spec_resolve(
                g,
                stgy,
                focused,
                NavRequest::Cancel,
                pair.1,
                Seq::empty(),
            ) == Ok::<(EventModel, Option<LockReason>), NavError>(pair),
            Err(_) => true,
        },
{
}

/// `FocusOn` produces the minimal breadcrumb pair: the two
/// focus-parent root paths with their longest common suffix removed,
/// and no change at all when the trimmed paths coincide.
pub proof fn lemma_focus_on_minimal<S: MenuNavigationStrategy>(
    g: NavGraph,
    stgy: S,
    focused: usize,
    target: usize,
    lock: Option<LockReason>,
)
    requires
        g.spec_is_focusable(focused as int),
        g.len() > 0,
    ensures
        match (spec_root_path(g, focused), spec_root_path(g, target)) {
            (Ok(pf), Ok(pt)) => {
                let trimmed = spec_trim_pair(pf, pt);
                spec_resolve(g, stgy, focused, NavRequest::FocusOn(target), lock, Seq::empty())
                    == Ok::<(EventModel, Option<LockReason>), NavError>(
                    if trimmed.0 == trimmed.1 {
                        (
                            EventModel::NoChanges {
                                from: trimmed.0,
                                request: NavRequest::FocusOn(target),
                            },
                            lock,
                        )
                    } else {
                        (EventModel::FocusChanged { from: trimmed.0, to: trimmed.1 }, lock)
                    },
                )
            },
            _ => true,
        },
{
}

/// The movement cones are symmetric: a node lies in a direction's
/// cone exactly when the starting node lies in the opposite
/// direction's cone as seen from it. This is the deterministic core
/// of the move round trip: after moving to a neighbor, the node moved
/// from is always a candidate for the move back.
pub proof fn lemma_cone_symmetry(d: crate::events::Direction, a: crate::events::Pos, b: crate::events::Pos)
    ensures
        d.spec_is_in(a, b) == d.spec_opposite().spec_is_in(b, a),
{
}

/// While the lock is held, every request other than `Unlock` is
/// skipped: no request of such a tick is selected for resolution, so
/// [`crate::state::NavState::tick`] leaves the whole navigation state
/// untouched and reports nothing.
pub proof fn lemma_lock_gates_requests(reqs: Seq<NavRequest>, k: int)
    requires
        0 <= k,
        forall|i: int| 0 <= i < reqs.len() ==> #[trigger] reqs[i] != NavRequest::Unlock,
    ensures
        spec_first_ungated(reqs, true, k) is None,
    decreases reqs.len() as int - k,
{
    if 0 <= k < reqs.len() {
        lemma_lock_gates_requests(reqs, k + 1);
    }
}

/// Locking and then unlocking restores normal operation: both
/// resolutions leave the graph untouched (neither is a focus change),
/// and the lock returns to exactly its unlocked value — so any
/// subsequent request resolves from the very same graph and lock as it
/// would have before the lock, hence identically.
pub proof fn lemma_lock_unlock_round_trip<S: MenuNavigationStrategy>(
    g: NavGraph,
    stgy: S,
    focused: usize,
)
    requires
        g.spec_is_focusable(focused as int),
        g.len() > 0,
    ensures
        spec_resolve(g, stgy, focused, NavRequest::Lock, None, Seq::empty()) == Ok::<
            (EventModel, Option<LockReason>),
            NavError,
        >((EventModel::Locked(LockReason::NavRequest), Some(LockReason::NavRequest))),
        spec_resolve(
            g,
            stgy,
            focused,
            NavRequest::Unlock,
            Some(LockReason::NavRequest),
            Seq::empty(),
        ) == Ok::<(EventModel, Option<LockReason>), NavError>(
            (EventModel::Unlocked(LockReason::NavRequest), None),
        ),
{
}

} // verus!
