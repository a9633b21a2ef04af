//! Requests accepted by the navigation system and events it emits.
use vstd::prelude::*;

use non_empty_vec::NonEmpty;

use crate::nevec::ne_contents;
use crate::nevec::ne_new;
use crate::resolve::LockReason;

verus! {

/// A plane position, as supplied by the host's layout.
#[derive(Debug, PartialEq, Eq, Structural, Clone, Copy)]
pub struct Pos {
    pub x: i32,
    pub y: i32,
}

/// Requests to send to the navigation system to update focus.
#[derive(Debug, PartialEq, Eq, Structural, Clone, Copy)]
pub enum NavRequest {
    /// Move in 2d in the provided direction.
    Move(Direction),
    /// Move within the encompassing scope menu.
    ScopeMove(ScopeDirection),
    /// Enter the submenu reachable from the currently focused node, or
    /// trigger its action.
    Action,
    /// Leave this submenu for the one it is reachable from.
    Cancel,
    /// Move the focus to an arbitrary focusable node.
    FocusOn(usize),
    /// Lock the navigation system until an `Unlock` request arrives.
    Lock,
    /// Unlock the navigation system.
    Unlock,
}

/// Direction for movement in scope menus.
#[derive(Debug, PartialEq, Eq, Structural, Clone, Copy)]
pub enum ScopeDirection {
    Next,
    Previous,
}

/// 2d direction to move in ordinary menus.
#[derive(Debug, PartialEq, Eq, Structural, Clone, Copy)]
pub enum Direction {
    South,
    North,
    East,
    West,
}

impl Direction {
    /// Whether the offset from `reference` to `other` falls in the
    /// quarter-plane cone of this direction.
    ///
    /// The four cones partition the plane around `reference`: offsets with
    /// `|dy| >= |dx|` belong to North or South by the sign of `dy`, so a
    /// diagonal offset counts toward North or South, never East or West.
    /// The zero offset belongs to no cone.
    pub open spec fn spec_is_in(self, reference: Pos, other: Pos) -> bool {
        let dx = other.x - reference.x;
        let dy = other.y - reference.y;
        match self {
            Direction::South => dy <= dx && dy <= -dx && dy < 0,
            Direction::North => dy >= dx && dy >= -dx && dy > 0,
            Direction::East => dy < dx && dy > -dx,
            Direction::West => dy > dx && dy < -dx,
        }
    }

    /// The direction pointing the opposite way.
    pub open spec fn spec_opposite(self) -> Direction {
        match self {
            Direction::South => Direction::North,
            Direction::North => Direction::South,
            Direction::East => Direction::West,
            Direction::West => Direction::East,
        }
    }

    /// Whether `other` lies in this direction's cone as seen from
    /// `reference`.
    pub fn is_in(&self, reference: Pos, other: Pos) -> (r: bool)
        ensures
            r == self.spec_is_in(reference, other),
    {
        let dx: i64 = other.x as i64 - reference.x as i64;
        let dy: i64 = other.y as i64 - reference.y as i64;
        match self {
            Direction::South => dy <= dx && dy <= -dx && dy < 0,
            Direction::North => dy >= dx && dy >= -dx && dy > 0,
            Direction::East => dy < dx && dy > -dx,
            Direction::West => dy > dx && dy < -dx,
        }
    }
}

/// Events emitted by the navigation system after each resolution.
#[derive(Debug)]
pub enum NavEvent {
    /// Focus changed.
    ///
    /// Both `to` and `from` list the newly and previously active nodes in
    /// descending breadcrumb order: the focused node first.
    FocusChanged {
        /// The nodes that become active after the focus change.
        to: NonEmpty<usize>,
        /// The previously active nodes affected by the focus change.
        from: NonEmpty<usize>,
    },
    /// The request didn't lead to any change in focus.
    NoChanges {
        /// The active nodes, from the focused one outward, that the
        /// request would have affected.
        from: NonEmpty<usize>,
        /// The request that did nothing.
        request: NavRequest,
    },
    /// A lock took effect; only an `Unlock` request is handled from now on.
    Locked(LockReason),
    /// The lock was released.
    Unlocked(LockReason),
    /// The very first focused node was chosen, before any request.
    InitiallyFocused(usize),
}

/// Ghost-level shape of a [`NavEvent`], with breadcrumbs as sequences.
pub enum EventModel {
    FocusChanged { to: Seq<usize>, from: Seq<usize> },
    NoChanges { from: Seq<usize>, request: NavRequest },
    Locked(LockReason),
    Unlocked(LockReason),
    InitiallyFocused(usize),
}

impl View for NavEvent {
    type V = EventModel;

    open spec fn view(&self) -> EventModel {
        match self {
            NavEvent::FocusChanged { to, from } => EventModel::FocusChanged {
                to: ne_contents(*to),
                from: ne_contents(*from),
            },
            NavEvent::NoChanges { from, request } => EventModel::NoChanges {
                from: ne_contents(*from),
                request: *request,
            },
            NavEvent::Locked(r) => EventModel::Locked(*r),
            NavEvent::Unlocked(r) => EventModel::Unlocked(*r),
            NavEvent::InitiallyFocused(e) => EventModel::InitiallyFocused(*e),
        }
    }
}

impl NavEvent {
    /// Builds a `FocusChanged` whose `to` breadcrumb is the single node
    /// `to`.
    pub fn focus_changed(to: usize, from: NonEmpty<usize>) -> (r: NavEvent)
        ensures
            r@ == (EventModel::FocusChanged { to: seq![to], from: ne_contents(from) }),
    {
        NavEvent::FocusChanged { from, to: ne_new(to) }
    }
}

} // verus!
