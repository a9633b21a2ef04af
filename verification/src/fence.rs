//! A minimal, self-contained focus model for flat hosts.
//!
//! A fence isolates a group of focusables and optionally links to the
//! focusable it is reachable from; the four-state focusable here is
//! the reduced form of the full model in [`crate::resolve`], for hosts
//! that only need a flat sibling set per fence.
use vstd::prelude::*;

verus! {

/// Requests a flat host sends to move its focus.
#[derive(Debug, PartialEq, Eq, Structural, Clone, Copy)]
pub enum NavRequest {
    MoveUp,
    MoveDown,
    MoveLeft,
    MoveRight,
    Previous,
    Next,
    Action,
    Cancel,
}

/// State of a fence-scoped [`Focusable`].
#[derive(Debug, PartialEq, Eq, Structural, Clone, Copy)]
pub enum FocusState {
    /// The remembered focusable of a fence that focus has left.
    Dormant,
    /// The unique focused node.
    Focused,
    /// On the path from the root fence to the focused node.
    Active,
    /// None of the above.
    Inert,
}

/// A scope that isolates its focusables from other fences' and
/// remembers from where it is reachable.
#[derive(Debug, PartialEq, Eq, Structural, Clone, Copy)]
pub struct NavFence {
    /// The focusable whose activation enters this fence; `None` for
    /// the root fence.
    pub focus_parent: Option<usize>,
}

impl NavFence {
    /// A fence with an optional parent, useful when the parent is
    /// already an optional value.
    pub fn new(focus_parent: Option<usize>) -> (r: NavFence)
        ensures
            r == (NavFence { focus_parent }),
    {
        NavFence { focus_parent }
    }

    /// The root fence: no parent.
    pub fn root() -> (r: NavFence)
        ensures
            r == (NavFence { focus_parent: None }),
    {
        NavFence { focus_parent: None }
    }

    /// A fence entered by activating `focusable`.
    ///
    /// The focus-parent relation must stay acyclic: a fence must never
    /// be reachable from a focusable that is itself reachable from the
    /// fence.
    pub fn reachable_from(focusable: usize) -> (r: NavFence)
        ensures
            r == (NavFence { focus_parent: Some(focusable) }),
    {
        NavFence { focus_parent: Some(focusable) }
    }
}

/// A node a flat host can navigate to.
#[derive(Debug, PartialEq, Eq, Structural, Clone, Copy)]
pub struct Focusable {
    /// The node's focus state.
    pub focus_state: FocusState,
}

impl Focusable {
    /// Whether this node is the unique focused one.
    pub fn is_focused(&self) -> (r: bool)
        ensures
            r == (self.focus_state == FocusState::Focused),
    {
        matches!(self.focus_state, FocusState::Focused)
    }

    /// Whether this node is focused or on the path to the focused one.
    pub fn is_active(&self) -> (r: bool)
        ensures
            r == (self.focus_state == FocusState::Active || self.focus_state
                == FocusState::Focused),
    {
        matches!(self.focus_state, FocusState::Active | FocusState::Focused)
    }

    /// Whether this node is the remembered focusable of a fence that
    /// focus has left.
    pub fn is_dormant(&self) -> (r: bool)
        ensures
            r == (self.focus_state == FocusState::Dormant),
    {
        matches!(self.focus_state, FocusState::Dormant)
    }

    /// Whether this node is neither active, focused nor dormant.
    pub fn is_inert(&self) -> (r: bool)
        ensures
            r == (self.focus_state == FocusState::Inert),
    {
        matches!(self.focus_state, FocusState::Inert)
    }

    /// A focusable in the given state.
    pub fn with_state(focus_state: FocusState) -> (r: Focusable)
        ensures
            r == (Focusable { focus_state }),
    {
        Focusable { focus_state }
    }
}

impl Default for Focusable {
    /// An inert focusable.
    fn default() -> (r: Focusable)
        ensures
            r == (Focusable { focus_state: FocusState::Inert }),
    {
        Focusable { focus_state: FocusState::Inert }
    }
}

/// The currently focused node, as a marker value for flat hosts.
#[derive(Debug, PartialEq, Eq, Structural, Clone, Copy)]
pub struct Focused;

} // verus!
