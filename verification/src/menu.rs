//! Menu settings and menu declaration.
use vstd::prelude::*;

verus! {

/// How navigation works within one menu.
#[derive(Debug, PartialEq, Eq, Structural, Clone, Copy)]
pub struct MenuSetting {
    /// A scope menu resolves `ScopeMove` requests (and captures the ones
    /// bubbled up from nested non-scope menus); a non-scope menu resolves
    /// 2d `Move` requests.
    pub scope: bool,
    /// Whether navigation wraps around when it reaches the menu's edge.
    pub wrapping: bool,
}

impl MenuSetting {
    /// A non-scope, non-wrapping menu.
    pub fn new() -> (r: MenuSetting)
        ensures
            r == (MenuSetting { scope: false, wrapping: false }),
    {
        MenuSetting { scope: false, wrapping: false }
    }

    /// Whether this menu resolves 2d movement.
    pub fn is_2d(&self) -> (r: bool)
        ensures
            r == !self.scope,
    {
        !self.scope
    }

    /// Whether this menu resolves sequential scope movement.
    pub fn is_scope(&self) -> (r: bool)
        ensures
            r == self.scope,
    {
        self.scope
    }

    /// Whether navigation stops at this menu's edges instead of wrapping.
    pub fn bound(&self) -> (r: bool)
        ensures
            r == !self.wrapping,
    {
        !self.wrapping
    }
}

/// From where a menu is reachable, as declared by the host.
///
/// A named parent is replaced by the node id of the focusable carrying
/// that name before the menu is put in service.
#[derive(Debug)]
pub enum MenuBuilder {
    /// The menu is reachable by activating this focusable node.
    EntityParent(usize),
    /// The menu is reachable by activating the focusable carrying this
    /// name.
    NamedParent(String),
    /// A root menu, reachable unconditionally.
    Root,
}

/// The bookkeeping attached to a menu once it is in service.
#[derive(Debug, PartialEq, Eq, Structural, Clone, Copy)]
pub struct TreeMenu {
    /// The focusable that leads into this menu on an `Action` request;
    /// `None` for a root menu.
    pub focus_parent: Option<usize>,
    /// The currently prioritized or active focusable in this menu.
    pub active_child: usize,
}

} // verus!
