//! Menu focus navigation: a pure resolver over a tree of menus and
//! focusable nodes, with directional movement, scope cycling, submenu
//! descent and ascent, locking, and breadcrumb maintenance.
//!
//! The navigation graph is an arena of nodes ([`graph::NavGraph`]); the
//! resolver ([`resolve::resolve`]) turns one request into one event
//! without touching the graph, and the mutator ([`state::NavState`])
//! applies the event afterwards.
pub mod events;
pub mod fence;
pub mod graph;
pub mod laws;
pub mod menu;
pub mod nevec;
pub mod resolve;
pub mod state;
pub mod strategy;
pub mod tree;
