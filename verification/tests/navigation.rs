//! Scenario tests for the core resolver and mutator.
use non_empty_vec::NonEmpty;

use ui_navigation::events::Direction;
use ui_navigation::events::NavEvent;
use ui_navigation::events::NavRequest;
use ui_navigation::events::Pos;
use ui_navigation::events::ScopeDirection;
use ui_navigation::graph::NavGraph;
use ui_navigation::menu::MenuBuilder;
use ui_navigation::menu::MenuSetting;
use ui_navigation::resolve::trim_common_tail;
use ui_navigation::resolve::Focusable;
use ui_navigation::resolve::FocusState;
use ui_navigation::resolve::LockReason;
use ui_navigation::resolve::NavError;
use ui_navigation::resolve::NavLock;
use ui_navigation::state::NavState;
use ui_navigation::strategy::Rect;
use ui_navigation::strategy::ScreenBoundaries;
use ui_navigation::strategy::UiProjectionQuery;

fn ne(values: &[usize]) -> NonEmpty<usize> {
    let mut v = NonEmpty::new(values[0]);
    for x in &values[1..] {
        v.push(*x);
    }
    v
}

fn pos(x: i32, y: i32) -> Pos {
    Pos { x, y }
}

/// A strategy over the given positions, with screen boundaries wide
/// enough for wrapping tests.
fn strategy(positions: Vec<Pos>) -> UiProjectionQuery {
    UiProjectionQuery {
        positions,
        boundaries: Some(ScreenBoundaries {
            position: pos(0, 0),
            screen_edge: Rect { min: pos(0, 0), max: pos(20, 20) },
            scale: 1,
        }),
    }
}

fn count_focused(state: &NavState) -> usize {
    let mut count = 0;
    for id in 0..state.graph.count() {
        if state.graph.focus_state_at(id) == Some(FocusState::Focused) {
            count += 1;
        }
    }
    count
}

fn focused_of(state: &NavState) -> Option<usize> {
    state.first_focused()
}

/// A 1x3 row menu: returns (state, item ids).
fn row_menu(wrapping: bool) -> (NavState, [usize; 3]) {
    let mut g = NavGraph::new();
    let menu = g.add_menu(None, MenuSetting { scope: false, wrapping }, MenuBuilder::Root);
    let a = g.add_focusable(Some(menu), Focusable::new(), None);
    let b = g.add_focusable(Some(menu), Focusable::new(), None);
    let c = g.add_focusable(Some(menu), Focusable::new(), None);
    let mut st = NavState::new(g);
    st.insert_tree_menus().unwrap();
    st.set_first_focused().unwrap();
    (st, [a, b, c])
}

#[test]
fn test_trim_common_tail() {
    let mut v1 = ne(&[1, 2, 3, 4, 5, 6, 7]);
    let mut v2 = ne(&[3, 2, 1, 4, 5, 6, 7]);
    trim_common_tail(&mut v1, &mut v2);
    assert_eq!(v1, ne(&[1, 2, 3]));
    assert_eq!(v2, ne(&[3, 2, 1]));
}

#[test]
fn trim_keeps_suffix_whole_breadcrumb() {
    // one breadcrumb entirely a suffix of the other: nothing trimmed
    let mut v1 = ne(&[1, 2]);
    let mut v2 = ne(&[2]);
    trim_common_tail(&mut v1, &mut v2);
    assert_eq!(v1, ne(&[1, 2]));
    assert_eq!(v2, ne(&[2]));
}

#[test]
fn wrap_correctness_row_menu() {
    // wrap=true 1x3 row at x=0,10,20: West from x=0 wraps to x=20,
    // East from x=20 wraps to x=0
    let (mut st, items) = row_menu(true);
    let stgy = strategy(vec![pos(0, 0), pos(0, 0), pos(10, 0), pos(20, 0)]);
    assert_eq!(focused_of(&st), Some(items[0]));

    let evs = st.tick(&stgy, &vec![NavRequest::Move(Direction::West)]).unwrap();
    match &evs[0] {
        NavEvent::FocusChanged { to, from } => {
            assert_eq!(to.as_slice(), &[items[2]]);
            assert_eq!(from.as_slice(), &[items[0]]);
        },
        other => panic!("expected FocusChanged, got {:?}", other),
    }
    assert_eq!(focused_of(&st), Some(items[2]));

    let evs = st.tick(&stgy, &vec![NavRequest::Move(Direction::East)]).unwrap();
    match &evs[0] {
        NavEvent::FocusChanged { to, .. } => assert_eq!(to.as_slice(), &[items[0]]),
        other => panic!("expected FocusChanged, got {:?}", other),
    }
}

#[test]
fn bounded_row_menu_dead_end() {
    // wrap=false: West from the leftmost item is a dead end
    let (mut st, items) = row_menu(false);
    let stgy = UiProjectionQuery {
        positions: vec![pos(0, 0), pos(0, 0), pos(10, 0), pos(20, 0)],
        boundaries: None,
    };
    let evs = st.tick(&stgy, &vec![NavRequest::Move(Direction::West)]).unwrap();
    match &evs[0] {
        NavEvent::NoChanges { from, request } => {
            assert_eq!(from.as_slice(), &[items[0]]);
            assert_eq!(*request, NavRequest::Move(Direction::West));
        },
        other => panic!("expected NoChanges, got {:?}", other),
    }
    assert_eq!(focused_of(&st), Some(items[0]));
}

/// A 3x3 grid with the center prioritized: returns (state, ids row
/// by row bottom to top, strategy).
fn grid_menu() -> (NavState, Vec<usize>, UiProjectionQuery) {
    let mut g = NavGraph::new();
    let menu = g.add_menu(
        None,
        MenuSetting { scope: false, wrapping: false },
        MenuBuilder::Root,
    );
    let mut ids = Vec::new();
    let mut positions = vec![pos(0, 0)];
    for y in [0, 10, 20] {
        for x in [0, 10, 20] {
            let f = if (x, y) == (10, 10) { Focusable::new().prioritized() } else { Focusable::new() };
            ids.push(g.add_focusable(Some(menu), f, None));
            positions.push(pos(x, y));
        }
    }
    let mut st = NavState::new(g);
    st.insert_tree_menus().unwrap();
    st.set_first_focused().unwrap();
    let stgy = UiProjectionQuery { positions, boundaries: None };
    (st, ids, stgy)
}

#[test]
fn move_round_trip_on_grid() {
    // North then South from the symmetric 3x3 grid returns to the
    // starting node
    let (mut st, ids, stgy) = grid_menu();
    let center = ids[4];
    assert_eq!(focused_of(&st), Some(center));

    let evs = st.tick(&stgy, &vec![NavRequest::Move(Direction::North)]).unwrap();
    match &evs[0] {
        NavEvent::FocusChanged { to, .. } => assert_eq!(to.as_slice(), &[ids[7]]),
        other => panic!("expected FocusChanged, got {:?}", other),
    }
    let evs = st.tick(&stgy, &vec![NavRequest::Move(Direction::South)]).unwrap();
    match &evs[0] {
        NavEvent::FocusChanged { to, .. } => assert_eq!(to.as_slice(), &[center]),
        other => panic!("expected FocusChanged, got {:?}", other),
    }
    assert_eq!(focused_of(&st), Some(center));
    assert_eq!(count_focused(&st), 1);
}

#[test]
fn focused_stays_unique_across_moves() {
    // after an arbitrary run of resolutions at most one node is focused
    let (mut st, _ids, stgy) = grid_menu();
    let runs = vec![
        NavRequest::Move(Direction::North),
        NavRequest::Move(Direction::East),
        NavRequest::Move(Direction::South),
        NavRequest::Move(Direction::South),
        NavRequest::Move(Direction::West),
        NavRequest::Action,
        NavRequest::Cancel,
    ];
    for req in runs {
        st.tick(&stgy, &vec![req]).unwrap();
        assert!(count_focused(&st) <= 1);
    }
}

/// A 4-item scope menu.
fn scope_menu(wrapping: bool) -> (NavState, [usize; 4], UiProjectionQuery) {
    let mut g = NavGraph::new();
    let menu = g.add_menu(None, MenuSetting { scope: true, wrapping }, MenuBuilder::Root);
    let a = g.add_focusable(Some(menu), Focusable::new(), None);
    let b = g.add_focusable(Some(menu), Focusable::new(), None);
    let c = g.add_focusable(Some(menu), Focusable::new(), None);
    let d = g.add_focusable(Some(menu), Focusable::new(), None);
    let mut st = NavState::new(g);
    st.insert_tree_menus().unwrap();
    st.set_first_focused().unwrap();
    let stgy = UiProjectionQuery { positions: Vec::new(), boundaries: None };
    (st, [a, b, c, d], stgy)
}

#[test]
fn scope_previous_at_first_is_dead_end_when_bounded() {
    let (mut st, items, stgy) = scope_menu(false);
    assert_eq!(focused_of(&st), Some(items[0]));
    let evs = st
        .tick(&stgy, &vec![NavRequest::ScopeMove(ScopeDirection::Previous)])
        .unwrap();
    assert!(matches!(&evs[0], NavEvent::NoChanges { .. }));
    assert_eq!(focused_of(&st), Some(items[0]));
}

#[test]
fn scope_previous_at_first_wraps_to_last() {
    let (mut st, items, stgy) = scope_menu(true);
    let evs = st
        .tick(&stgy, &vec![NavRequest::ScopeMove(ScopeDirection::Previous)])
        .unwrap();
    match &evs[0] {
        NavEvent::FocusChanged { to, .. } => assert_eq!(to.as_slice(), &[items[3]]),
        other => panic!("expected FocusChanged, got {:?}", other),
    }
}

#[test]
fn scope_next_at_last_behaviour() {
    let (mut st, items, stgy) = scope_menu(false);
    for _ in 0..3 {
        st.tick(&stgy, &vec![NavRequest::ScopeMove(ScopeDirection::Next)]).unwrap();
    }
    assert_eq!(focused_of(&st), Some(items[3]));
    // bounded: Next at the last index is a dead end
    let evs = st.tick(&stgy, &vec![NavRequest::ScopeMove(ScopeDirection::Next)]).unwrap();
    assert!(matches!(&evs[0], NavEvent::NoChanges { .. }));

    let (mut st2, items2, stgy2) = scope_menu(true);
    for _ in 0..3 {
        st2.tick(&stgy2, &vec![NavRequest::ScopeMove(ScopeDirection::Next)]).unwrap();
    }
    // wrapping: Next at the last index goes back to the first
    let evs = st2.tick(&stgy2, &vec![NavRequest::ScopeMove(ScopeDirection::Next)]).unwrap();
    match &evs[0] {
        NavEvent::FocusChanged { to, .. } => assert_eq!(to.as_slice(), &[items2[0]]),
        other => panic!("expected FocusChanged, got {:?}", other),
    }
}

#[test]
fn cancel_dead_end_is_stable() {
    // a Cancel that produced NoChanges leaves the state unchanged, so
    // an immediate second Cancel produces NoChanges again
    let (mut st, items) = row_menu(true);
    let stgy = UiProjectionQuery { positions: Vec::new(), boundaries: None };
    let evs = st.tick(&stgy, &vec![NavRequest::Cancel]).unwrap();
    assert!(matches!(&evs[0], NavEvent::NoChanges { .. }));
    let evs = st.tick(&stgy, &vec![NavRequest::Cancel]).unwrap();
    match &evs[0] {
        NavEvent::NoChanges { from, request } => {
            assert_eq!(from.as_slice(), &[items[0]]);
            assert_eq!(*request, NavRequest::Cancel);
        },
        other => panic!("expected NoChanges, got {:?}", other),
    }
}

/// Nested menus d -> c -> b -> {a, x}: returns (state, a, x, chain).
fn nested_menus() -> (NavState, usize, usize, [usize; 3]) {
    let mut g = NavGraph::new();
    let root = g.add_menu(None, MenuSetting { scope: false, wrapping: false }, MenuBuilder::Root);
    let d = g.add_focusable(Some(root), Focusable::new(), None);
    let m_c = g.add_menu(None, MenuSetting { scope: false, wrapping: false }, MenuBuilder::EntityParent(d));
    let c = g.add_focusable(Some(m_c), Focusable::new(), None);
    let m_b = g.add_menu(None, MenuSetting { scope: false, wrapping: false }, MenuBuilder::EntityParent(c));
    let b = g.add_focusable(Some(m_b), Focusable::new(), None);
    let m_a = g.add_menu(None, MenuSetting { scope: false, wrapping: false }, MenuBuilder::EntityParent(b));
    let a = g.add_focusable(Some(m_a), Focusable::new().prioritized(), None);
    let x = g.add_focusable(Some(m_a), Focusable::new(), None);
    let mut st = NavState::new(g);
    st.insert_tree_menus().unwrap();
    st.set_first_focused().unwrap();
    (st, a, x, [b, c, d])
}

#[test]
fn focus_on_trims_common_suffix() {
    // breadcrumbs [a,b,c,d] and [x,b,c,d]: FocusOn(x) reports
    // from=[a], to=[x]
    let (mut st, a, x, _chain) = nested_menus();
    assert_eq!(focused_of(&st), Some(a));
    let stgy = UiProjectionQuery { positions: Vec::new(), boundaries: None };
    let evs = st.tick(&stgy, &vec![NavRequest::FocusOn(x)]).unwrap();
    match &evs[0] {
        NavEvent::FocusChanged { to, from } => {
            assert_eq!(from.as_slice(), &[a]);
            assert_eq!(to.as_slice(), &[x]);
        },
        other => panic!("expected FocusChanged, got {:?}", other),
    }
    assert_eq!(focused_of(&st), Some(x));
}

#[test]
fn action_enters_menu_with_breadcrumb() {
    // activating d enters its menu: the destination breadcrumb is the
    // menu's active child followed by the old breadcrumb
    let (mut st, _a, _x, chain) = nested_menus();
    let d = chain[2];
    let c = chain[1];
    let stgy = UiProjectionQuery { positions: Vec::new(), boundaries: None };
    st.tick(&stgy, &vec![NavRequest::FocusOn(d)]).unwrap();
    assert_eq!(focused_of(&st), Some(d));
    let evs = st.tick(&stgy, &vec![NavRequest::Action]).unwrap();
    match &evs[0] {
        NavEvent::FocusChanged { to, from } => {
            assert_eq!(to.as_slice(), &[c, d]);
            assert_eq!(from.as_slice(), &[d]);
        },
        other => panic!("expected FocusChanged, got {:?}", other),
    }
}

#[test]
fn cancel_ascends_to_focus_parent() {
    let (mut st, a, _x, chain) = nested_menus();
    let b = chain[0];
    let stgy = UiProjectionQuery { positions: Vec::new(), boundaries: None };
    let evs = st.tick(&stgy, &vec![NavRequest::Cancel]).unwrap();
    match &evs[0] {
        NavEvent::FocusChanged { to, from } => {
            assert_eq!(to.as_slice(), &[b]);
            assert_eq!(from.as_slice(), &[a, b]);
        },
        other => panic!("expected FocusChanged, got {:?}", other),
    }
}

#[test]
fn cyclic_focus_parents_are_fatal() {
    // two menus each reachable from a focusable inside the other: the
    // first resolution traversing both fails with a cycle error
    let mut g = NavGraph::new();
    let m_a = g.add_menu(
        None,
        MenuSetting { scope: false, wrapping: false },
        MenuBuilder::NamedParent(String::from("b")),
    );
    let a = g.add_focusable(Some(m_a), Focusable::new().prioritized(), Some(String::from("a")));
    let m_b = g.add_menu(
        None,
        MenuSetting { scope: false, wrapping: false },
        MenuBuilder::NamedParent(String::from("a")),
    );
    let _b = g.add_focusable(Some(m_b), Focusable::new(), Some(String::from("b")));
    let mut st = NavState::new(g);
    st.resolve_named_menus();
    st.insert_tree_menus().unwrap();
    let stgy = UiProjectionQuery { positions: Vec::new(), boundaries: None };
    // no root menu exists; the prioritized focusable gets picked
    let picked = st.pick_first_focused().unwrap();
    assert_eq!(picked, Some(a));
    let err = st.tick(&stgy, &vec![NavRequest::FocusOn(a)]).unwrap_err();
    assert_eq!(err, NavError::Cycle);
}

#[test]
fn empty_menu_is_fatal() {
    let mut g = NavGraph::new();
    let _menu = g.add_menu(None, MenuSetting { scope: false, wrapping: false }, MenuBuilder::Root);
    let mut st = NavState::new(g);
    assert_eq!(st.insert_tree_menus().unwrap_err(), NavError::EmptyMenu);
}

#[test]
fn resolving_from_plain_node_is_refused() {
    let mut g = NavGraph::new();
    let menu = g.add_menu(None, MenuSetting { scope: false, wrapping: false }, MenuBuilder::Root);
    let _f = g.add_focusable(Some(menu), Focusable::new(), None);
    let plain = g.add_plain(Some(menu));
    let stgy = UiProjectionQuery { positions: Vec::new(), boundaries: None };
    let mut lock = NavLock::new();
    let r = ui_navigation::resolve::resolve(&g, &stgy, plain, NavRequest::Action, &mut lock, Vec::new());
    assert_eq!(r.unwrap_err(), NavError::NotFocusable);
}

#[test]
fn lock_gates_all_requests_but_unlock() {
    let (mut st, items, stgy) = scope_menu(true);
    let evs = st.tick(&stgy, &vec![NavRequest::Lock]).unwrap();
    assert!(matches!(&evs[0], NavEvent::Locked(LockReason::NavRequest)));
    assert!(st.lock.is_locked());

    // while locked, nothing but Unlock is even looked at
    let evs = st
        .tick(&stgy, &vec![
            NavRequest::ScopeMove(ScopeDirection::Next),
            NavRequest::Action,
            NavRequest::Cancel,
        ])
        .unwrap();
    assert!(evs.is_empty());
    assert_eq!(focused_of(&st), Some(items[0]));
    assert!(st.lock.is_locked());

    let evs = st.tick(&stgy, &vec![NavRequest::Unlock]).unwrap();
    assert!(matches!(&evs[0], NavEvent::Unlocked(LockReason::NavRequest)));
    assert!(!st.lock.is_locked());

    // after unlocking, the same move behaves as it would have before
    // the lock
    let (mut twin, _items, twin_stgy) = scope_menu(true);
    let evs_twin = twin
        .tick(&twin_stgy, &vec![NavRequest::ScopeMove(ScopeDirection::Next)])
        .unwrap();
    let evs_after = st.tick(&stgy, &vec![NavRequest::ScopeMove(ScopeDirection::Next)]).unwrap();
    match (&evs_after[0], &evs_twin[0]) {
        (NavEvent::FocusChanged { to: t1, .. }, NavEvent::FocusChanged { to: t2, .. }) => {
            assert_eq!(t1.as_slice(), t2.as_slice());
            assert_eq!(t1.as_slice(), &[items[1]]);
        },
        other => panic!("expected two FocusChanged, got {:?}", other),
    }
}

#[test]
fn lock_focusable_freezes_until_unlock() {
    let mut g = NavGraph::new();
    let menu = g.add_menu(None, MenuSetting { scope: true, wrapping: true }, MenuBuilder::Root);
    let locker = g.add_focusable(Some(menu), Focusable::lock(), None);
    let _other = g.add_focusable(Some(menu), Focusable::new(), None);
    let mut st = NavState::new(g);
    st.insert_tree_menus().unwrap();
    st.set_first_focused().unwrap();
    let stgy = UiProjectionQuery { positions: Vec::new(), boundaries: None };
    let evs = st.tick(&stgy, &vec![NavRequest::Action]).unwrap();
    assert!(matches!(&evs[0], NavEvent::Locked(LockReason::Focusable(e)) if *e == locker));
    assert!(st.lock.is_locked());
}

#[test]
fn unlock_while_unlocked_is_no_change() {
    let (mut st, items, stgy) = scope_menu(true);
    let evs = st.tick(&stgy, &vec![NavRequest::Unlock]).unwrap();
    match &evs[0] {
        NavEvent::NoChanges { from, request } => {
            assert_eq!(from.as_slice(), &[items[0]]);
            assert_eq!(*request, NavRequest::Unlock);
        },
        other => panic!("expected NoChanges, got {:?}", other),
    }
}

#[test]
fn only_first_request_of_a_tick_is_honored() {
    let (mut st, items, stgy) = scope_menu(true);
    let evs = st
        .tick(&stgy, &vec![
            NavRequest::ScopeMove(ScopeDirection::Next),
            NavRequest::ScopeMove(ScopeDirection::Next),
        ])
        .unwrap();
    assert_eq!(evs.len(), 2);
    match &evs[0] {
        NavEvent::FocusChanged { to, .. } => assert_eq!(to.as_slice(), &[items[1]]),
        other => panic!("expected FocusChanged, got {:?}", other),
    }
    // the second request is reported back as unhandled
    match &evs[1] {
        NavEvent::NoChanges { from, request } => {
            assert_eq!(from.as_slice(), &[items[1]]);
            assert_eq!(*request, NavRequest::ScopeMove(ScopeDirection::Next));
        },
        other => panic!("expected NoChanges, got {:?}", other),
    }
    assert_eq!(focused_of(&st), Some(items[1]));
}

#[test]
fn blocked_focusables_are_skipped() {
    let (mut st, items, stgy) = scope_menu(true);
    assert!(st.graph.block(items[1]));
    let evs = st.tick(&stgy, &vec![NavRequest::ScopeMove(ScopeDirection::Next)]).unwrap();
    match &evs[0] {
        NavEvent::FocusChanged { to, .. } => assert_eq!(to.as_slice(), &[items[2]]),
        other => panic!("expected FocusChanged, got {:?}", other),
    }
    assert!(st.graph.unblock(items[1]));
}

#[test]
fn consistent_menu_replaces_blocked_active_child() {
    let mut g = NavGraph::new();
    let root = g.add_menu(None, MenuSetting { scope: false, wrapping: false }, MenuBuilder::Root);
    let opener = g.add_focusable(Some(root), Focusable::new(), None);
    let page = g.add_menu(None, MenuSetting { scope: false, wrapping: false }, MenuBuilder::EntityParent(opener));
    let b1 = g.add_focusable(Some(page), Focusable::new(), None);
    let b2 = g.add_focusable(Some(page), Focusable::new(), None);
    let mut st = NavState::new(g);
    st.insert_tree_menus().unwrap();
    st.set_first_focused().unwrap();
    let stgy = UiProjectionQuery { positions: Vec::new(), boundaries: None };

    // enter the page, then leave it: b1 stays the page's remembered child
    st.tick(&stgy, &vec![NavRequest::Action]).unwrap();
    assert_eq!(focused_of(&st), Some(b1));
    st.tick(&stgy, &vec![NavRequest::Cancel]).unwrap();
    assert_eq!(st.graph.focus_state_at(b1), Some(FocusState::Prioritized));
    assert_eq!(st.graph.tree_of(page).active_child, b1);

    // a focused node cannot be blocked
    assert!(!st.graph.block(opener));
    // blocking the remembered child and repairing moves the cache to
    // the page's first selectable focusable
    assert!(st.graph.block(b1));
    st.consistent_menu(b1);
    assert_eq!(st.graph.tree_of(page).active_child, b2);

    // re-entering the page now lands on the replacement
    let evs = st.tick(&stgy, &vec![NavRequest::Action]).unwrap();
    match &evs[0] {
        NavEvent::FocusChanged { to, .. } => assert_eq!(to.as_slice(), &[b2, opener]),
        other => panic!("expected FocusChanged, got {:?}", other),
    }
}

#[test]
fn scope_move_bubbles_through_plain_menus() {
    // a non-scope menu passes a scope move up to its focus parent's
    // scope menu
    let mut g = NavGraph::new();
    let tabs = g.add_menu(None, MenuSetting { scope: true, wrapping: true }, MenuBuilder::Root);
    let tab1 = g.add_focusable(Some(tabs), Focusable::new(), None);
    let tab2 = g.add_focusable(Some(tabs), Focusable::new(), None);
    let page = g.add_menu(None, MenuSetting { scope: false, wrapping: false }, MenuBuilder::EntityParent(tab1));
    let button = g.add_focusable(Some(page), Focusable::new().prioritized(), None);
    let mut st = NavState::new(g);
    st.insert_tree_menus().unwrap();
    st.set_first_focused().unwrap();
    assert_eq!(focused_of(&st), Some(button));
    let stgy = UiProjectionQuery { positions: Vec::new(), boundaries: None };
    let evs = st.tick(&stgy, &vec![NavRequest::ScopeMove(ScopeDirection::Next)]).unwrap();
    match &evs[0] {
        NavEvent::FocusChanged { to, from } => {
            assert_eq!(to.as_slice(), &[tab2]);
            assert_eq!(from.as_slice(), &[button, tab1]);
        },
        other => panic!("expected FocusChanged, got {:?}", other),
    }
}

#[test]
fn scope_move_descends_into_submenu() {
    // landing on a tab with a submenu descends to the remembered leaf
    let mut g = NavGraph::new();
    let tabs = g.add_menu(None, MenuSetting { scope: true, wrapping: true }, MenuBuilder::Root);
    let tab1 = g.add_focusable(Some(tabs), Focusable::new().prioritized(), None);
    let tab2 = g.add_focusable(Some(tabs), Focusable::new(), None);
    let page2 = g.add_menu(None, MenuSetting { scope: false, wrapping: false }, MenuBuilder::EntityParent(tab2));
    let button2 = g.add_focusable(Some(page2), Focusable::new(), None);
    let mut st = NavState::new(g);
    st.insert_tree_menus().unwrap();
    st.set_first_focused().unwrap();
    assert_eq!(focused_of(&st), Some(tab1));
    let stgy = UiProjectionQuery { positions: Vec::new(), boundaries: None };
    let evs = st.tick(&stgy, &vec![NavRequest::ScopeMove(ScopeDirection::Next)]).unwrap();
    match &evs[0] {
        NavEvent::FocusChanged { to, .. } => assert_eq!(to.as_slice(), &[button2, tab2]),
        other => panic!("expected FocusChanged, got {:?}", other),
    }
}

#[test]
fn named_menus_resolve_to_focusables() {
    let mut g = NavGraph::new();
    let root = g.add_menu(None, MenuSetting { scope: false, wrapping: false }, MenuBuilder::Root);
    let opener = g.add_focusable(Some(root), Focusable::new(), Some(String::from("settings")));
    let sub = g.add_menu(
        None,
        MenuSetting { scope: false, wrapping: false },
        MenuBuilder::NamedParent(String::from("settings")),
    );
    let inner = g.add_focusable(Some(sub), Focusable::new(), None);
    let mut st = NavState::new(g);
    st.resolve_named_menus();
    st.insert_tree_menus().unwrap();
    st.set_first_focused().unwrap();
    assert_eq!(focused_of(&st), Some(opener));
    let stgy = UiProjectionQuery { positions: Vec::new(), boundaries: None };
    let evs = st.tick(&stgy, &vec![NavRequest::Action]).unwrap();
    match &evs[0] {
        NavEvent::FocusChanged { to, .. } => assert_eq!(to.as_slice(), &[inner, opener]),
        other => panic!("expected FocusChanged, got {:?}", other),
    }
}

#[test]
fn rootless_graph_moves_between_all_focusables() {
    // with no menu at all, all focusables form one flat wrapping set
    let mut g = NavGraph::new();
    let a = g.add_focusable(None, Focusable::new().prioritized(), None);
    let b = g.add_focusable(None, Focusable::new(), None);
    let mut st = NavState::new(g);
    st.set_first_focused().unwrap();
    assert_eq!(focused_of(&st), Some(a));
    let stgy = UiProjectionQuery {
        positions: vec![pos(0, 0), pos(10, 0)],
        boundaries: None,
    };
    let evs = st.tick(&stgy, &vec![NavRequest::Move(Direction::East)]).unwrap();
    match &evs[0] {
        NavEvent::FocusChanged { to, .. } => assert_eq!(to.as_slice(), &[b]),
        other => panic!("expected FocusChanged, got {:?}", other),
    }
}

fn assert_breadcrumb_consistent(st: &NavState) {
    // every active node lies on the focus-parent ascent path of the
    // focused node
    if let Some(f) = st.first_focused() {
        let path = ui_navigation::resolve::root_path(&st.graph, f).unwrap();
        for id in 0..st.graph.count() {
            if st.graph.focus_state_at(id) == Some(FocusState::Active) {
                assert!(
                    path.as_slice().contains(&id),
                    "active node {} off the breadcrumb {:?}",
                    id,
                    path.as_slice()
                );
            }
        }
    }
}

#[test]
fn breadcrumbs_stay_consistent() {
    let (mut st, _a, x, chain) = nested_menus();
    let stgy = UiProjectionQuery { positions: Vec::new(), boundaries: None };
    assert_breadcrumb_consistent(&st);
    let sequence = vec![
        NavRequest::FocusOn(x),
        NavRequest::Cancel,
        NavRequest::Cancel,
        NavRequest::Action,
        NavRequest::FocusOn(chain[2]),
        NavRequest::Action,
    ];
    for req in sequence {
        st.tick(&stgy, &vec![req]).unwrap();
        assert_breadcrumb_consistent(&st);
        assert!(count_focused(&st) <= 1);
    }
}

#[test]
fn action_on_cancel_focusable_acts_as_cancel() {
    // activating a cancel focusable ascends exactly like a Cancel
    let mut g = NavGraph::new();
    let root = g.add_menu(None, MenuSetting { scope: false, wrapping: false }, MenuBuilder::Root);
    let opener = g.add_focusable(Some(root), Focusable::new(), None);
    let page = g.add_menu(None, MenuSetting { scope: false, wrapping: false }, MenuBuilder::EntityParent(opener));
    let closer = g.add_focusable(Some(page), Focusable::cancel(), None);
    let mut st = NavState::new(g);
    st.insert_tree_menus().unwrap();
    st.set_first_focused().unwrap();
    let stgy = UiProjectionQuery { positions: Vec::new(), boundaries: None };
    st.tick(&stgy, &vec![NavRequest::Action]).unwrap();
    assert_eq!(focused_of(&st), Some(closer));
    let evs = st.tick(&stgy, &vec![NavRequest::Action]).unwrap();
    match &evs[0] {
        NavEvent::FocusChanged { to, from } => {
            assert_eq!(to.as_slice(), &[opener]);
            assert_eq!(from.as_slice(), &[closer, opener]);
        },
        other => panic!("expected FocusChanged, got {:?}", other),
    }
}

#[test]
fn action_on_cancel_focusable_dead_end_reports_cancel() {
    // the rerouted request dead-ends at the root: the event reports
    // the Cancel it was re-resolved as
    let mut g = NavGraph::new();
    let root = g.add_menu(None, MenuSetting { scope: false, wrapping: false }, MenuBuilder::Root);
    let closer = g.add_focusable(Some(root), Focusable::cancel(), None);
    let mut st = NavState::new(g);
    st.insert_tree_menus().unwrap();
    st.set_first_focused().unwrap();
    let stgy = UiProjectionQuery { positions: Vec::new(), boundaries: None };
    let evs = st.tick(&stgy, &vec![NavRequest::Action]).unwrap();
    match &evs[0] {
        NavEvent::NoChanges { from, request } => {
            assert_eq!(from.as_slice(), &[closer]);
            assert_eq!(*request, NavRequest::Cancel);
        },
        other => panic!("expected NoChanges, got {:?}", other),
    }
}

#[test]
fn wrap_without_boundaries_falls_back_to_farthest() {
    // no boundary metadata: a wrapping move falls back to the sibling
    // farthest in the opposite direction
    let (mut st, items) = row_menu(true);
    let stgy = UiProjectionQuery {
        positions: vec![pos(0, 0), pos(0, 0), pos(10, 0), pos(20, 0)],
        boundaries: None,
    };
    let evs = st.tick(&stgy, &vec![NavRequest::Move(Direction::West)]).unwrap();
    match &evs[0] {
        NavEvent::FocusChanged { to, .. } => assert_eq!(to.as_slice(), &[items[2]]),
        other => panic!("expected FocusChanged, got {:?}", other),
    }
    let evs = st.tick(&stgy, &vec![NavRequest::Move(Direction::East)]).unwrap();
    match &evs[0] {
        NavEvent::FocusChanged { to, .. } => assert_eq!(to.as_slice(), &[items[0]]),
        other => panic!("expected FocusChanged, got {:?}", other),
    }
}
