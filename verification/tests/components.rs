//! Tests for the linear tree and the flat fence components.
use ui_navigation::events::Pos;
use ui_navigation::fence::FocusState as FenceFocusState;
use ui_navigation::fence::Focusable as FenceFocusable;
use ui_navigation::fence::NavFence;
use ui_navigation::tree::BranchId;
use ui_navigation::tree::BranchVersion;
use ui_navigation::tree::Command;
use ui_navigation::tree::Event;
use ui_navigation::tree::Tree;

fn p(x: i32, y: i32) -> Pos {
    Pos { x, y }
}

#[test]
fn tree_builds_branches_and_handles() {
    let mut tree: Tree<usize> = Tree::new(10, 100);
    assert_eq!(tree.focused(), 10);
    let root_id = tree.branch_of(100).unwrap();
    assert_eq!(root_id, BranchId { index: 0, version: BranchVersion(1) });
    assert!(tree.add_navigable(root_id, 11).is_some());

    let sub = tree.add_branch(20, 200);
    assert_eq!(sub.index, 1);
    assert_eq!(tree.focused(), 20);

    // a stale handle is refused
    let stale = BranchId { index: 0, version: BranchVersion(7) };
    assert!(tree.add_navigable(stale, 12).is_none());
    assert!(tree.branch_of(999).is_none());
}

#[test]
fn tree_replace_branches_drops_deeper_ones() {
    let mut tree: Tree<usize> = Tree::new(10, 100);
    let root_id = tree.branch_of(100).unwrap();
    tree.add_branch(20, 200);
    tree.add_branch(30, 300);
    let replaced = tree.replace_branches(root_id, 40, 400).unwrap();
    assert_eq!(replaced.index, 1);
    assert_eq!(tree.focused(), 40);
    assert!(tree.branch_of(300).is_none());
}

#[test]
fn tree_change_focus_moves_within_last_branch() {
    let mut tree: Tree<Pos> = Tree::new(p(0, 0), p(-1, -1));
    let root_id = tree.branch_of(p(-1, -1)).unwrap_or(BranchId {
        index: 0,
        version: BranchVersion(1),
    });
    assert!(tree.add_navigable(root_id, p(10, 0)).is_some());
    assert!(tree.add_navigable(root_id, p(20, 0)).is_some());
    // focused is the active (first) focusable at (0,0)
    match tree.change_focus(Command::MoveRight) {
        Event::FocusChanged { to, disactivated } => {
            assert_eq!(to, p(10, 0));
            assert_eq!(disactivated, vec![p(0, 0)]);
        },
        _ => panic!("expected FocusChanged"),
    }
    // no neighbor to the left of the leftmost element
    match tree.change_focus(Command::MoveLeft) {
        Event::Uncaught { focused, command } => {
            assert_eq!(focused, p(0, 0));
            assert_eq!(command, Command::MoveLeft);
        },
        _ => panic!("expected Uncaught"),
    }
    // non-movement commands are caught by the last branch
    match tree.change_focus(Command::Action) {
        Event::Caught { container, focused, command } => {
            assert_eq!(container, p(-1, -1));
            assert_eq!(focused, p(0, 0));
            assert_eq!(command, Command::Action);
        },
        _ => panic!("expected Caught"),
    }
}

#[test]
fn tree_change_focus_bubbles_to_outer_branch() {
    let mut tree: Tree<Pos> = Tree::new(p(0, 0), p(-1, -1));
    let root_id = BranchId { index: 0, version: BranchVersion(1) };
    assert!(tree.add_navigable(root_id, p(10, 0)).is_some());
    let sub = tree.add_branch(p(0, 10), p(-2, -2));
    assert!(tree.add_navigable(sub, p(0, 20)).is_some());
    // no rightward neighbor in the deep branch: the root branch
    // resolves the move instead, disactivating the trail from it on
    match tree.change_focus(Command::MoveRight) {
        Event::FocusChanged { to, disactivated } => {
            assert_eq!(to, p(10, 0));
            assert_eq!(disactivated, vec![p(0, 0), p(0, 10)]);
        },
        _ => panic!("expected FocusChanged"),
    }
}

#[test]
fn fence_constructors_and_states() {
    assert_eq!(NavFence::root().focus_parent, None);
    assert_eq!(NavFence::reachable_from(4).focus_parent, Some(4));
    assert_eq!(NavFence::new(Some(9)).focus_parent, Some(9));

    let f = FenceFocusable::default();
    assert!(f.is_inert());
    assert!(!f.is_focused());
    assert!(!f.is_active());
    assert!(!f.is_dormant());

    let f = FenceFocusable::with_state(FenceFocusState::Focused);
    assert!(f.is_focused());
    assert!(f.is_active());

    let f = FenceFocusable::with_state(FenceFocusState::Active);
    assert!(!f.is_focused());
    assert!(f.is_active());

    let f = FenceFocusable::with_state(FenceFocusState::Dormant);
    assert!(f.is_dormant());
    assert!(!f.is_active());
}
