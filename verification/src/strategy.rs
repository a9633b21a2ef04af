//! Spatial strategy for 2d movement.
//!
//! The resolver delegates `Move` requests to a [`MenuNavigationStrategy`];
//! the default implementation, [`UiProjectionQuery`], works on host
//! supplied integer plane positions: a sibling is a candidate when its
//! offset from the focused node falls in the direction's quarter-plane
//! cone, and the nearest candidate (squared Euclidean distance, later
//! sibling winning ties) is chosen. When no candidate exists in a
//! wrapping menu and screen boundaries are known, the search origin is
//! projected to the opposite edge of the screen and the sibling nearest
//! to that point is chosen instead; without boundary metadata the
//! search falls back to the sibling farthest in the opposite
//! direction.
use vstd::prelude::*;

use crate::events::Direction;
use crate::events::Pos;

verus! {

/// A rectangle, for specifying [`ScreenBoundaries`].
#[derive(Debug, PartialEq, Eq, Structural, Clone, Copy)]
pub struct Rect {
    /// The higher corner of the rectangle.
    pub max: Pos,
    /// The lower corner of the rectangle.
    pub min: Pos,
}

/// The boundaries of the screen, used by wrapping 2d navigation to
/// project the search origin to the opposite edge.
#[derive(Debug, PartialEq, Eq, Structural, Clone, Copy)]
pub struct ScreenBoundaries {
    /// Position of the camera.
    pub position: Pos,
    /// The borders of the camera.
    pub screen_edge: Rect,
    /// The zoom level of the camera.
    pub scale: i32,
}

/// Clamps an unbounded coordinate into the representable plane.
pub open spec fn spec_clamp_coord(v: int) -> int {
    if v > i32::MAX as int {
        i32::MAX as int
    } else if v < i32::MIN as int {
        i32::MIN as int
    } else {
        v
    }
}

/// Squared Euclidean distance between two positions.
pub open spec fn spec_dist2(a: Pos, b: Pos) -> int {
    (a.x - b.x) * (a.x - b.x) + (a.y - b.y) * (a.y - b.y)
}

/// Clamps an unbounded coordinate into the representable plane.
fn clamp_coord(v: i64) -> (r: i32)
    ensures
        r as int == spec_clamp_coord(v as int),
{
    if v > i32::MAX as i64 {
        i32::MAX
    } else if v < i32::MIN as i64 {
        i32::MIN
    } else {
        v as i32
    }
}

/// Squared Euclidean distance between two positions.
pub(crate) fn dist2(a: Pos, b: Pos) -> (r: i128)
    ensures
        r as int == spec_dist2(a, b),
{
    let dx: i64 = a.x as i64 - b.x as i64;
    let dy: i64 = a.y as i64 - b.y as i64;
    proof {
        assert(0 <= (dx as int) * (dx as int) <= 0x10000000000000000) by (nonlinear_arith)
            requires
                -0x100000000 <= dx as int <= 0x100000000,
        ;
        assert(0 <= (dy as int) * (dy as int) <= 0x10000000000000000) by (nonlinear_arith)
            requires
                -0x100000000 <= dy as int <= 0x100000000,
        ;
    }
    (dx as i128) * (dx as i128) + (dy as i128) * (dy as i128)
}

/// Widening product of two plane coordinates.
fn mul_coord(a: i32, b: i32) -> (r: i64)
    ensures
        r as int == (a as int) * (b as int),
        -0x4000000000000000 <= r as int <= 0x4000000000000000,
{
    proof {
        assert(-0x4000000000000000 <= (a as int) * (b as int)
            <= 0x4000000000000000) by (nonlinear_arith)
            requires
                -0x80000000 <= a as int <= 0x7fffffff,
                -0x80000000 <= b as int <= 0x7fffffff,
        ;
    }
    (a as i64) * (b as i64)
}

/// The coordinate of `p` along the direction opposite to `direction`:
/// what the boundary-less wrap fallback maximizes.
pub open spec fn spec_opposite_coord(direction: Direction, p: Pos) -> int {
    match direction {
        Direction::West => p.x as int,
        Direction::East => -(p.x as int),
        Direction::North => -(p.y as int),
        Direction::South => p.y as int,
    }
}

/// The coordinate of `p` along the direction opposite to `direction`.
fn opposite_coord(direction: Direction, p: Pos) -> (r: i64)
    ensures
        r as int == spec_opposite_coord(direction, p),
{
    match direction {
        Direction::West => p.x as i64,
        Direction::East => -(p.x as i64),
        Direction::North => -(p.y as i64),
        Direction::South => p.y as i64,
    }
}

/// System parameter used to resolve movement and cycling focus updates.
///
/// Implement it to navigate a coordinate system of your own; the default
/// implementation is [`UiProjectionQuery`].
pub trait MenuNavigationStrategy {
    /// The sibling this strategy picks, as a function of its inputs.
    spec fn spec_resolve_2d(
        &self,
        focused: usize,
        direction: Direction,
        cycles: bool,
        siblings: Seq<usize>,
    ) -> Option<usize>;

    /// Which node in `siblings` can be reached from `focused` in
    /// `direction`, if any.
    ///
    /// * `focused`: the currently focused node of the menu,
    /// * `direction`: the direction in which the focus should move,
    /// * `cycles`: whether the navigation should wrap around,
    /// * `siblings`: all the focusable nodes of this menu; `focused`
    ///   appears once among them.
    ///
    /// The strategy never picks `focused` itself, and only picks a
    /// member of `siblings`.
    fn resolve_2d(
        &self,
        focused: usize,
        direction: Direction,
        cycles: bool,
        siblings: &Vec<usize>,
    ) -> (r: Option<usize>)
        ensures
            r == self.spec_resolve_2d(focused, direction, cycles, siblings@),
            match r {
                Some(e) => siblings@.contains(e) && e != focused,
                None => true,
            },
    ;

    /// The strategy's pick, whatever it is, is one of the siblings and
    /// never the focused node itself.
    proof fn lemma_resolve_2d_members(
        &self,
        focused: usize,
        direction: Direction,
        cycles: bool,
        siblings: Seq<usize>,
    )
        ensures
            match self.spec_resolve_2d(focused, direction, cycles, siblings) {
                Some(e) => siblings.contains(e) && e != focused,
                None => true,
            },
    ;
}

/// The default navigation strategy, over host supplied plane positions.
///
/// `positions[i]` is the position of node `i`; a node at or past the end
/// of the vector has no position and is never picked.
#[derive(Debug)]
pub struct UiProjectionQuery {
    /// Position of each node, indexed by node id.
    pub positions: Vec<Pos>,
    /// Screen boundaries, needed only for wrapping menus.
    pub boundaries: Option<ScreenBoundaries>,
}

impl UiProjectionQuery {
    /// The position of node `e`, if the host supplied one.
    pub open spec fn spec_pos_of(self, e: usize) -> Option<Pos> {
        if e < self.positions@.len() {
            Some(self.positions@[e as int])
        } else {
            None
        }
    }

    /// Whether `e` is a candidate for a move from `pf` in `direction`.
    pub open spec fn spec_candidate(self, focused: usize, pf: Pos, direction: Direction, e: usize)
        -> bool {
        &&& e != focused
        &&& match self.spec_pos_of(e) {
            Some(pe) => direction.spec_is_in(pf, pe),
            None => false,
        }
    }

    /// The nearest candidate among the first `k` siblings, a later
    /// sibling winning ties.
    pub open spec fn spec_best_in_cone(
        self,
        focused: usize,
        pf: Pos,
        direction: Direction,
        siblings: Seq<usize>,
        k: int,
    ) -> Option<usize>
        decreases k,
    {
        if k <= 0 || k > siblings.len() {
            None
        } else {
            let prev = self.spec_best_in_cone(focused, pf, direction, siblings, k - 1);
            let e = siblings[k - 1];
            if self.spec_candidate(focused, pf, direction, e) {
                match prev {
                    None => Some(e),
                    Some(b) => {
                        let pe = self.spec_pos_of(e)->0;
                        let pb = self.spec_pos_of(b)->0;
                        if spec_dist2(pe, pf) <= spec_dist2(pb, pf) {
                            Some(e)
                        } else {
                            Some(b)
                        }
                    },
                }
            } else {
                prev
            }
        }
    }

    /// The positioned sibling other than `focused` nearest to `target`,
    /// among the first `k` siblings, a later sibling winning ties.
    pub open spec fn spec_best_near(
        self,
        focused: usize,
        target: Pos,
        siblings: Seq<usize>,
        k: int,
    ) -> Option<usize>
        decreases k,
    {
        if k <= 0 || k > siblings.len() {
            None
        } else {
            let prev = self.spec_best_near(focused, target, siblings, k - 1);
            let e = siblings[k - 1];
            if e != focused && self.spec_pos_of(e) is Some {
                match prev {
                    None => Some(e),
                    Some(b) => {
                        let pe = self.spec_pos_of(e)->0;
                        let pb = self.spec_pos_of(b)->0;
                        if spec_dist2(pe, target) <= spec_dist2(pb, target) {
                            Some(e)
                        } else {
                            Some(b)
                        }
                    },
                }
            } else {
                prev
            }
        }
    }

    /// The positioned sibling other than `focused` farthest in the
    /// direction opposite to `direction`, among the first `k`; a later
    /// sibling wins ties.
    pub open spec fn spec_farthest_opposite(
        self,
        focused: usize,
        direction: Direction,
        siblings: Seq<usize>,
        k: int,
    ) -> Option<usize>
        decreases k,
    {
        if k <= 0 || k > siblings.len() {
            None
        } else {
            let prev = self.spec_farthest_opposite(focused, direction, siblings, k - 1);
            let e = siblings[k - 1];
            if e != focused && self.spec_pos_of(e) is Some {
                match prev {
                    None => Some(e),
                    Some(b) => {
                        let pe = self.spec_pos_of(e)->0;
                        let pb = self.spec_pos_of(b)->0;
                        if spec_opposite_coord(direction, pe) >= spec_opposite_coord(
                            direction,
                            pb,
                        ) {
                            Some(e)
                        } else {
                            Some(b)
                        }
                    },
                }
            } else {
                prev
            }
        }
    }

    /// The search origin projected to the opposite edge of the screen,
    /// clamped into the representable plane.
    pub open spec fn spec_wrap_origin(self, pf: Pos, direction: Direction) -> Option<Pos> {
        match self.boundaries {
            None => None,
            Some(b) => {
                let x = b.position.x as int;
                let y = b.position.y as int;
                let scale = b.scale as int;
                Some(
                    match direction {
                        Direction::South => Pos {
                            x: pf.x,
                            y: spec_clamp_coord(y - scale * b.screen_edge.min.y) as i32,
                        },
                        Direction::North => Pos {
                            x: pf.x,
                            y: spec_clamp_coord(y + scale * b.screen_edge.max.y) as i32,
                        },
                        Direction::East => Pos {
                            x: spec_clamp_coord(x - b.screen_edge.min.x * scale) as i32,
                            y: pf.y,
                        },
                        Direction::West => Pos {
                            x: spec_clamp_coord(x + b.screen_edge.max.x * scale) as i32,
                            y: pf.y,
                        },
                    },
                )
            },
        }
    }

    /// The search origin projected to the opposite edge of the screen.
    fn wrap_origin(&self, pf: Pos, direction: Direction) -> (r: Option<Pos>)
        ensures
            r == self.spec_wrap_origin(pf, direction),
    {
        match &self.boundaries {
            None => None,
            Some(b) => {
                let x: i64 = b.position.x as i64;
                let y: i64 = b.position.y as i64;
                Some(
                    match direction {
                        Direction::South => Pos {
                            x: pf.x,
                            y: clamp_coord(y - mul_coord(b.scale, b.screen_edge.min.y)),
                        },
                        Direction::North => Pos {
                            x: pf.x,
                            y: clamp_coord(y + mul_coord(b.scale, b.screen_edge.max.y)),
                        },
                        Direction::East => Pos {
                            x: clamp_coord(x - mul_coord(b.screen_edge.min.x, b.scale)),
                            y: pf.y,
                        },
                        Direction::West => Pos {
                            x: clamp_coord(x + mul_coord(b.screen_edge.max.x, b.scale)),
                            y: pf.y,
                        },
                    },
                )
            },
        }
    }
}

/// The sibling picked from `siblings` for a move from `focused` in
/// `direction`, over the positions this query holds.
pub open spec fn spec_ui_resolve_2d(
    q: UiProjectionQuery,
    focused: usize,
    direction: Direction,
    cycles: bool,
    siblings: Seq<usize>,
) -> Option<usize> {
    match q.spec_pos_of(focused) {
        None => None,
        Some(pf) => {
            let closest = q.spec_best_in_cone(focused, pf, direction, siblings, siblings.len() as int);
            match closest {
                Some(e) => Some(e),
                None => if cycles {
                    match q.spec_wrap_origin(pf, direction) {
                        Some(origin) => q.spec_best_near(
                            focused,
                            origin,
                            siblings,
                            siblings.len() as int,
                        ),
                        None => q.spec_farthest_opposite(
                            focused,
                            direction,
                            siblings,
                            siblings.len() as int,
                        ),
                    }
                } else {
                    None
                },
            }
        },
    }
}

impl UiProjectionQuery {
    /// If the nearest candidate among the first `k` siblings exists, it
    /// is one of them and is never `focused`.
    proof fn lemma_best_in_cone_member(
        self,
        focused: usize,
        pf: Pos,
        direction: Direction,
        siblings: Seq<usize>,
        k: int,
    )
        ensures
            match self.spec_best_in_cone(focused, pf, direction, siblings, k) {
                Some(b) => exists|i: int| 0 <= i < k <= siblings.len() && siblings[i] == b && b
                    != focused && self.spec_pos_of(b) is Some,
                None => true,
            },
        decreases k,
    {
        if k <= 0 || k > siblings.len() {
        } else {
            self.lemma_best_in_cone_member(focused, pf, direction, siblings, k - 1);
        }
    }

    /// If the nearest positioned sibling among the first `k` exists, it
    /// is one of them and is never `focused`.
    proof fn lemma_best_near_member(
        self,
        focused: usize,
        target: Pos,
        siblings: Seq<usize>,
        k: int,
    )
        ensures
            match self.spec_best_near(focused, target, siblings, k) {
                Some(b) => exists|i: int| 0 <= i < k <= siblings.len() && siblings[i] == b && b
                    != focused && self.spec_pos_of(b) is Some,
                None => true,
            },
        decreases k,
    {
        if k <= 0 || k > siblings.len() {
        } else {
            self.lemma_best_near_member(focused, target, siblings, k - 1);
        }
    }
}

impl UiProjectionQuery {
    /// If the farthest positioned sibling among the first `k` exists,
    /// it is one of them and is never `focused`.
    proof fn lemma_farthest_opposite_member(
        self,
        focused: usize,
        direction: Direction,
        siblings: Seq<usize>,
        k: int,
    )
        ensures
            match self.spec_farthest_opposite(focused, direction, siblings, k) {
                Some(b) => exists|i: int| 0 <= i < k <= siblings.len() && siblings[i] == b && b
                    != focused && self.spec_pos_of(b) is Some,
                None => true,
            },
        decreases k,
    {
        if k <= 0 || k > siblings.len() {
        } else {
            self.lemma_farthest_opposite_member(focused, direction, siblings, k - 1);
        }
    }
}

impl MenuNavigationStrategy for UiProjectionQuery {
    open spec fn spec_resolve_2d(
        &self,
        focused: usize,
        direction: Direction,
        cycles: bool,
        siblings: Seq<usize>,
    ) -> Option<usize> {
        spec_ui_resolve_2d(*self, focused, direction, cycles, siblings)
    }

    proof fn lemma_resolve_2d_members(
        &self,
        focused: usize,
        direction: Direction,
        cycles: bool,
        siblings: Seq<usize>,
    ) {
        match self.spec_pos_of(focused) {
            None => {},
            Some(pf) => {
                self.lemma_best_in_cone_member(focused, pf, direction, siblings, siblings.len() as int);
                match self.spec_wrap_origin(pf, direction) {
                    Some(origin) => {
                        self.lemma_best_near_member(focused, origin, siblings, siblings.len() as int);
                    },
                    None => {
                        self.lemma_farthest_opposite_member(
                            focused,
                            direction,
                            siblings,
                            siblings.len() as int,
                        );
                    },
                }
            },
        }
    }

    fn resolve_2d(
        &self,
        focused: usize,
        direction: Direction,
        cycles: bool,
        siblings: &Vec<usize>,
    ) -> (r: Option<usize>) {
        if focused >= self.positions.len() {
            return None;
        }
        let pf = self.positions[focused];
        let n = siblings.len();

        let mut best: Option<usize> = None;
        let mut k: usize = 0;
        while k < n
            invariant
                n == siblings@.len(),
                0 <= k <= n,
                focused < self.positions@.len(),
                pf == self.positions@[focused as int],
                best == self.spec_best_in_cone(focused, pf, direction, siblings@, k as int),
                match best {
                    Some(b) => b < self.positions@.len(),
                    None => true,
                },
            decreases n - k,
        {
            let e = siblings[k];
            if e != focused && e < self.positions.len() {
                let pe = self.positions[e];
                if direction.is_in(pf, pe) {
                    match best {
                        None => {
                            best = Some(e);
                        },
                        Some(b) => {
                            let pb = self.positions[b];
                            if dist2(pe, pf) <= dist2(pb, pf) {
                                best = Some(e);
                            }
                        },
                    }
                }
            }
            k = k + 1;
        }
        proof {
            self.lemma_best_in_cone_member(focused, pf, direction, siblings@, n as int);
        }
        match best {
            Some(b) => Some(b),
            None => {
                if !cycles {
                    return None;
                }
                match self.wrap_origin(pf, direction) {
                    None => {
                        // no boundary metadata: fall back to the sibling
                        // farthest in the opposite direction
                        let mut far: Option<usize> = None;
                        let mut k: usize = 0;
                        while k < n
                            invariant
                                n == siblings@.len(),
                                0 <= k <= n,
                                far == self.spec_farthest_opposite(
                                    focused,
                                    direction,
                                    siblings@,
                                    k as int,
                                ),
                                match far {
                                    Some(b) => b < self.positions@.len(),
                                    None => true,
                                },
                            decreases n - k,
                        {
                            let e = siblings[k];
                            if e != focused && e < self.positions.len() {
                                let pe = self.positions[e];
                                match far {
                                    None => {
                                        far = Some(e);
                                    },
                                    Some(b) => {
                                        let pb = self.positions[b];
                                        if opposite_coord(direction, pe) >= opposite_coord(
                                            direction,
                                            pb,
                                        ) {
                                            far = Some(e);
                                        }
                                    },
                                }
                            }
                            k = k + 1;
                        }
                        proof {
                            self.lemma_farthest_opposite_member(
                                focused,
                                direction,
                                siblings@,
                                n as int,
                            );
                        }
                        far
                    },
                    Some(origin) => {
                        let mut near: Option<usize> = None;
                        let mut k: usize = 0;
                        while k < n
                            invariant
                                n == siblings@.len(),
                                0 <= k <= n,
                                near == self.spec_best_near(focused, origin, siblings@, k as int),
                                match near {
                                    Some(b) => b < self.positions@.len(),
                                    None => true,
                                },
                            decreases n - k,
                        {
                            let e = siblings[k];
                            if e != focused && e < self.positions.len() {
                                let pe = self.positions[e];
                                match near {
                                    None => {
                                        near = Some(e);
                                    },
                                    Some(b) => {
                                        let pb = self.positions[b];
                                        if dist2(pe, origin) <= dist2(pb, origin) {
                                            near = Some(e);
                                        }
                                    },
                                }
                            }
                            k = k + 1;
                        }
                        proof {
                            self.lemma_best_near_member(focused, origin, siblings@, n as int);
                        }
                        near
                    },
                }
            },
        }
    }
}

} // verus!
