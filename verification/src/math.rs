//! Two-dimensional integer vectors and the separating-axis intersection test
//! over convex quadrilaterals.
//!
//! Coordinates are fixed-point world units held in `i64`. Rectangles used by
//! the collision pass keep every corner coordinate within [`COORD_LIMIT`], so
//! that every product the separating-axis test forms fits in `i128`.

use vstd::prelude::*;

verus! {

/// Largest magnitude a collision-rectangle corner coordinate may have.
pub const COORD_LIMIT: i64 = 524288;

/// Vector for 2d translations. Coordinates are fixed-point world units.
#[derive(Clone, Copy, PartialEq, Eq, Structural, Debug)]
pub struct Vec2 {
    pub x: i64,
    pub y: i64,
}

/// Bound under which all the vector helpers below are free of overflow.
pub open spec fn vec_small(v: Vec2) -> bool {
    -1000000000 <= v.x <= 1000000000 && -1000000000 <= v.y <= 1000000000
}

impl Vec2 {
    pub fn new(x: i64, y: i64) -> (r: Vec2)
        ensures
            r == (Vec2 { x, y }),
    {
        Vec2 { x, y }
    }

    /// The zero vector.
    pub fn zero() -> (r: Vec2)
        ensures
            r == (Vec2 { x: 0, y: 0 }),
    {
        Vec2 { x: 0, y: 0 }
    }

    /// The all-ones vector.
    pub fn one() -> (r: Vec2)
        ensures
            r == (Vec2 { x: 1, y: 1 }),
    {
        Vec2 { x: 1, y: 1 }
    }

    pub fn add(self, other: Vec2) -> (r: Vec2)
        requires
            vec_small(self),
            vec_small(other),
        ensures
            r.x == self.x + other.x,
            r.y == self.y + other.y,
    {
        Vec2 { x: self.x + other.x, y: self.y + other.y }
    }

    pub fn sub(self, other: Vec2) -> (r: Vec2)
        requires
            vec_small(self),
            vec_small(other),
        ensures
            r.x == self.x - other.x,
            r.y == self.y - other.y,
    {
        Vec2 { x: self.x - other.x, y: self.y - other.y }
    }

    pub fn neg(self) -> (r: Vec2)
        requires
            vec_small(self),
        ensures
            r.x == -self.x,
            r.y == -self.y,
    {
        Vec2 { x: -self.x, y: -self.y }
    }

    pub fn scale(self, k: i64) -> (r: Vec2)
        requires
            vec_small(self),
            -1000000000 <= k <= 1000000000,
        ensures
            r.x == self.x * k,
            r.y == self.y * k,
    {
        proof {
            assert(-1000000000000000000 <= self.x * k <= 1000000000000000000) by (nonlinear_arith)
                requires
                    -1000000000 <= self.x <= 1000000000,
                    -1000000000 <= k <= 1000000000,
            ;
            assert(-1000000000000000000 <= self.y * k <= 1000000000000000000) by (nonlinear_arith)
                requires
                    -1000000000 <= self.y <= 1000000000,
                    -1000000000 <= k <= 1000000000,
            ;
        }
        Vec2 { x: self.x * k, y: self.y * k }
    }

    /// Scalar dot product of two vectors.
    pub fn dot(a: Vec2, b: Vec2) -> (r: i64)
        requires
            vec_small(a),
            vec_small(b),
        ensures
            r == a.x * b.x + a.y * b.y,
    {
        proof {
            lemma_product_bound(a.x as int, b.x as int, 1000000000);
            lemma_product_bound(a.y as int, b.y as int, 1000000000);
        }
        a.x * b.x + a.y * b.y
    }

    /// Scalar cross product of two vectors.
    pub fn cross(a: Vec2, b: Vec2) -> (r: i64)
        requires
            vec_small(a),
            vec_small(b),
        ensures
            r == a.x * b.y - a.y * b.x,
    {
        proof {
            lemma_product_bound(a.x as int, b.y as int, 1000000000);
            lemma_product_bound(a.y as int, b.x as int, 1000000000);
        }
        a.x * b.y - a.y * b.x
    }

    /// The perpendicular vector, a quarter turn clockwise.
    pub fn perp(a: Vec2) -> (r: Vec2)
        requires
            vec_small(a),
        ensures
            r.x == a.y,
            r.y == -a.x,
    {
        Vec2 { x: a.y, y: -a.x }
    }

    /// Squared magnitude of the vector.
    pub fn magnitude_sqr(&self) -> (r: i64)
        requires
            vec_small(*self),
        ensures
            r == self.x * self.x + self.y * self.y,
    {
        proof {
            lemma_product_bound(self.x as int, self.x as int, 1000000000);
            lemma_product_bound(self.y as int, self.y as int, 1000000000);
        }
        self.x * self.x + self.y * self.y
    }
}

pub proof fn lemma_product_bound(a: int, b: int, m: int)
    requires
        0 <= m,
        -m <= a <= m,
        -m <= b <= m,
    ensures
        -m * m <= a * b <= m * m,
{
    assert(-m * m <= a * b <= m * m) by (nonlinear_arith)
        requires
            0 <= m,
            -m <= a <= m,
            -m <= b <= m,
    ;
}

/// A convex quadrilateral, corners in winding order.
pub struct Rect {
    pub points: Vec<Vec2>,
}

impl View for Rect {
    type V = Seq<Vec2>;

    open spec fn view(&self) -> Seq<Vec2> {
        self.points@
    }
}

/// The corner coordinate lies within the range the intersection test admits.
pub open spec fn in_coord_range(v: Vec2) -> bool {
    &&& -COORD_LIMIT <= v.x <= COORD_LIMIT
    &&& -COORD_LIMIT <= v.y <= COORD_LIMIT
}

/// The separating axis contributed by edge `i` of the quadrilateral: the
/// perpendicular of the edge from corner `i` to the next corner.
pub open spec fn rect_axis(r: Seq<Vec2>, i: int) -> (int, int) {
    let p = r[i];
    let q = r[if i == 3 { 0int } else { i + 1 }];
    ((q.y - p.y) as int, -((q.x - p.x) as int))
}

/// A well-formed collision rectangle: four corners, all within coordinate
/// range, and no degenerate edge (so every separating axis is a real axis).
pub open spec fn rect_wf(r: Seq<Vec2>) -> bool {
    &&& r.len() == 4
    &&& forall|i: int| 0 <= i < 4 ==> in_coord_range(#[trigger] r[i])
    &&& forall|i: int|
        0 <= i < 4 ==> !((#[trigger] rect_axis(r, i)).0 == 0 && rect_axis(r, i).1 == 0)
}

/// Projection of a point onto an (unnormalized) axis.
pub open spec fn proj(p: Vec2, ax: (int, int)) -> int {
    p.x * ax.0 + p.y * ax.1
}

pub open spec fn min2(a: int, b: int) -> int {
    if a <= b {
        a
    } else {
        b
    }
}

pub open spec fn max2(a: int, b: int) -> int {
    if a >= b {
        a
    } else {
        b
    }
}

/// Least projection of the four corners onto an axis.
pub open spec fn proj_min(r: Seq<Vec2>, ax: (int, int)) -> int {
    min2(min2(proj(r[0], ax), proj(r[1], ax)), min2(proj(r[2], ax), proj(r[3], ax)))
}

/// Greatest projection of the four corners onto an axis.
pub open spec fn proj_max(r: Seq<Vec2>, ax: (int, int)) -> int {
    max2(max2(proj(r[0], ax), proj(r[1], ax)), max2(proj(r[2], ax), proj(r[3], ax)))
}

/// Signed overlap of the two projection intervals on an axis. The intervals
/// intersect exactly when this is at least zero, and then it is the
/// penetration depth along the axis, in units of the axis length.
pub open spec fn overlap_on(a: Seq<Vec2>, b: Seq<Vec2>, ax: (int, int)) -> int {
    min2(proj_max(a, ax), proj_max(b, ax)) - max2(proj_min(a, ax), proj_min(b, ax))
}

/// The eight candidate separating axes of a pair of quadrilaterals: the four
/// edge perpendiculars of each side.
pub open spec fn axis_at(a: Seq<Vec2>, b: Seq<Vec2>, i: int) -> (int, int) {
    if i < 4 {
        rect_axis(a, i)
    } else {
        rect_axis(b, i - 4)
    }
}

/// The separating-axis criterion: the quadrilaterals overlap exactly when the
/// projection intervals intersect on every candidate axis.
pub open spec fn sat_overlaps(a: Seq<Vec2>, b: Seq<Vec2>) -> bool {
    forall|i: int| 0 <= i < 8 ==> overlap_on(a, b, #[trigger] axis_at(a, b, i)) >= 0
}

/// Squared length of an axis.
pub open spec fn len2(ax: (int, int)) -> int {
    ax.0 * ax.0 + ax.1 * ax.1
}

/// The normalized depth `d1 / sqrt(l1)` is at most `d2 / sqrt(l2)`, written
/// without roots or division: squared depths cross-multiplied by the squared
/// axis lengths. Meaningful for nonnegative depths and positive lengths.
pub open spec fn depth_le(d1: int, l1: int, d2: int, l2: int) -> bool {
    d1 * d1 * l2 <= d2 * d2 * l1
}

/// Minimum translation data: the chosen (unnormalized) axis and the
/// penetration depth along it, in units of the axis length. The actual
/// displacement vector is `axis * depth / len2(axis)`.
#[derive(Clone, Copy, PartialEq, Eq, Structural, Debug)]
pub struct Mtv {
    pub axis: Vec2,
    pub depth: i64,
}

pub open spec fn mtv_axis(m: Mtv) -> (int, int) {
    (m.axis.x as int, m.axis.y as int)
}

pub open spec fn zero_mtv() -> Mtv {
    Mtv { axis: Vec2 { x: 0, y: 0 }, depth: 0 }
}

/// The minimum-translation result is one of the candidate axes, carries the
/// interval overlap measured on that axis, and no candidate axis shows a
/// smaller normalized penetration.
pub open spec fn is_min_mtv(a: Seq<Vec2>, b: Seq<Vec2>, m: Mtv) -> bool {
    &&& exists|j: int| 0 <= j < 8 && mtv_axis(m) == #[trigger] axis_at(a, b, j)
    &&& m.depth == overlap_on(a, b, mtv_axis(m))
    &&& forall|k: int|
        0 <= k < 8 ==> depth_le(
            m.depth as int,
            len2(mtv_axis(m)),
            overlap_on(a, b, #[trigger] axis_at(a, b, k)),
            len2(axis_at(a, b, k)),
        )
}

impl Rect {
    pub open spec fn wf(&self) -> bool {
        rect_wf(self@)
    }

    pub fn new(points: Vec<Vec2>) -> (r: Rect)
        ensures
            r@ == points@,
    {
        Rect { points }
    }

    /// Candidate axis `i` of the pair, as an executable vector.
    fn axis_of(a: &Rect, b: &Rect, i: usize) -> (r: Vec2)
        requires
            a.wf(),
            b.wf(),
            i < 8,
        ensures
            (r.x as int, r.y as int) == axis_at(a@, b@, i as int),
            -2 * COORD_LIMIT <= r.x <= 2 * COORD_LIMIT,
            -2 * COORD_LIMIT <= r.y <= 2 * COORD_LIMIT,
    {
        if i < 4 {
            let p = a.points[i];
            let q = a.points[if i == 3 { 0 } else { i + 1 }];
            Vec2 { x: q.y - p.y, y: -(q.x - p.x) }
        } else {
            let j = i - 4;
            let p = b.points[j];
            let q = b.points[if j == 3 { 0 } else { j + 1 }];
            Vec2 { x: q.y - p.y, y: -(q.x - p.x) }
        }
    }

    /// Projection interval of the four corners onto an axis.
    fn proj_range(r: &Rect, ax: Vec2) -> (res: (i128, i128))
        requires
            r.wf(),
            -2 * COORD_LIMIT <= ax.x <= 2 * COORD_LIMIT,
            -2 * COORD_LIMIT <= ax.y <= 2 * COORD_LIMIT,
        ensures
            res.0 as int == proj_min(r@, (ax.x as int, ax.y as int)),
            res.1 as int == proj_max(r@, (ax.x as int, ax.y as int)),
            -2199023255552 <= res.0 <= 2199023255552,
            -2199023255552 <= res.1 <= 2199023255552,
    {
        proof {
            lemma_proj_bound(r@, (ax.x as int, ax.y as int));
        }
        let d0 = dot_proj(r.points[0], ax);
        let d1 = dot_proj(r.points[1], ax);
        let d2 = dot_proj(r.points[2], ax);
        let d3 = dot_proj(r.points[3], ax);
        let lo01 = if d0 <= d1 { d0 } else { d1 };
        let lo23 = if d2 <= d3 { d2 } else { d3 };
        let lo = if lo01 <= lo23 { lo01 } else { lo23 };
        let hi01 = if d0 >= d1 { d0 } else { d1 };
        let hi23 = if d2 >= d3 { d2 } else { d3 };
        let hi = if hi01 >= hi23 { hi01 } else { hi23 };
        (lo, hi)
    }

    /// Separating-axis intersection test. Returns whether the quadrilaterals
    /// overlap and, when they do, the least-penetration translation data;
    /// when they do not, the zero translation.
    pub fn intersects(&self, other: &Rect) -> (res: (bool, Mtv))
        requires
            self.wf(),
            other.wf(),
        ensures
            res.0 == sat_overlaps(self@, other@),
            res.0 ==> is_min_mtv(self@, other@, res.1),
            !res.0 ==> res.1 == zero_mtv(),
    {
        let ax0 = Rect::axis_of(self, other, 0);
        let (amin, amax) = Rect::proj_range(self, ax0);
        let (bmin, bmax) = Rect::proj_range(other, ax0);
        if amax < bmin || bmax < amin {
            proof {
                assert(overlap_on(self@, other@, axis_at(self@, other@, 0)) < 0);
            }
            return (false, Mtv { axis: Vec2 { x: 0, y: 0 }, depth: 0 });
        }
        let lo = if amin >= bmin { amin } else { bmin };
        let hi = if amax <= bmax { amax } else { bmax };
        let mut best_depth: i128 = hi - lo;
        let mut best_axis: Vec2 = ax0;
        let mut best_len2: i128 = axis_len2(ax0);
        proof {
            lemma_axis_nonzero(self@, other@, 0);
        }
        let mut i: usize = 1;
        while i < 8
            invariant
                self.wf(),
                other.wf(),
                1 <= i <= 8,
                forall|j: int|
                    0 <= j < i ==> overlap_on(self@, other@, #[trigger] axis_at(self@, other@, j))
                        >= 0,
                exists|j: int|
                    0 <= j < i && (best_axis.x as int, best_axis.y as int) == #[trigger] axis_at(
                        self@,
                        other@,
                        j,
                    ),
                best_depth as int == overlap_on(
                    self@,
                    other@,
                    (best_axis.x as int, best_axis.y as int),
                ),
                best_len2 as int == len2((best_axis.x as int, best_axis.y as int)),
                forall|k: int|
                    0 <= k < i ==> depth_le(
                        best_depth as int,
                        best_len2 as int,
                        overlap_on(self@, other@, #[trigger] axis_at(self@, other@, k)),
                        len2(axis_at(self@, other@, k)),
                    ),
                0 <= best_depth <= 4398046511104,
                1 <= best_len2 <= 2199023255552,
                -2 * COORD_LIMIT <= best_axis.x <= 2 * COORD_LIMIT,
                -2 * COORD_LIMIT <= best_axis.y <= 2 * COORD_LIMIT,
            decreases 8 - i,
        {
            let ax = Rect::axis_of(self, other, i);
            let (amin, amax) = Rect::proj_range(self, ax);
            let (bmin, bmax) = Rect::proj_range(other, ax);
            if amax < bmin || bmax < amin {
                proof {
                    assert(overlap_on(self@, other@, axis_at(self@, other@, i as int)) < 0);
                }
                return (false, Mtv { axis: Vec2 { x: 0, y: 0 }, depth: 0 });
            }
            let lo = if amin >= bmin { amin } else { bmin };
            let hi = if amax <= bmax { amax } else { bmax };
            let depth: i128 = hi - lo;
            let l2 = axis_len2(ax);
            proof {
                lemma_axis_nonzero(self@, other@, i as int);
                lemma_product_bound2(depth as int, depth as int, 4398046511104, 4398046511104);
                lemma_product_bound2(
                    depth as int * depth as int,
                    best_len2 as int,
                    19342813113834066795298816,
                    2199023255552,
                );
                lemma_product_bound2(
                    best_depth as int,
                    best_depth as int,
                    4398046511104,
                    4398046511104,
                );
                lemma_product_bound2(
                    best_depth as int * best_depth as int,
                    l2 as int,
                    19342813113834066795298816,
                    2199023255552,
                );
            }
            let ghost old_best_depth = best_depth as int;
            let ghost old_best_len2 = best_len2 as int;
            if depth * depth * best_len2 < best_depth * best_depth * l2 {
                proof {
                    assert forall|k: int| 0 <= k < i implies depth_le(
                        depth as int,
                        l2 as int,
                        overlap_on(self@, other@, #[trigger] axis_at(self@, other@, k)),
                        len2(axis_at(self@, other@, k)),
                    ) by {
                        lemma_axis_nonzero(self@, other@, k);
                        lemma_depth_le_trans(
                            depth as int,
                            l2 as int,
                            old_best_depth,
                            old_best_len2,
                            overlap_on(self@, other@, axis_at(self@, other@, k)),
                            len2(axis_at(self@, other@, k)),
                        );
                    }
                }
                best_depth = depth;
                best_axis = ax;
                best_len2 = l2;
            }
            i = i + 1;
        }
        proof {
            assert(sat_overlaps(self@, other@));
        }
        (true, Mtv { axis: best_axis, depth: best_depth as i64 })
    }

    /// The axis-aligned collision rectangle of a body: centre `(cx, cy)`,
    /// width `w` and height `h`. The left and bottom edges sit half an extent
    /// below the centre, rounding the half down, so the full extents are kept
    /// exactly.
    pub fn from_extents(cx: i64, cy: i64, w: i64, h: i64) -> (r: Rect)
        requires
            1 <= w <= 262144,
            1 <= h <= 262144,
            -262144 <= cx <= 262144,
            -262144 <= cy <= 262144,
        ensures
            r.wf(),
            is_aabb(r@, cx - w / 2, cy - h / 2, cx - w / 2 + w, cy - h / 2 + h),
    {
        let l = cx - w / 2;
        let rr = l + w;
        let b = cy - h / 2;
        let t = b + h;
        let mut points: Vec<Vec2> = Vec::new();
        points.push(Vec2 { x: l, y: t });
        points.push(Vec2 { x: rr, y: t });
        points.push(Vec2 { x: rr, y: b });
        points.push(Vec2 { x: l, y: b });
        let r = Rect { points };
        proof {
            assert forall|i: int| 0 <= i < 4 implies !((#[trigger] rect_axis(r@, i)).0 == 0
                && rect_axis(r@, i).1 == 0) by {
                assert(rect_axis(r@, 0) == (0int, -(rr - l) as int));
                assert(rect_axis(r@, 1) == ((b - t) as int, 0int));
                assert(rect_axis(r@, 2) == (0int, (rr - l) as int));
                assert(rect_axis(r@, 3) == ((t - b) as int, 0int));
            }
        }
        r
    }
}

/// The four corners describe the axis-aligned rectangle `[l, r] x [b, t]`,
/// in the winding order the collision pass builds.
pub open spec fn is_aabb(q: Seq<Vec2>, l: int, b: int, r: int, t: int) -> bool {
    &&& q.len() == 4
    &&& l < r
    &&& b < t
    &&& q[0].x == l && q[0].y == t
    &&& q[1].x == r && q[1].y == t
    &&& q[2].x == r && q[2].y == b
    &&& q[3].x == l && q[3].y == b
}

/// The interval overlap measured on an axis does not depend on which
/// quadrilateral is named first.
pub proof fn lemma_overlap_symmetric(a: Seq<Vec2>, b: Seq<Vec2>, ax: (int, int))
    ensures
        overlap_on(a, b, ax) == overlap_on(b, a, ax),
{
}

/// Exchanging the quadrilaterals permutes the candidate axes.
pub proof fn lemma_axis_exchange(a: Seq<Vec2>, b: Seq<Vec2>, i: int)
    requires
        0 <= i < 8,
    ensures
        axis_at(a, b, i) == axis_at(
            b,
            a,
            if i < 4 {
                i + 4
            } else {
                i - 4
            },
        ),
{
}

/// Collision symmetry: the separating-axis test reports the same overlap
/// flag whichever of the two quadrilaterals is named first.
pub proof fn lemma_sat_symmetric(a: Seq<Vec2>, b: Seq<Vec2>)
    ensures
        sat_overlaps(a, b) == sat_overlaps(b, a),
{
    if sat_overlaps(a, b) {
        assert forall|i: int| 0 <= i < 8 implies overlap_on(
            b,
            a,
            #[trigger] axis_at(b, a, i),
        ) >= 0 by {
            let j: int = if i < 4 {
                i + 4
            } else {
                i - 4
            };
            lemma_axis_exchange(b, a, i);
            assert(overlap_on(a, b, axis_at(a, b, j)) >= 0);
            lemma_overlap_symmetric(a, b, axis_at(a, b, j));
        }
    }
    if sat_overlaps(b, a) {
        assert forall|i: int| 0 <= i < 8 implies overlap_on(
            a,
            b,
            #[trigger] axis_at(a, b, i),
        ) >= 0 by {
            let j: int = if i < 4 {
                i + 4
            } else {
                i - 4
            };
            lemma_axis_exchange(a, b, i);
            assert(overlap_on(b, a, axis_at(b, a, j)) >= 0);
            lemma_overlap_symmetric(b, a, axis_at(b, a, j));
        }
    }
}

proof fn lemma_minmax_scale(u: int, v: int, k: int)
    ensures
        k > 0 ==> min2(u * k, v * k) == min2(u, v) * k && max2(u * k, v * k) == max2(u, v) * k,
        k < 0 ==> min2(u * k, v * k) == max2(u, v) * k && max2(u * k, v * k) == min2(u, v) * k,
{
    if u <= v {
        assert(k > 0 ==> u * k <= v * k) by (nonlinear_arith)
            requires
                u <= v,
        ;
        assert(k < 0 ==> v * k <= u * k) by (nonlinear_arith)
            requires
                u <= v,
        ;
    } else {
        assert(k > 0 ==> v * k <= u * k) by (nonlinear_arith)
            requires
                v <= u,
        ;
        assert(k < 0 ==> u * k <= v * k) by (nonlinear_arith)
            requires
                v <= u,
        ;
    }
}

proof fn lemma_scaled_sign(d: int, k: int)
    requires
        k != 0,
    ensures
        k > 0 ==> ((d * k >= 0) <==> (d >= 0)),
        k < 0 ==> ((d * k >= 0) <==> (d <= 0)),
{
    assert(k > 0 ==> ((d * k >= 0) <==> (d >= 0))) by (nonlinear_arith);
    assert(k < 0 ==> ((d * k >= 0) <==> (d <= 0))) by (nonlinear_arith);
}

/// On a vertical axis `(0, k)` the projection intervals of two axis-aligned
/// rectangles intersect exactly when their vertical extents do.
proof fn lemma_vertical_overlap(
    qa: Seq<Vec2>,
    la: int,
    ba: int,
    ra: int,
    ta: int,
    qb: Seq<Vec2>,
    lb: int,
    bb: int,
    rb: int,
    tb: int,
    k: int,
)
    requires
        is_aabb(qa, la, ba, ra, ta),
        is_aabb(qb, lb, bb, rb, tb),
        k != 0,
    ensures
        (overlap_on(qa, qb, (0int, k)) >= 0) == (ba <= tb && bb <= ta),
{
    let ax = (0int, k);
    assert(proj(qa[0], ax) == ta * k && proj(qa[1], ax) == ta * k && proj(qa[2], ax) == ba * k
        && proj(qa[3], ax) == ba * k) by {
        assert(qa[0].x * 0 == 0) by (nonlinear_arith);
        assert(qa[1].x * 0 == 0) by (nonlinear_arith);
        assert(qa[2].x * 0 == 0) by (nonlinear_arith);
        assert(qa[3].x * 0 == 0) by (nonlinear_arith);
    }
    assert(proj(qb[0], ax) == tb * k && proj(qb[1], ax) == tb * k && proj(qb[2], ax) == bb * k
        && proj(qb[3], ax) == bb * k) by {
        assert(qb[0].x * 0 == 0) by (nonlinear_arith);
        assert(qb[1].x * 0 == 0) by (nonlinear_arith);
        assert(qb[2].x * 0 == 0) by (nonlinear_arith);
        assert(qb[3].x * 0 == 0) by (nonlinear_arith);
    }
    assert(proj_min(qa, ax) == min2(ta * k, ba * k));
    assert(proj_max(qa, ax) == max2(ta * k, ba * k));
    assert(proj_min(qb, ax) == min2(tb * k, bb * k));
    assert(proj_max(qb, ax) == max2(tb * k, bb * k));
    lemma_minmax_scale(ta, ba, k);
    lemma_minmax_scale(tb, bb, k);
    let d = min2(ta, tb) - max2(ba, bb);
    if k > 0 {
        lemma_minmax_scale(ta, tb, k);
        lemma_minmax_scale(ba, bb, k);
        assert(overlap_on(qa, qb, ax) == min2(ta, tb) * k - max2(ba, bb) * k);
        assert(min2(ta, tb) * k - max2(ba, bb) * k == d * k) by (nonlinear_arith)
            requires
                d == min2(ta, tb) - max2(ba, bb),
        ;
        lemma_scaled_sign(d, k);
    } else {
        lemma_minmax_scale(ba, bb, k);
        lemma_minmax_scale(ta, tb, k);
        assert(overlap_on(qa, qb, ax) == max2(ba, bb) * k - min2(ta, tb) * k);
        assert(max2(ba, bb) * k - min2(ta, tb) * k == (-d) * k) by (nonlinear_arith)
            requires
                d == min2(ta, tb) - max2(ba, bb),
        ;
        lemma_scaled_sign(-d, k);
    }
}

/// On a horizontal axis `(m, 0)` the projection intervals of two
/// axis-aligned rectangles intersect exactly when their horizontal extents
/// do.
proof fn lemma_horizontal_overlap(
    qa: Seq<Vec2>,
    la: int,
    ba: int,
    ra: int,
    ta: int,
    qb: Seq<Vec2>,
    lb: int,
    bb: int,
    rb: int,
    tb: int,
    m: int,
)
    requires
        is_aabb(qa, la, ba, ra, ta),
        is_aabb(qb, lb, bb, rb, tb),
        m != 0,
    ensures
        (overlap_on(qa, qb, (m, 0int)) >= 0) == (la <= rb && lb <= ra),
{
    let ax = (m, 0int);
    assert(proj(qa[0], ax) == la * m && proj(qa[1], ax) == ra * m && proj(qa[2], ax) == ra * m
        && proj(qa[3], ax) == la * m) by {
        assert(qa[0].y * 0 == 0) by (nonlinear_arith);
        assert(qa[1].y * 0 == 0) by (nonlinear_arith);
        assert(qa[2].y * 0 == 0) by (nonlinear_arith);
        assert(qa[3].y * 0 == 0) by (nonlinear_arith);
    }
    assert(proj(qb[0], ax) == lb * m && proj(qb[1], ax) == rb * m && proj(qb[2], ax) == rb * m
        && proj(qb[3], ax) == lb * m) by {
        assert(qb[0].y * 0 == 0) by (nonlinear_arith);
        assert(qb[1].y * 0 == 0) by (nonlinear_arith);
        assert(qb[2].y * 0 == 0) by (nonlinear_arith);
        assert(qb[3].y * 0 == 0) by (nonlinear_arith);
    }
    assert(proj_min(qa, ax) == min2(la * m, ra * m));
    assert(proj_max(qa, ax) == max2(la * m, ra * m));
    assert(proj_min(qb, ax) == min2(lb * m, rb * m));
    assert(proj_max(qb, ax) == max2(lb * m, rb * m));
    lemma_minmax_scale(la, ra, m);
    lemma_minmax_scale(lb, rb, m);
    let d = min2(ra, rb) - max2(la, lb);
    if m > 0 {
        lemma_minmax_scale(ra, rb, m);
        lemma_minmax_scale(la, lb, m);
        assert(overlap_on(qa, qb, ax) == min2(ra, rb) * m - max2(la, lb) * m);
        assert(min2(ra, rb) * m - max2(la, lb) * m == d * m) by (nonlinear_arith)
            requires
                d == min2(ra, rb) - max2(la, lb),
        ;
        lemma_scaled_sign(d, m);
    } else {
        lemma_minmax_scale(la, lb, m);
        lemma_minmax_scale(ra, rb, m);
        assert(overlap_on(qa, qb, ax) == max2(la, lb) * m - min2(ra, rb) * m);
        assert(max2(la, lb) * m - min2(ra, rb) * m == (-d) * m) by (nonlinear_arith)
            requires
                d == min2(ra, rb) - max2(la, lb),
        ;
        lemma_scaled_sign(-d, m);
    }
}

/// For axis-aligned rectangles the separating-axis test is exactly the two
/// interval tests: the rectangles overlap when both the horizontal and the
/// vertical extents intersect.
pub proof fn lemma_sat_aabb(
    qa: Seq<Vec2>,
    la: int,
    ba: int,
    ra: int,
    ta: int,
    qb: Seq<Vec2>,
    lb: int,
    bb: int,
    rb: int,
    tb: int,
)
    requires
        is_aabb(qa, la, ba, ra, ta),
        is_aabb(qb, lb, bb, rb, tb),
    ensures
        sat_overlaps(qa, qb) == (la <= rb && lb <= ra && ba <= tb && bb <= ta),
{
    assert(rect_axis(qa, 0) == (0int, -(ra - la)));
    assert(rect_axis(qa, 1) == (ba - ta, 0int));
    assert(rect_axis(qa, 2) == (0int, ra - la));
    assert(rect_axis(qa, 3) == (ta - ba, 0int));
    assert(rect_axis(qb, 0) == (0int, -(rb - lb)));
    assert(rect_axis(qb, 1) == (bb - tb, 0int));
    assert(rect_axis(qb, 2) == (0int, rb - lb));
    assert(rect_axis(qb, 3) == (tb - bb, 0int));
    lemma_vertical_overlap(qa, la, ba, ra, ta, qb, lb, bb, rb, tb, -(ra - la));
    lemma_horizontal_overlap(qa, la, ba, ra, ta, qb, lb, bb, rb, tb, ba - ta);
    lemma_vertical_overlap(qa, la, ba, ra, ta, qb, lb, bb, rb, tb, ra - la);
    lemma_horizontal_overlap(qa, la, ba, ra, ta, qb, lb, bb, rb, tb, ta - ba);
    lemma_vertical_overlap(qa, la, ba, ra, ta, qb, lb, bb, rb, tb, -(rb - lb));
    lemma_horizontal_overlap(qa, la, ba, ra, ta, qb, lb, bb, rb, tb, bb - tb);
    lemma_vertical_overlap(qa, la, ba, ra, ta, qb, lb, bb, rb, tb, rb - lb);
    lemma_horizontal_overlap(qa, la, ba, ra, ta, qb, lb, bb, rb, tb, tb - bb);
    let hit = la <= rb && lb <= ra && ba <= tb && bb <= ta;
    if hit {
        assert forall|i: int| 0 <= i < 8 implies overlap_on(qa, qb, #[trigger] axis_at(qa, qb, i))
            >= 0 by {
            if i == 0 {
                assert(axis_at(qa, qb, i) == (0int, -(ra - la)));
            } else if i == 1 {
                assert(axis_at(qa, qb, i) == (ba - ta, 0int));
            } else if i == 2 {
                assert(axis_at(qa, qb, i) == (0int, ra - la));
            } else if i == 3 {
                assert(axis_at(qa, qb, i) == (ta - ba, 0int));
            } else if i == 4 {
                assert(axis_at(qa, qb, i) == (0int, -(rb - lb)));
            } else if i == 5 {
                assert(axis_at(qa, qb, i) == (bb - tb, 0int));
            } else if i == 6 {
                assert(axis_at(qa, qb, i) == (0int, rb - lb));
            } else {
                assert(axis_at(qa, qb, i) == (tb - bb, 0int));
            }
        }
        assert(sat_overlaps(qa, qb));
    } else {
        if !(ba <= tb && bb <= ta) {
            assert(axis_at(qa, qb, 0) == (0int, -(ra - la)));
            assert(overlap_on(qa, qb, axis_at(qa, qb, 0)) < 0);
            assert(!sat_overlaps(qa, qb));
        } else {
            assert(axis_at(qa, qb, 1) == (ba - ta, 0int));
            assert(overlap_on(qa, qb, axis_at(qa, qb, 1)) < 0);
            assert(!sat_overlaps(qa, qb));
        }
    }
}

/// Collision symmetry for the translation data: the two runs of the test may
/// choose axes of different orientation, but the normalized penetration
/// magnitudes agree: `d1 / sqrt(l1) == d2 / sqrt(l2)`, written without roots
/// as equality of the squared cross-products.
pub proof fn lemma_mtv_magnitude_symmetric(a: Seq<Vec2>, b: Seq<Vec2>, m1: Mtv, m2: Mtv)
    requires
        is_min_mtv(a, b, m1),
        is_min_mtv(b, a, m2),
    ensures
        (m1.depth as int) * (m1.depth as int) * len2(mtv_axis(m2)) == (m2.depth as int) * (
        m2.depth as int) * len2(mtv_axis(m1)),
{
    let j2 = choose|j: int| 0 <= j < 8 && mtv_axis(m2) == #[trigger] axis_at(b, a, j);
    let j2x: int = if j2 < 4 {
        j2 + 4
    } else {
        j2 - 4
    };
    lemma_axis_exchange(b, a, j2);
    lemma_overlap_symmetric(a, b, mtv_axis(m2));
    assert(overlap_on(a, b, axis_at(a, b, j2x)) == m2.depth as int);
    assert(depth_le(
        m1.depth as int,
        len2(mtv_axis(m1)),
        m2.depth as int,
        len2(mtv_axis(m2)),
    ));
    let j1 = choose|j: int| 0 <= j < 8 && mtv_axis(m1) == #[trigger] axis_at(a, b, j);
    let j1x: int = if j1 < 4 {
        j1 + 4
    } else {
        j1 - 4
    };
    lemma_axis_exchange(a, b, j1);
    lemma_overlap_symmetric(b, a, mtv_axis(m1));
    assert(overlap_on(b, a, axis_at(b, a, j1x)) == m1.depth as int);
    assert(depth_le(
        m2.depth as int,
        len2(mtv_axis(m2)),
        m1.depth as int,
        len2(mtv_axis(m1)),
    ));
}

/// Projection of one corner onto an axis, in wide arithmetic.
fn dot_proj(p: Vec2, ax: Vec2) -> (r: i128)
    requires
        in_coord_range(p),
        -2 * COORD_LIMIT <= ax.x <= 2 * COORD_LIMIT,
        -2 * COORD_LIMIT <= ax.y <= 2 * COORD_LIMIT,
    ensures
        r as int == proj(p, (ax.x as int, ax.y as int)),
        -2199023255552 <= r <= 2199023255552,
{
    proof {
        lemma_product_bound(p.x as int, ax.x as int, 1048576);
        lemma_product_bound(p.y as int, ax.y as int, 1048576);
    }
    (p.x as i128) * (ax.x as i128) + (p.y as i128) * (ax.y as i128)
}

pub proof fn lemma_product_bound2(a: int, b: int, ma: int, mb: int)
    requires
        0 <= ma,
        0 <= mb,
        -ma <= a <= ma,
        -mb <= b <= mb,
    ensures
        -(ma * mb) <= a * b <= ma * mb,
{
    assert(-(ma * mb) <= a * b <= ma * mb) by (nonlinear_arith)
        requires
            0 <= ma,
            0 <= mb,
            -ma <= a <= ma,
            -mb <= b <= mb,
    ;
}

/// Every candidate axis of a well-formed pair has positive squared length.
proof fn lemma_axis_nonzero(a: Seq<Vec2>, b: Seq<Vec2>, i: int)
    requires
        rect_wf(a),
        rect_wf(b),
        0 <= i < 8,
    ensures
        len2(axis_at(a, b, i)) >= 1,
{
    let ax = axis_at(a, b, i);
    assert(!(ax.0 == 0 && ax.1 == 0));
    assert(len2(ax) >= 1) by (nonlinear_arith)
        requires
            !(ax.0 == 0 && ax.1 == 0),
            len2(ax) == ax.0 * ax.0 + ax.1 * ax.1,
    ;
}

/// Normalized-penetration comparison is transitive over positive axis lengths.
proof fn lemma_depth_le_trans(d1: int, l1: int, d2: int, l2: int, d3: int, l3: int)
    requires
        depth_le(d1, l1, d2, l2),
        depth_le(d2, l2, d3, l3),
        l1 >= 1,
        l2 >= 1,
        l3 >= 1,
    ensures
        depth_le(d1, l1, d3, l3),
{
    assert(d1 * d1 * l3 <= d3 * d3 * l1) by (nonlinear_arith)
        requires
            d1 * d1 * l2 <= d2 * d2 * l1,
            d2 * d2 * l3 <= d3 * d3 * l2,
            l1 >= 1,
            l2 >= 1,
            l3 >= 1,
    ;
}

/// Squared length of an axis, in wide arithmetic.
fn axis_len2(ax: Vec2) -> (r: i128)
    requires
        -2 * COORD_LIMIT <= ax.x <= 2 * COORD_LIMIT,
        -2 * COORD_LIMIT <= ax.y <= 2 * COORD_LIMIT,
    ensures
        r as int == len2((ax.x as int, ax.y as int)),
        0 <= r <= 2199023255552,
{
    proof {
        lemma_product_bound(ax.x as int, ax.x as int, 1048576);
        lemma_product_bound(ax.y as int, ax.y as int, 1048576);
        assert(ax.x as int * ax.x as int >= 0) by (nonlinear_arith);
        assert(ax.y as int * ax.y as int >= 0) by (nonlinear_arith);
    }
    (ax.x as i128) * (ax.x as i128) + (ax.y as i128) * (ax.y as i128)
}

/// Every corner projection lies within `2^41` for in-range corners and axes.
proof fn lemma_proj_bound(r: Seq<Vec2>, ax: (int, int))
    requires
        rect_wf(r),
        -2 * COORD_LIMIT <= ax.0 <= 2 * COORD_LIMIT,
        -2 * COORD_LIMIT <= ax.1 <= 2 * COORD_LIMIT,
    ensures
        forall|i: int|
            0 <= i < 4 ==> -2199023255552 <= proj(#[trigger] r[i], ax) <= 2199023255552,
{
    assert forall|i: int| 0 <= i < 4 implies -2199023255552 <= proj(
        #[trigger] r[i],
        ax,
    ) <= 2199023255552 by {
        lemma_product_bound(r[i].x as int, ax.0, 1048576);
        lemma_product_bound(r[i].y as int, ax.1, 1048576);
    }
}

} // verus!

