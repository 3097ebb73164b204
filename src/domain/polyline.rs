//! Polylines of axis-aligned segments: the shape of a snake's body, and
//! how moving, shrinking and growing change it.
use vstd::prelude::*;

use crate::domain::snake::{MAX_DISTANCE, POSITION_LIMIT};
use crate::geometry::direction::Direction;
use crate::geometry::line_segment::on_segment;
use crate::geometry::vector::{abs, lemma_signed, sign, Vector, UNIT};

verus! {

/// The distance between two points along the axes.
pub open spec fn mdist(a: Vector, b: Vector) -> int {
    abs(a.x - b.x) + abs(a.y - b.y)
}

/// The length of a polyline whose segments are axis-aligned.
pub open spec fn arc_length(s: Seq<Vector>) -> int
    decreases s.len(),
{
    if s.len() < 2 {
        0
    } else {
        mdist(s[0], s[1]) + arc_length(s.drop_first())
    }
}

/// `p` lies on one of the segments of the polyline `body`.
pub open spec fn on_body(body: Seq<Vector>, p: Vector) -> bool {
    exists|i: int| 0 <= i < body.len() - 1 && #[trigger] on_segment(body[i], body[i + 1], p)
}

pub open spec fn within_limit(p: Vector) -> bool {
    abs(p.x as int) <= POSITION_LIMIT && abs(p.y as int) <= POSITION_LIMIT
}

/// At least two waypoints, consecutive ones distinct and sharing one
/// coordinate, all of them within `POSITION_LIMIT`.
pub open spec fn polyline_wf(s: Seq<Vector>) -> bool {
    &&& s.len() >= 2
    &&& forall|i: int|
        0 <= i < s.len() - 1 ==> (#[trigger] s[i]).x == s[i + 1].x || s[i].y == s[i + 1].y
    &&& forall|i: int| 0 <= i < s.len() - 1 ==> #[trigger] s[i] != s[i + 1]
    &&& forall|i: int| 0 <= i < s.len() ==> within_limit(#[trigger] s[i])
}

/// The point `d` length units ahead of `p` along `dir`.
pub open spec fn point_ahead(p: Vector, dir: Direction, d: int) -> Vector {
    Vector { x: (p.x + dir.dx() * d) as i64, y: (p.y + dir.dy() * d) as i64 }
}

/// The segment behind the head already runs along `dir`.
pub open spec fn head_runs_along(body: Seq<Vector>, dir: Direction) -> bool {
    sign(body[0].x - body[1].x) == dir.dx() && sign(body[0].y - body[1].y) == dir.dy()
}

/// The body with its head pushed `d` ahead along `dir`: the head waypoint
/// moves when the segment behind it runs along `dir`, else a new head
/// waypoint is put in front.
pub open spec fn extend_head(body: Seq<Vector>, dir: Direction, d: int) -> Seq<Vector> {
    let new_head = point_ahead(body[0], dir, d);
    if head_runs_along(body, dir) {
        body.update(0, new_head)
    } else {
        body.insert(0, new_head)
    }
}

/// `t` moved `d` towards `p`, along the axis they share.
pub open spec fn toward(t: Vector, p: Vector, d: int) -> Vector {
    Vector { x: (t.x + sign(p.x - t.x) * d) as i64, y: (t.y + sign(p.y - t.y) * d) as i64 }
}

/// The body with `d` length units taken off its tail end: whole tail
/// segments are dropped while they are no longer than what remains to take.
pub open spec fn shrink_tail(s: Seq<Vector>, d: int) -> Seq<Vector>
    decreases s.len(),
{
    if s.len() < 2 || d <= 0 {
        s
    } else {
        let t = s[s.len() - 1];
        let p = s[s.len() - 2];
        if mdist(p, t) > d {
            s.update(s.len() - 1, toward(t, p, d))
        } else {
            shrink_tail(s.drop_last(), d - mdist(p, t))
        }
    }
}

/// The body after its head advanced `d` along `dir` and its tail followed.
pub open spec fn moved(body: Seq<Vector>, dir: Direction, d: int) -> Seq<Vector> {
    if d <= 0 {
        body
    } else {
        shrink_tail(extend_head(body, dir, d), d)
    }
}

/// The body with one more cell of length behind its tail, straight on.
pub open spec fn grown(body: Seq<Vector>) -> Seq<Vector> {
    let t = body[body.len() - 1];
    let p = body[body.len() - 2];
    body.push(
        Vector { x: (t.x + sign(t.x - p.x) * UNIT) as i64, y: (t.y + sign(t.y - p.y) * UNIT) as i64 },
    )
}

pub proof fn lemma_arc_push(s: Seq<Vector>, v: Vector)
    requires
        s.len() >= 1,
    ensures
        arc_length(s.push(v)) == arc_length(s) + mdist(s[s.len() - 1], v),
    decreases s.len(),
{
    if s.len() == 1 {
        assert(s.push(v).drop_first() =~= seq![v]);
        assert(arc_length(seq![v]) == 0);
    } else {
        assert(s.push(v).drop_first() =~= s.drop_first().push(v));
        lemma_arc_push(s.drop_first(), v);
    }
}

pub proof fn lemma_arc_drop_last(s: Seq<Vector>)
    requires
        s.len() >= 2,
    ensures
        arc_length(s) == arc_length(s.drop_last()) + mdist(s[s.len() - 2], s[s.len() - 1]),
{
    assert(s.drop_last().push(s[s.len() - 1]) =~= s);
    lemma_arc_push(s.drop_last(), s[s.len() - 1]);
}

pub proof fn lemma_arc_two(s: Seq<Vector>)
    requires
        s.len() == 2,
    ensures
        arc_length(s) == mdist(s[0], s[1]),
{
    assert(arc_length(s.drop_first()) == 0);
}

pub proof fn lemma_arc_set_head(s: Seq<Vector>, v: Vector)
    requires
        s.len() >= 2,
    ensures
        arc_length(s.update(0, v)) == arc_length(s) - mdist(s[0], s[1]) + mdist(v, s[1]),
{
    assert(s.update(0, v).drop_first() =~= s.drop_first());
}

/// Moving `a` then `b` ahead is moving `a + b` ahead.
pub proof fn lemma_ahead_twice(p: Vector, dir: Direction, a: int, b: int)
    requires
        within_limit(p),
        0 <= a <= MAX_DISTANCE,
        0 <= b <= MAX_DISTANCE,
    ensures
        point_ahead(point_ahead(p, dir, a), dir, b) == point_ahead(p, dir, a + b),
{
    lemma_signed(dir.dx(), a);
    lemma_signed(dir.dy(), a);
    lemma_signed(dir.dx(), b);
    lemma_signed(dir.dy(), b);
    lemma_signed(dir.dx(), a + b);
    lemma_signed(dir.dy(), a + b);
}

/// Taking length off the tail keeps a well-formed polyline, shortens it by
/// exactly that length, keeps the head and adds no waypoint.
pub proof fn lemma_shrink_tail(s: Seq<Vector>, d: int)
    requires
        polyline_wf(s),
        0 <= d < arc_length(s),
    ensures
        polyline_wf(shrink_tail(s, d)),
        arc_length(shrink_tail(s, d)) == arc_length(s) - d,
        shrink_tail(s, d)[0] == s[0],
        shrink_tail(s, d).len() <= s.len(),
    decreases s.len(),
{
    if d > 0 {
        let n = s.len();
        let t = s[n - 1];
        let p = s[n - 2];
        lemma_arc_drop_last(s);
        if n == 2 {
            lemma_arc_two(s);
        }
        if mdist(p, t) > d {
            let v = toward(t, p, d);
            lemma_signed(sign(p.x - t.x), d);
            lemma_signed(sign(p.y - t.y), d);
            let r = s.update(n - 1, v);
            assert(r.drop_last() =~= s.drop_last());
            lemma_arc_drop_last(r);
            assert(forall|i: int| 0 <= i < n - 1 ==> r[i] == s[i]);
        } else {
            let r = s.drop_last();
            assert(forall|i: int| 0 <= i < n - 1 ==> r[i] == s[i]);
            lemma_shrink_tail(r, d - mdist(p, t));
        }
    }
}

/// Pushing the head ahead keeps a well-formed polyline, lengthens it by
/// exactly that much, and adds a waypoint only when the segment behind the
/// head does not already run along the heading.
pub proof fn lemma_extend_head(s: Seq<Vector>, dir: Direction, d: int)
    requires
        polyline_wf(s),
        0 < d <= MAX_DISTANCE,
        within_limit(point_ahead(s[0], dir, d)),
    ensures
        polyline_wf(extend_head(s, dir, d)),
        arc_length(extend_head(s, dir, d)) == arc_length(s) + d,
        extend_head(s, dir, d)[0] == point_ahead(s[0], dir, d),
        extend_head(s, dir, d).len() == s.len() + (if head_runs_along(s, dir) { 0int } else { 1 }),
{
    let h = s[0];
    let nh = point_ahead(h, dir, d);
    lemma_signed(dir.dx(), d);
    lemma_signed(dir.dy(), d);
    let e = extend_head(s, dir, d);
    if head_runs_along(s, dir) {
        lemma_arc_set_head(s, nh);
        assert(forall|i: int| 1 <= i < s.len() ==> e[i] == s[i]);
    } else {
        assert(e.drop_first() =~= s);
        assert(forall|i: int| 1 <= i < e.len() ==> e[i] == s[i - 1]);
    }
}

/// Ordinary movement keeps the body's shape valid: every segment stays
/// axis-aligned and non-empty, the total length is unchanged, the head ends
/// `d` ahead, and at most one waypoint is added (none when the segment
/// behind the head already runs along the heading).
pub proof fn lemma_move_keeps_shape(body: Seq<Vector>, dir: Direction, d: int)
    requires
        polyline_wf(body),
        0 <= d <= MAX_DISTANCE,
        within_limit(point_ahead(body[0], dir, d)),
    ensures
        polyline_wf(moved(body, dir, d)),
        arc_length(moved(body, dir, d)) == arc_length(body),
        moved(body, dir, d)[0] == point_ahead(body[0], dir, d),
        moved(body, dir, d).len() <= body.len() + 1,
        head_runs_along(body, dir) ==> moved(body, dir, d).len() <= body.len(),
{
    lemma_signed(dir.dx(), d);
    lemma_signed(dir.dy(), d);
    if d > 0 {
        lemma_extend_head(body, dir, d);
        lemma_arc_positive(body);
        lemma_shrink_tail(extend_head(body, dir, d), d);
    }
}

/// The length of a suffix of a polyline is at most the whole length.
pub proof fn lemma_arc_suffix_bound(s: Seq<Vector>, i: int)
    requires
        0 <= i < s.len(),
    ensures
        arc_length(s.subrange(i, s.len() as int)) <= arc_length(s),
        i + 1 < s.len() ==> arc_length(s.subrange(i, s.len() as int)) == mdist(s[i], s[i + 1])
            + arc_length(s.subrange(i + 1, s.len() as int)),
    decreases i,
{
    let t = s.subrange(i, s.len() as int);
    if i + 1 < s.len() {
        assert(t.drop_first() =~= s.subrange(i + 1, s.len() as int));
    }
    if i > 0 {
        assert(s.drop_first().subrange(i - 1, s.drop_first().len() as int) =~= t);
        lemma_arc_suffix_bound(s.drop_first(), i - 1);
        lemma_arc_nonnegative(s);
        assert(arc_length(s) == mdist(s[0], s[1]) + arc_length(s.drop_first()));
    } else {
        assert(t =~= s);
    }
}

pub proof fn lemma_arc_nonnegative(s: Seq<Vector>)
    ensures
        arc_length(s) >= 0,
    decreases s.len(),
{
    if s.len() >= 2 {
        lemma_arc_nonnegative(s.drop_first());
    }
}

/// Every waypoint lies within the body's length of the head.
pub proof fn lemma_near_head(s: Seq<Vector>, i: int)
    requires
        0 <= i < s.len(),
    ensures
        mdist(s[0], s[i]) <= arc_length(s),
    decreases i,
{
    lemma_arc_nonnegative(s);
    if i > 0 {
        lemma_near_head(s.drop_first(), i - 1);
        assert(s.drop_first()[i - 1] == s[i]);
        assert(arc_length(s) == mdist(s[0], s[1]) + arc_length(s.drop_first()));
    }
}

/// A polyline of distinct consecutive waypoints has positive length.
pub proof fn lemma_arc_positive(s: Seq<Vector>)
    requires
        polyline_wf(s),
    ensures
        arc_length(s) >= mdist(s[0], s[1]) > 0,
    decreases s.len(),
{
    assert(s[0] != s[1]);
    if s.len() > 2 {
        assert(polyline_wf(s.drop_first())) by {
            assert(forall|i: int| 0 <= i < s.len() - 1 ==> #[trigger] s.drop_first()[i] == s[i + 1]);
        };
        lemma_arc_positive(s.drop_first());
    } else {
        lemma_arc_two(s);
    }
}

/// `v` lies between `a` and `b`, either way round.
pub open spec fn between(a: int, v: int, b: int) -> bool {
    (a <= v <= b) || (b <= v <= a)
}

/// `p` lies on the axis-aligned segment from `b` to `e`.
pub open spec fn on_axis_segment(b: Vector, e: Vector, p: Vector) -> bool {
    ||| (b.x == e.x && p.x == b.x && between(b.y as int, p.y as int, e.y as int))
    ||| (b.y == e.y && p.y == b.y && between(b.x as int, p.x as int, e.x as int))
}

/// On an axis-aligned segment, lying on it means sharing its fixed
/// coordinate and lying between its ends along the other.
pub proof fn lemma_on_axis_segment(b: Vector, e: Vector, p: Vector)
    requires
        b != e,
        b.x == e.x || b.y == e.y,
    ensures
        on_segment(b, e, p) <==> on_axis_segment(b, e, p),
{
    let (bx, by, ex, ey, px, py) = (b.x as int, b.y as int, e.x as int, e.y as int, p.x as int, p.y as int);
    if bx == ex {
        assert(by != ey);
        assert((ex - bx) * (py - by) == 0) by (nonlinear_arith) requires ex == bx;
        assert((ey - by) * (px - bx) == 0 <==> px == bx) by (nonlinear_arith) requires ey != by;
        if px == bx {
            assert((px - bx) * (ex - px) == 0) by (nonlinear_arith) requires px == bx;
            assert((py - by) * (ey - py) >= 0 <==> between(by, py, ey)) by (nonlinear_arith)
                requires by != ey;
        }
    } else {
        assert(by == ey);
        assert((ey - by) * (px - bx) == 0) by (nonlinear_arith) requires ey == by;
        assert((ex - bx) * (py - by) == 0 <==> py == by) by (nonlinear_arith) requires ex != bx;
        if py == by {
            assert((py - by) * (ey - py) == 0) by (nonlinear_arith) requires py == by;
            assert((px - bx) * (ex - px) >= 0 <==> between(bx, px, ex)) by (nonlinear_arith)
                requires bx != ex;
        }
    }
}

/// Taking length off the tail uncovers points and covers none.
pub proof fn lemma_shrink_tail_covers_less(s: Seq<Vector>, d: int, f: Vector)
    requires
        polyline_wf(s),
        0 <= d < arc_length(s),
        on_body(shrink_tail(s, d), f),
    ensures
        on_body(s, f),
    decreases s.len(),
{
    if d > 0 {
        let n = s.len();
        let t = s[n - 1];
        let p = s[n - 2];
        lemma_arc_drop_last(s);
        if n == 2 {
            lemma_arc_two(s);
        }
        if mdist(p, t) > d {
            let v = toward(t, p, d);
            lemma_signed(sign(p.x - t.x), d);
            lemma_signed(sign(p.y - t.y), d);
            let r = s.update(n - 1, v);
            let i = choose|i: int| 0 <= i < r.len() - 1 && #[trigger] on_segment(r[i], r[i + 1], f);
            if i == n - 2 {
                lemma_on_axis_segment(p, v, f);
                lemma_on_axis_segment(p, t, f);
                assert(on_segment(s[i], s[i + 1], f));
            } else {
                assert(on_segment(s[i], s[i + 1], f));
            }
        } else {
            let r = s.drop_last();
            assert(polyline_wf(r)) by {
                assert(forall|i: int| 0 <= i < n - 1 ==> r[i] == s[i]);
            };
            lemma_shrink_tail_covers_less(r, d - mdist(p, t), f);
            let i = choose|i: int| 0 <= i < r.len() - 1 && #[trigger] on_segment(r[i], r[i + 1], f);
            assert(on_segment(s[i], s[i + 1], f));
        }
    }
}

/// Pushing the head ahead covers, besides the body, only the stretch the
/// head ran over.
pub proof fn lemma_extend_head_covers(s: Seq<Vector>, dir: Direction, d: int, f: Vector)
    requires
        polyline_wf(s),
        0 < d <= MAX_DISTANCE,
        within_limit(point_ahead(s[0], dir, d)),
        on_body(extend_head(s, dir, d), f),
    ensures
        on_body(s, f) || on_axis_segment(s[0], point_ahead(s[0], dir, d), f),
{
    let h = s[0];
    let nh = point_ahead(h, dir, d);
    lemma_signed(dir.dx(), d);
    lemma_signed(dir.dy(), d);
    let e = extend_head(s, dir, d);
    let i = choose|i: int| 0 <= i < e.len() - 1 && #[trigger] on_segment(e[i], e[i + 1], f);
    lemma_on_axis_segment(h, nh, f);
    if head_runs_along(s, dir) {
        if i == 0 {
            lemma_on_axis_segment(nh, s[1], f);
            lemma_on_axis_segment(s[0], s[1], f);
            assert(on_segment(s[0], s[1], f) || on_axis_segment(h, nh, f));
        } else {
            assert(on_segment(s[i], s[i + 1], f));
        }
    } else {
        if i == 0 {
            lemma_on_axis_segment(nh, h, f);
        } else {
            assert(e[i] == s[i - 1] && e[i + 1] == s[i]);
            assert(on_segment(s[i - 1], s[i], f));
        }
    }
}

} // verus!
