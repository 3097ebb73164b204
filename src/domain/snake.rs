use vstd::prelude::*;

use crate::domain::board::{
    cell_center, MAX_CELLS, lemma_board_extent, lemma_border_points, lemma_spawned_food_is_off_snake, Board,
};
use crate::domain::game_over_event::GameOverEvent;
use crate::domain::polyline::{
    arc_length, extend_head, grown, head_runs_along, lemma_ahead_twice, lemma_arc_drop_last,
    lemma_arc_nonnegative, lemma_arc_positive, lemma_arc_push, lemma_arc_set_head,
    lemma_arc_suffix_bound, lemma_arc_two, lemma_extend_head, lemma_extend_head_covers,
    lemma_near_head, lemma_on_axis_segment, lemma_shrink_tail_covers_less, mdist, moved,
    on_axis_segment, on_body, point_ahead,
    polyline_wf, shrink_tail, toward, within_limit,
};
use crate::geometry::direction::Direction;
use crate::geometry::line_segment::{on_segment, LineSegment};
use crate::geometry::vector::{lemma_lattice_gap, lemma_signed, sign, Vector, HALF_UNIT, UNIT};

verus! {

/// Largest coordinate magnitude of a waypoint.
pub const POSITION_LIMIT: i64 = 576_460_752_303_423_488;

/// Largest total length of a snake, in length units.
pub const LENGTH_LIMIT: i64 = 288_230_376_151_711_744;

/// Largest distance that one call moves the snake, in length units.
pub const MAX_DISTANCE: i64 = 72_057_594_037_927_936;

/// Largest initial length of a snake, in cells.
pub const MAX_INITIAL_LENGTH: u32 = 1_048_576;

/// The coordinate of `p` along the axis of `dir`.
pub open spec fn axis_coordinate(p: Vector, dir: Direction) -> int {
    if dir.is_horizontal() {
        p.x as int
    } else {
        p.y as int
    }
}

/// A cell border or a cell centre: a multiple of half a cell.
pub open spec fn on_lattice(v: int) -> bool {
    v % (HALF_UNIT as int) == 0
}

/// `p` lies on the body past its first three waypoints, away from the
/// segments that the head itself runs along.
pub open spec fn hits_itself(body: Seq<Vector>, p: Vector) -> bool {
    body.len() > 3 && on_body(body.subrange(3, body.len() as int), p)
}

pub open spec fn food_at(board: Board, p: Vector) -> bool {
    board.food matches Some(f) && f.position == p
}

/// What the head runs into at `p`: the border, food, or its own body.
pub open spec fn collides_at(board: Board, body: Seq<Vector>, p: Vector) -> bool {
    board.on_border(p) || food_at(board, p) || hits_itself(body, p)
}

/// The point `q` ahead of the head is a checkpoint (a cell border or centre
/// crossing) at which the head runs into something.
pub open spec fn checkpoint_hit(board: Board, body: Seq<Vector>, dir: Direction, q: int) -> bool {
    let p = point_ahead(body[0], dir, q);
    &&& q > 0
    &&& on_lattice(axis_coordinate(p, dir))
    &&& collides_at(board, body, p)
}

/// The first checkpoint hit within `distance` lies `q` ahead, on the border.
pub open spec fn first_hit_on_border(
    board: Board,
    body: Seq<Vector>,
    dir: Direction,
    q: int,
    distance: int,
) -> bool {
    &&& 0 < q <= distance
    &&& checkpoint_hit(board, body, dir, q)
    &&& forall|q2: int| 0 < q2 < q ==> !#[trigger] checkpoint_hit(board, body, dir, q2)
    &&& board.on_border(point_ahead(body[0], dir, q))
}

/// `p` lies strictly inside the board.
pub open spec fn inside(board: Board, p: Vector) -> bool {
    0 < p.x < board.width * UNIT && 0 < p.y < board.height * UNIT
}

/// `p` lies inside the board or on its border.
pub open spec fn within_board(board: Board, p: Vector) -> bool {
    0 <= p.x <= board.width * UNIT && 0 <= p.y <= board.height * UNIT
}

/// Heads right or down, towards growing coordinates.
pub open spec fn is_forward(dir: Direction) -> bool {
    dir == Direction::RIGHT || dir == Direction::DOWN
}

/// How far ahead of `p` along `dir` the next cell centre crossing lies
/// (zero when `p` is on one).
pub open spec fn center_gap(p: Vector, dir: Direction) -> int {
    if is_forward(dir) {
        (HALF_UNIT - axis_coordinate(p, dir)) % (UNIT as int)
    } else {
        (axis_coordinate(p, dir) - HALF_UNIT) % (UNIT as int)
    }
}

/// The heading that a call with `new_direction` will try to take.
pub open spec fn pending_turn(
    next_direction: Option<Direction>,
    new_direction: Option<Direction>,
) -> Option<Direction> {
    if new_direction is Some {
        new_direction
    } else {
        next_direction
    }
}

/// A call with the waiting heading `pending` keeps the heading: none is
/// waiting, it is no turn, or its crossing lies beyond the distance `d`.
pub open spec fn takes_no_turn(head: Vector, dir: Direction, pending: Option<Direction>, d: int) -> bool {
    pending is None || is_redundant_turn(dir, pending->0) || center_gap(head, dir) > d
}

/// Turning to `next` from `dir` is no turn: the same heading or a reversal.
pub open spec fn is_redundant_turn(dir: Direction, next: Direction) -> bool {
    next == dir || next == dir.opposite_spec()
}

/// The snake: a polyline from head (first) to tail (last), a speed in
/// length units per time unit, a heading, and a heading waiting to be taken.
#[derive(Debug)]
pub struct Snake {
    body: Vec<Vector>,
    speed: u64,
    direction: Direction,
    next_direction: Option<Direction>,
}

impl Snake {
    pub closed spec fn body_view(&self) -> Seq<Vector> {
        self.body@
    }

    pub closed spec fn speed_view(&self) -> u64 {
        self.speed
    }

    pub closed spec fn direction_view(&self) -> Direction {
        self.direction
    }

    pub closed spec fn next_direction_view(&self) -> Option<Direction> {
        self.next_direction
    }

    pub open spec fn head_view(&self) -> Vector {
        self.body_view()[0]
    }

    pub open spec fn wf(&self) -> bool {
        &&& polyline_wf(self.body_view())
        &&& arc_length(self.body_view()) <= LENGTH_LIMIT
    }

    /// A snake of `length` cells whose head is on the cell centre nearest
    /// the middle of `board` and whose tail lies straight behind it.
    pub fn new(board: &Board, length: u32, speed: u64, direction: Direction) -> (r: Snake)
        requires
            board.wf(),
            1 <= length <= MAX_INITIAL_LENGTH,
        ensures
            r.wf(),
            r.body_view() == seq![
                Board::middle_spec(*board),
                Vector {
                    x: (Board::middle_spec(*board).x - direction.dx() * (length * UNIT)) as i64,
                    y: (Board::middle_spec(*board).y - direction.dy() * (length * UNIT)) as i64,
                },
            ],
            r.speed_view() == speed,
            r.direction_view() == direction,
            r.next_direction_view() is None,
    {
        let head = board.middle();
        assert(length * UNIT <= MAX_INITIAL_LENGTH * UNIT) by (nonlinear_arith)
            requires length <= MAX_INITIAL_LENGTH;
        let back = direction.offset(length as i64 * UNIT);
        let tail = head.minus(&back);
        let r = Snake { body: vec![head, tail], speed, direction, next_direction: None };
        proof {
            lemma_signed(direction.dx(), length * UNIT);
            lemma_signed(direction.dy(), length * UNIT);
            assert(r.body@ == seq![head, tail]);
            assert(arc_length(r.body@.drop_first()) == 0);
            assert(r.body@[0] != r.body@[1]);
        }
        r
    }

    pub fn body(&self) -> (r: &Vec<Vector>)
        ensures
            r@ == self.body_view(),
    {
        &self.body
    }

    pub fn speed(&self) -> (r: u64)
        ensures
            r == self.speed_view(),
    {
        self.speed
    }

    pub fn direction(&self) -> (r: Direction)
        ensures
            r == self.direction_view(),
    {
        self.direction
    }

    pub fn next_direction(&self) -> (r: Option<Direction>)
        ensures
            r == self.next_direction_view(),
    {
        self.next_direction
    }

    /// Lengthens the snake by one cell at its tail; the head stays put.
    pub fn grow(&mut self)
        requires
            old(self).wf(),
            arc_length(old(self).body_view()) + UNIT <= LENGTH_LIMIT,
            within_limit(grown(old(self).body_view()).last()),
        ensures
            final(self).wf(),
            final(self).body_view() == grown(old(self).body_view()),
            arc_length(final(self).body_view()) == arc_length(old(self).body_view()) + UNIT,
            final(self).head_view() == old(self).head_view(),
            final(self).speed_view() == old(self).speed_view(),
            final(self).direction_view() == old(self).direction_view(),
            final(self).next_direction_view() == old(self).next_direction_view(),
    {
        let n = self.body.len();
        let tail = self.body[n - 1];
        let tail_segment = LineSegment::new(self.body[n - 2], tail);
        let step = tail_segment.direction();
        let new_tail = tail.plus(&step);
        proof {
            let b = self.body@;
            assert(b[n - 2] != b[n - 1]);
            lemma_signed(sign(tail.x - b[n - 2].x), UNIT as int);
            lemma_signed(sign(tail.y - b[n - 2].y), UNIT as int);
            lemma_arc_push(b, new_tail);
            assert(mdist(tail, new_tail) == UNIT);
        }
        self.body.push(new_tail);
        proof {
            let b = self.body@;
            assert(forall|i: int| 0 <= i < b.len() - 1 ==> #[trigger] b[i] != b[i + 1]
                && (b[i].x == b[i + 1].x || b[i].y == b[i + 1].y)) by {
                assert(forall|i: int| 0 <= i < n - 1 ==> b[i] == old(self).body@[i]);
            };
            assert(forall|i: int| 0 <= i < b.len() ==> within_limit(#[trigger] b[i])) by {
                assert(forall|i: int| 0 <= i < n ==> b[i] == old(self).body@[i]);
            };
        }
    }

    /// Moves the head `distance` ahead and lets the tail follow by the same
    /// length, so that the total length stays the same. A distance that is
    /// not positive leaves the snake as it is.
    fn move_of(&mut self, distance: i64)
        requires
            old(self).wf(),
            distance <= LENGTH_LIMIT,
            distance > 0 ==> within_limit(point_ahead(old(self).head_view(), old(self).direction_view(), distance as int)),
        ensures
            final(self).wf(),
            distance <= 0 ==> *final(self) == *old(self),
            final(self).body_view() == moved(old(self).body_view(), old(self).direction_view(), distance as int),
            arc_length(final(self).body_view()) == arc_length(old(self).body_view()),
            distance >= 0 ==> final(self).head_view() == point_ahead(old(self).head_view(), old(self).direction_view(), distance as int),
            final(self).body_view().len() <= old(self).body_view().len() + 1,
            head_runs_along(old(self).body_view(), old(self).direction_view())
                ==> final(self).body_view().len() <= old(self).body_view().len(),
            final(self).speed_view() == old(self).speed_view(),
            final(self).direction_view() == old(self).direction_view(),
            final(self).next_direction_view() == old(self).next_direction_view(),
    {
        if distance <= 0 {
            proof {
                lemma_signed(self.direction.dx(), 0);
                lemma_signed(self.direction.dy(), 0);
            }
            return;
        }
        let ghost old_body = self.body@;
        let ghost dir = self.direction;
        proof {
            lemma_signed(dir.dx(), distance as int);
            lemma_signed(dir.dy(), distance as int);
            lemma_arc_positive(old_body);
        }
        let head = self.body[0];
        let behind_head = LineSegment::new(self.body[1], head).direction();
        let heading = self.direction.as_vector();
        let new_head = head.plus(&self.direction.offset(distance));
        proof {
            lemma_signed(sign(head.x - old_body[1].x), UNIT as int);
            lemma_signed(sign(head.y - old_body[1].y), UNIT as int);
            lemma_signed(dir.dx(), UNIT as int);
            lemma_signed(dir.dy(), UNIT as int);
        }
        if behind_head == heading {
            self.body.set(0, new_head);
            proof {
                assert(self.body@ == extend_head(old_body, dir, distance as int));
                lemma_arc_set_head(old_body, new_head);
            }
        } else {
            self.body.insert(0, new_head);
            proof {
                assert(self.body@ == extend_head(old_body, dir, distance as int));
                assert(self.body@.drop_first() =~= old_body);
            }
        }
        let ghost extended = self.body@;
        proof {
            assert(polyline_wf(extended)) by {
                assert(forall|i: int| 1 <= i < extended.len() ==> #[trigger] extended[i] == old_body[i
                    - (extended.len() - old_body.len())]);
            };
        }
        self.shrink_tail(distance);
    }

    /// Takes `distance` length units off the tail end of the body.
    #[verifier::rlimit(50)]
    fn shrink_tail(&mut self, distance: i64)
        requires
            polyline_wf(old(self).body_view()),
            0 <= distance < arc_length(old(self).body_view()),
        ensures
            polyline_wf(final(self).body_view()),
            final(self).body_view() == shrink_tail(old(self).body_view(), distance as int),
            arc_length(final(self).body_view()) == arc_length(old(self).body_view()) - distance,
            final(self).head_view() == old(self).head_view(),
            final(self).body_view().len() <= old(self).body_view().len(),
            final(self).speed_view() == old(self).speed_view(),
            final(self).direction_view() == old(self).direction_view(),
            final(self).next_direction_view() == old(self).next_direction_view(),
    {
        let ghost start = self.body@;
        let mut remaining: i64 = distance;
        while remaining > 0
            invariant
                0 <= remaining <= distance,
                polyline_wf(self.body@),
                self.body@[0] == start[0],
                self.body@.len() <= start.len(),
                arc_length(self.body@) == arc_length(start) - distance + remaining,
                arc_length(start) > distance,
                shrink_tail(start, distance as int) == shrink_tail(self.body@, remaining as int),
                self.speed == old(self).speed,
                self.direction == old(self).direction,
                self.next_direction == old(self).next_direction,
            decreases remaining,
        {
            let ghost cur = self.body@;
            let n = self.body.len();
            proof {
                if n == 2 {
                    lemma_arc_two(cur);
                }
                lemma_arc_drop_last(cur);
            }
            let old_tail = self.body.pop().unwrap();
            let last = self.body[n - 2];
            let tail_length = manhattan(&old_tail, &last);
            if tail_length > remaining {
                let toward_last = LineSegment::new(old_tail, last).direction();
                let sx: i64 = toward_last.x / UNIT;
                let sy: i64 = toward_last.y / UNIT;
                proof {
                    lemma_signed(sign(last.x - old_tail.x), UNIT as int);
                    lemma_signed(sign(last.y - old_tail.y), UNIT as int);
                    lemma_signed(sx as int, remaining as int);
                    lemma_signed(sy as int, remaining as int);
                }
                let new_tail = Vector::new(old_tail.x + sx * remaining, old_tail.y + sy * remaining);
                self.body.push(new_tail);
                proof {
                    assert(self.body@ == cur.update(n - 1, toward(old_tail, last, remaining as int)));
                    lemma_arc_push(cur.drop_last(), new_tail);
                }
                remaining = 0;
            } else {
                remaining = remaining - tail_length;
            }
        }
    }

    /// Whether the head, were it at `p`, would run into the border, the
    /// food or the snake's own body.
    fn collides_at(&self, board: &Board, p: &Vector) -> (r: bool)
        requires
            self.wf(),
            board.wf(),
            p.in_range(),
        ensures
            r == collides_at(*board, self.body_view(), *p),
    {
        if board.is_on_border(p) {
            return true;
        }
        if let Some(food) = board.food {
            if food.position == *p {
                return true;
            }
        }
        self.hits_itself(p)
    }

    /// Whether `p` lies on the body past its first three waypoints.
    fn hits_itself(&self, p: &Vector) -> (r: bool)
        requires
            self.wf(),
            p.in_range(),
        ensures
            r == hits_itself(self.body_view(), *p),
    {
        let n = self.body.len();
        let mut j: usize = 3;
        while j < n - 1
            invariant
                self.wf(),
                p.in_range(),
                n == self.body@.len(),
                3 <= j,
                forall|k: int| 3 <= k < j && k + 1 < n ==> !#[trigger] on_segment(self.body@[k], self.body@[k + 1], *p),
            decreases n - j,
        {
            if LineSegment::new(self.body[j], self.body[j + 1]).contains(p) {
                proof {
                    let rest = self.body@.subrange(3, n as int);
                    assert(on_segment(rest[j - 3], rest[j - 3 + 1], *p));
                }
                return true;
            }
            j = j + 1;
        }
        proof {
            if n > 3 {
                let rest = self.body@.subrange(3, n as int);
                assert forall|k: int| 0 <= k < rest.len() - 1 implies !#[trigger] on_segment(rest[k], rest[k + 1], *p) by {
                    assert(rest[k] == self.body@[k + 3]);
                    assert(rest[k + 1] == self.body@[k + 4]);
                };
            }
        }
        false
    }

    /// The distance to the first checkpoint ahead of the head, no farther
    /// than `distance`, at which the head runs into something. Checkpoints
    /// are the cell border and cell centre crossings.
    fn nearest_collision_distance(&self, distance: i64, board: &Board) -> (r: Option<i64>)
        requires
            self.wf(),
            board.wf(),
            inside(*board, self.head_view()),
            0 <= distance <= LENGTH_LIMIT,
        ensures
            r matches Some(q) ==> 0 < q <= distance && checkpoint_hit(
                *board,
                self.body_view(),
                self.direction_view(),
                q as int,
            ),
            r matches Some(q) ==> forall|q2: int|
                0 < q2 < q ==> !#[trigger] checkpoint_hit(
                    *board,
                    self.body_view(),
                    self.direction_view(),
                    q2,
                ),
            r is None ==> forall|q2: int|
                0 < q2 <= distance ==> !#[trigger] checkpoint_hit(
                    *board,
                    self.body_view(),
                    self.direction_view(),
                    q2,
                ),
    {
        let head = self.body[0];
        let dir = self.direction;
        let horizontal = dir == Direction::RIGHT || dir == Direction::LEFT;
        let forward = dir == Direction::RIGHT || dir == Direction::DOWN;
        let c: i64 = if horizontal { head.x } else { head.y };
        let m: i64 = c % HALF_UNIT;
        let first: i64 = if forward {
            HALF_UNIT - m
        } else if m == 0 {
            HALF_UNIT
        } else {
            m
        };
        let ghost s: int = if forward { 1 } else { -1 };
        proof {
            lemma_board_extent(*board);
            assert(forall|q: int| #![trigger point_ahead(head, dir, q)]
                -LENGTH_LIMIT - UNIT <= q <= LENGTH_LIMIT + UNIT ==> axis_coordinate(point_ahead(head, dir, q), dir) == c + s * q);
            let h = HALF_UNIT as int;
            let ci = c as int;
            vstd::arithmetic::div_mod::lemma_fundamental_div_mod(ci, h);
            let k = ci / h;
            let a = ci - m;
            assert(a == h * k);
            vstd::arithmetic::div_mod::lemma_mod_multiples_basic(k, h);
            vstd::arithmetic::div_mod::lemma_mod_multiples_basic(k + 1, h);
            vstd::arithmetic::div_mod::lemma_mod_multiples_basic(k - 1, h);
            assert(k * h == a) by (nonlinear_arith) requires a == h * k;
            assert((k + 1) * h == a + h) by (nonlinear_arith) requires k * h == a;
            assert((k - 1) * h == a - h) by (nonlinear_arith) requires k * h == a;
            assert(on_lattice(c + s * first));
            assert forall|q2: int| 0 < q2 < first implies !on_lattice(#[trigger] (c + s * q2)) by {
                if on_lattice(c + s * q2) {
                    if forward {
                        lemma_lattice_gap(a, c + s * q2, h);
                    } else if m == 0 {
                        lemma_lattice_gap(c + s * q2, ci, h);
                    } else {
                        lemma_lattice_gap(a, c + s * q2, h);
                    }
                }
            };
        }
        let mut q: i64 = first;
        while q <= distance
            invariant
                self.wf(),
                board.wf(),
                inside(*board, self.head_view()),
                head == self.head_view(),
                dir == self.direction_view(),
                0 <= distance <= LENGTH_LIMIT,
                0 < q <= distance + HALF_UNIT,
                s == 1 || s == -1,
                forall|q: int| #![trigger point_ahead(head, dir, q)]
                    -LENGTH_LIMIT - UNIT <= q <= LENGTH_LIMIT + UNIT ==> axis_coordinate(point_ahead(head, dir, q), dir) == c + s * q,
                on_lattice(c + s * q),
                forall|q2: int| 0 < q2 < q ==> !#[trigger] checkpoint_hit(
                    *board,
                    self.body_view(),
                    self.direction_view(),
                    q2,
                ),
            decreases distance + HALF_UNIT - q,
        {
            proof {
                lemma_board_extent(*board);
                lemma_signed(dir.dx(), q as int);
                lemma_signed(dir.dy(), q as int);
            }
            let p = head.plus(&dir.offset(q));
            if self.collides_at(board, &p) {
                return Some(q);
            }
            proof {
                let h = HALF_UNIT as int;
                assert forall|q2: int| 0 < q2 < q + HALF_UNIT implies !#[trigger] checkpoint_hit(
                    *board,
                    self.body_view(),
                    self.direction_view(),
                    q2,
                ) by {
                    if q < q2 < q + h && on_lattice(c + s * q2) {
                        if s == 1 {
                            lemma_lattice_gap(c + s * q, c + s * q2, h);
                        } else {
                            lemma_lattice_gap(c + s * q2, c + s * q, h);
                        }
                    }
                    if q < q2 < q + h {
                        assert(axis_coordinate(point_ahead(head, dir, q2), dir) == c + s * q2);
                    }
                };
            }
            q = q + HALF_UNIT;
        }
        None
    }

    /// Resolves a collision at the head: the border or the body end the
    /// game, food is eaten.
    fn check_collisions(&mut self, board: &mut Board, score: &mut u64) -> (r: Result<(), GameOverEvent>)
        requires
            old(self).wf(),
            old(board).wf(),
            within_board(*old(board), old(self).head_view()),
            arc_length(old(self).body_view()) + UNIT <= LENGTH_LIMIT,
            *old(score) < u64::MAX,
        ensures
            final(self).wf(),
            final(board).wf(),
            final(self).head_view() == old(self).head_view(),
            final(self).speed_view() == old(self).speed_view(),
            final(self).direction_view() == old(self).direction_view(),
            final(self).next_direction_view() == old(self).next_direction_view(),
            final(board).width == old(board).width,
            final(board).height == old(board).height,
            *final(score) == *old(score) || *final(score) == *old(score) + 1,
            arc_length(final(self).body_view()) == arc_length(old(self).body_view()) + UNIT * (
            *final(score) - *old(score)),
            old(board).food_on_cell() && r is Ok ==> final(board).food_on_cell(),
            r is Ok && (food_at(*old(board), old(self).head_view()) || old(board).food_on_cell()
                && !on_body(old(self).body_view(), old(board).food->0.position)) ==> final(board).food_on_cell()
                && !on_body(final(self).body_view(), final(board).food->0.position),
            r == Err::<(), GameOverEvent>(GameOverEvent::NoEmptySquaresEvent) ==> final(board).food is None && *final(score) == *old(score) + 1
                && final(board).free_cells_spec(final(self).body_view()).len() == 0,
            r == Err::<(), GameOverEvent>(GameOverEvent::BorderCollisionEvent) ==> old(board).on_border(old(self).head_view()),
            r == Err::<(), GameOverEvent>(GameOverEvent::SnakeCollisionEvent) ==> hits_itself(final(self).body_view(), old(self).head_view()),
            old(board).on_border(old(self).head_view()) ==> r == Err::<(), GameOverEvent>(
                GameOverEvent::BorderCollisionEvent,
            ) && *final(board) == *old(board) && final(self).body_view() == old(self).body_view()
                && *final(score) == *old(score),
            !old(board).on_border(old(self).head_view()) && food_at(*old(board), old(self).head_view())
                ==> *final(score) == *old(score) + 1 && final(self).body_view() == grown(
                old(self).body_view(),
            ) && (r is Ok ==> !hits_itself(final(self).body_view(), final(self).head_view()))
                && (r == Err::<(), GameOverEvent>(GameOverEvent::SnakeCollisionEvent) ==> hits_itself(
                final(self).body_view(),
                final(self).head_view(),
            )),
            !old(board).on_border(old(self).head_view()) && food_at(*old(board), old(self).head_view())
                ==> exists|spawned: Result<(), GameOverEvent>|
                old(board).spawn_outcome(*final(board), final(self).body_view(), spawned) && (
                spawned is Err ==> r == spawned) && (spawned is Ok ==> r is Ok || r
                == Err::<(), GameOverEvent>(GameOverEvent::SnakeCollisionEvent)),
            !old(board).on_border(old(self).head_view()) && !food_at(*old(board), old(self).head_view())
                ==> *final(board) == *old(board) && final(self).body_view() == old(self).body_view()
                && *final(score) == *old(score) && (r is Ok <==> !hits_itself(
                old(self).body_view(),
                old(self).head_view(),
            )) && (r is Err ==> r == Err::<(), GameOverEvent>(GameOverEvent::SnakeCollisionEvent)),
    {
        let head = self.body[0];
        proof {
            lemma_board_extent(*board);
        }
        if board.is_on_border(&head) {
            return Err(GameOverEvent::BorderCollisionEvent);
        }
        if let Some(food) = board.food {
            if food.position == head {
                proof {
                    lemma_near_head(self.body@, self.body@.len() - 1);
                }
                let ghost before = *board;
                let eaten = food.on_collision(self, board, score);
                if eaten.is_err() {
                    return eaten;
                }
                proof {
                    lemma_spawned_food_is_off_snake(before, *board, self.body@, eaten);
                }
            }
        }
        if self.hits_itself(&head) {
            return Err(GameOverEvent::SnakeCollisionEvent);
        }
        Ok(())
    }

    /// The next cell centre crossing ahead of the head, or the head itself
    /// when it is on one.
    fn next_intersection(&self, board: &Board) -> (r: Vector)
        requires
            self.wf(),
            board.wf(),
            inside(*board, self.head_view()),
        ensures
            0 <= center_gap(self.head_view(), self.direction_view()) < UNIT,
            r == point_ahead(
                self.head_view(),
                self.direction_view(),
                center_gap(self.head_view(), self.direction_view()),
            ),
            within_limit(r),
    {
        let head = self.body[0];
        let dir = self.direction;
        let horizontal = dir == Direction::RIGHT || dir == Direction::LEFT;
        let forward = dir == Direction::RIGHT || dir == Direction::DOWN;
        let c: i64 = if horizontal { head.x } else { head.y };
        let m: i64 = c % UNIT;
        let gap: i64 = if forward {
            if m <= HALF_UNIT { HALF_UNIT - m } else { UNIT + HALF_UNIT - m }
        } else {
            if m >= HALF_UNIT { m - HALF_UNIT } else { m + HALF_UNIT }
        };
        proof {
            lemma_board_extent(*board);
            let u = UNIT as int;
            let ci = c as int;
            vstd::arithmetic::div_mod::lemma_fundamental_div_mod(ci, u);
            let k = ci / u;
            assert(ci == k * u + m) by (nonlinear_arith) requires ci == u * k + m;
            if forward {
                if m <= HALF_UNIT {
                    assert(HALF_UNIT - ci == (-k) * u + (HALF_UNIT - m)) by (nonlinear_arith)
                        requires ci == k * u + m;
                    vstd::arithmetic::div_mod::lemma_fundamental_div_mod_converse_mod(HALF_UNIT - ci, u, -k, HALF_UNIT - m);
                } else {
                    assert(HALF_UNIT - ci == (-k - 1) * u + (UNIT + HALF_UNIT - m)) by (nonlinear_arith)
                        requires ci == k * u + m, u == UNIT;
                    vstd::arithmetic::div_mod::lemma_fundamental_div_mod_converse_mod(HALF_UNIT - ci, u, -k - 1, UNIT + HALF_UNIT - m);
                }
            } else {
                if m >= HALF_UNIT {
                    assert(ci - HALF_UNIT == k * u + (m - HALF_UNIT));
                    vstd::arithmetic::div_mod::lemma_fundamental_div_mod_converse_mod(ci - HALF_UNIT, u, k, m - HALF_UNIT);
                } else {
                    assert(ci - HALF_UNIT == (k - 1) * u + (m + HALF_UNIT)) by (nonlinear_arith)
                        requires ci == k * u + m, u == UNIT;
                    vstd::arithmetic::div_mod::lemma_fundamental_div_mod_converse_mod(ci - HALF_UNIT, u, k - 1, m + HALF_UNIT);
                }
            }
            lemma_signed(dir.dx(), gap as int);
            lemma_signed(dir.dy(), gap as int);
        }
        head.plus(&dir.offset(gap))
    }

    /// The snake is well formed, the board holds food and the head lies
    /// strictly inside the board: the state of a game still running.
    pub open spec fn ready(&self, board: Board) -> bool {
        &&& self.wf()
        &&& board.wf()
        &&& board.food_on_cell()
        &&& !on_body(self.body_view(), board.food->0.position)
        &&& inside(board, self.head_view())
    }

    /// The distance covered in `timespan`, and the growth it may bring,
    /// stay within the limits of the arithmetic.
    pub open spec fn within_limits(&self, score: u64, timespan: u64) -> bool {
        let d = self.speed_view() * timespan;
        &&& d <= MAX_DISTANCE
        &&& arc_length(self.body_view()) + 2 * d + 2 * UNIT <= LENGTH_LIMIT
        &&& score + d + 2 <= u64::MAX
    }

    /// Whether `within_limits` holds.
    pub fn check_limits(&self, score: u64, timespan: u64) -> (r: bool)
        requires
            self.wf(),
        ensures
            r == self.within_limits(score, timespan),
    {
        assert(self.speed * timespan <= u64::MAX * u64::MAX) by (nonlinear_arith);
        let d: u128 = self.speed as u128 * timespan as u128;
        if d > MAX_DISTANCE as u128 {
            return false;
        }
        let length = self.length();
        proof {
            lemma_arc_nonnegative(self.body@);
        }
        (length as u128) + 2 * d + 2 * (UNIT as u128) <= LENGTH_LIMIT as u128 && (score as u128) + d
            + 2 <= u64::MAX as u128
    }

    /// The total length of the body, in length units.
    pub fn length(&self) -> (r: i64)
        requires
            self.wf(),
        ensures
            r == arc_length(self.body_view()),
    {
        let n = self.body.len();
        let mut total: i64 = 0;
        let mut i: usize = n - 1;
        proof {
            assert(self.body@.subrange(i as int, n as int) =~= seq![self.body@[i as int]]);
            assert(arc_length(seq![self.body@[i as int]]) == 0);
        }
        while i > 0
            invariant
                self.wf(),
                n == self.body@.len(),
                0 <= i < n,
                total == arc_length(self.body@.subrange(i as int, n as int)),
            decreases i,
        {
            let ghost rest = self.body@.subrange(i as int, n as int);
            let ghost longer = self.body@.subrange(i - 1, n as int);
            proof {
                assert(longer.drop_first() =~= rest);
                lemma_arc_nonnegative(rest);
                lemma_arc_suffix_bound(self.body@, i - 1);
            }
            total = total + manhattan(&self.body[i - 1], &self.body[i]);
            i = i - 1;
        }
        proof {
            assert(self.body@.subrange(0, n as int) =~= self.body@);
        }
        total
    }

    /// Advances the game by `timespan`: `new_direction`, if any, replaces
    /// the waiting heading; the waiting heading is taken at the next cell
    /// centre crossing; then the head moves on at the snake's speed,
    /// resolving each collision where it happens. The first fatal collision
    /// ends the move and is returned.
    pub fn move_for(
        &mut self,
        timespan: u64,
        new_direction: Option<Direction>,
        board: &mut Board,
        score: &mut u64,
    ) -> (r: Result<(), GameOverEvent>)
        requires
            old(self).ready(*old(board)),
            old(self).within_limits(*old(score), timespan),
        ensures
            final(self).wf(),
            final(board).wf(),
            final(board).width == old(board).width,
            final(board).height == old(board).height,
            final(self).speed_view() == old(self).speed_view(),
            *final(score) >= *old(score),
            arc_length(final(self).body_view()) == arc_length(old(self).body_view()) + UNIT * (
            *final(score) - *old(score)),
            within_board(*final(board), final(self).head_view()),
            r is Ok ==> final(self).ready(*final(board)),
            final(self).direction_view() == old(self).direction_view() || Some(
                final(self).direction_view(),
            ) == pending_turn(old(self).next_direction_view(), new_direction),
            (pending_turn(old(self).next_direction_view(), new_direction) matches Some(p)
                && is_redundant_turn(old(self).direction_view(), p)) ==> final(self).direction_view()
                == old(self).direction_view(),
            final(self).next_direction_view() is None || final(self).next_direction_view()
                == pending_turn(old(self).next_direction_view(), new_direction),
            r == Err::<(), GameOverEvent>(GameOverEvent::BorderCollisionEvent) ==> final(board).on_border(final(self).head_view()),
            r == Err::<(), GameOverEvent>(GameOverEvent::SnakeCollisionEvent) ==> hits_itself(
                final(self).body_view(),
                final(self).head_view(),
            ),
            r == Err::<(), GameOverEvent>(GameOverEvent::NoEmptySquaresEvent) ==> final(board).food is None && *final(score) > *old(score)
                && final(board).free_cells_spec(final(self).body_view()).len() == 0,
            r is Ok && final(self).direction_view() == old(self).direction_view() ==> final(self).head_view() == point_ahead(
                old(self).head_view(),
                old(self).direction_view(),
                old(self).speed_view() * timespan,
            ),
            r is Ok && final(self).direction_view() != old(self).direction_view() ==> ({
                let gap = center_gap(old(self).head_view(), old(self).direction_view());
                final(self).head_view() == point_ahead(
                    point_ahead(old(self).head_view(), old(self).direction_view(), gap),
                    final(self).direction_view(),
                    old(self).speed_view() * timespan - gap,
                )
            }),
            ({
                let pending = pending_turn(old(self).next_direction_view(), new_direction);
                let d = old(self).speed_view() * timespan;
                takes_no_turn(old(self).head_view(), old(self).direction_view(), pending, d) && (
                forall|q: int|
                    0 < q <= d ==> !#[trigger] checkpoint_hit(
                        *old(board),
                        old(self).body_view(),
                        old(self).direction_view(),
                        q,
                    )) ==> r is Ok && *final(score) == *old(score) && *final(board) == *old(board)
                    && final(self).direction_view() == old(self).direction_view()
                    && final(self).body_view() == moved(old(self).body_view(), old(self).direction_view(), d)
            }),
            ({
                let pending = pending_turn(old(self).next_direction_view(), new_direction);
                let d = old(self).speed_view() * timespan;
                forall|q: int|
                    #![trigger first_hit_on_border(*old(board), old(self).body_view(), old(self).direction_view(), q, d)]
                    takes_no_turn(old(self).head_view(), old(self).direction_view(), pending, d)
                        && first_hit_on_border(*old(board), old(self).body_view(), old(self).direction_view(), q, d)
                        ==> r == Err::<(), GameOverEvent>(GameOverEvent::BorderCollisionEvent)
                        && final(self).head_view() == point_ahead(old(self).head_view(), old(self).direction_view(), q)
            }),
            ({
                let pending = pending_turn(old(self).next_direction_view(), new_direction);
                let d = old(self).speed_view() * timespan;
                let dir = old(self).direction_view();
                let gap = center_gap(old(self).head_view(), dir);
                let turned = moved(old(self).body_view(), dir, gap);
                !takes_no_turn(old(self).head_view(), dir, pending, d) && (forall|q: int|
                    0 < q <= gap ==> !#[trigger] checkpoint_hit(*old(board), old(self).body_view(), dir, q))
                    && (forall|q: int|
                    0 < q <= d - gap ==> !#[trigger] checkpoint_hit(*old(board), turned, pending->0, q))
                    ==> r is Ok && *final(score) == *old(score) && *final(board) == *old(board)
                    && final(self).direction_view() == pending->0
                    && final(self).next_direction_view() is None
                    && final(self).body_view() == moved(turned, pending->0, d - gap)
            }),
    {
        if new_direction.is_some() {
            self.next_direction = new_direction;
        }
        let mut distance: i64 = (self.speed as u128 * timespan as u128) as i64;
        if self.next_direction.is_some() {
            let ghost score_before = *score;
            let ghost distance_before = distance;
            let turned = self.change_direction(&mut distance, board, score);
            if turned.is_err() {
                return turned;
            }
            proof {
                let eats = *score - score_before;
                let gap = distance_before - distance;
                assert(eats * HALF_UNIT <= gap + HALF_UNIT);
                assert(UNIT * eats == 2 * (eats * HALF_UNIT)) by (nonlinear_arith);
                assert(eats <= gap + 1) by (nonlinear_arith)
                    requires eats * HALF_UNIT <= gap + HALF_UNIT, eats >= 0, gap >= 0;
            }
        }
        self.advance(distance, board, score)
    }

    /// Takes the waiting heading at the next cell centre crossing, moving
    /// there first when it lies within `distance`; what is left of the
    /// distance comes back in `distance`. A turn onto the same heading or
    /// its reverse is ignored, and a crossing beyond `distance` leaves the
    /// turn waiting.
    fn change_direction(&mut self, distance: &mut i64, board: &mut Board, score: &mut u64) -> (r:
        Result<(), GameOverEvent>)
        requires
            old(self).wf(),
            old(board).wf(),
            old(board).food_on_cell(),
            !on_body(old(self).body_view(), old(board).food->0.position),
            old(self).next_direction_view() is Some,
            inside(*old(board), old(self).head_view()),
            0 <= *old(distance) <= MAX_DISTANCE,
            arc_length(old(self).body_view()) + 2 * *old(distance) + 2 * UNIT <= LENGTH_LIMIT,
            *old(score) + *old(distance) + 2 <= u64::MAX,
        ensures
            final(self).wf(),
            final(board).wf(),
            final(board).width == old(board).width,
            final(board).height == old(board).height,
            final(self).speed_view() == old(self).speed_view(),
            *final(score) >= *old(score),
            arc_length(final(self).body_view()) == arc_length(old(self).body_view()) + UNIT * (
            *final(score) - *old(score)),
            within_board(*final(board), final(self).head_view()),
            0 <= *final(distance) <= *old(distance),
            final(self).next_direction_view() is None || final(self).next_direction_view() == old(self).next_direction_view(),
            ({
                let dir = old(self).direction_view();
                let next = old(self).next_direction_view()->0;
                let gap = center_gap(old(self).head_view(), dir);
                if is_redundant_turn(dir, next) || gap > *old(distance) {
                    r is Ok && *final(self) == *old(self) && *final(board) == *old(board)
                        && *final(score) == *old(score) && *final(distance) == *old(distance)
                } else if r is Ok {
                    &&& final(self).direction_view() == next
                    &&& final(self).next_direction_view() is None
                    &&& *final(distance) == *old(distance) - gap
                    &&& final(self).head_view() == point_ahead(old(self).head_view(), dir, gap)
                    &&& inside(*final(board), final(self).head_view())
                    &&& final(board).food_on_cell()
                    &&& !on_body(final(self).body_view(), final(board).food->0.position)
                    &&& (*final(score) - *old(score)) * HALF_UNIT <= gap + HALF_UNIT
                    &&& gap == 0 ==> final(self).body_view() == old(self).body_view()
                } else {
                    &&& final(self).direction_view() == dir
                    &&& (r == Err::<(), GameOverEvent>(GameOverEvent::BorderCollisionEvent)
                        ==> final(board).on_border(final(self).head_view()))
                    &&& (r == Err::<(), GameOverEvent>(GameOverEvent::SnakeCollisionEvent)
                        ==> hits_itself(final(self).body_view(), final(self).head_view()))
                    &&& (r == Err::<(), GameOverEvent>(GameOverEvent::NoEmptySquaresEvent)
                        ==> final(board).food is None && *final(score) > *old(score)
                        && final(board).free_cells_spec(final(self).body_view()).len() == 0)
                }
            }),
            r is Err ==> *final(distance) == *old(distance) && final(self).direction_view() == old(
                self).direction_view(),
            ({
                let dir = old(self).direction_view();
                let next = old(self).next_direction_view()->0;
                let gap = center_gap(old(self).head_view(), dir);
                !is_redundant_turn(dir, next) && gap <= *old(distance) && (forall|q: int|
                    0 < q <= gap ==> !#[trigger] checkpoint_hit(
                        *old(board),
                        old(self).body_view(),
                        dir,
                        q,
                    )) ==> r is Ok && final(self).direction_view() == next
                    && final(self).next_direction_view() is None && *final(distance) == *old(
                    distance) - gap && final(self).body_view() == moved(old(self).body_view(), dir, gap)
                    && *final(board) == *old(board) && *final(score) == *old(score)
            }),
            ({
                let dir = old(self).direction_view();
                let next = old(self).next_direction_view()->0;
                let gap = center_gap(old(self).head_view(), dir);
                forall|q: int|
                    #![trigger first_hit_on_border(*old(board), old(self).body_view(), dir, q, gap)]
                    !is_redundant_turn(dir, next) && gap <= *old(distance) && first_hit_on_border(
                        *old(board),
                        old(self).body_view(),
                        dir,
                        q,
                        gap,
                    ) ==> r == Err::<(), GameOverEvent>(GameOverEvent::BorderCollisionEvent)
                        && final(self).head_view() == point_ahead(old(self).head_view(), dir, q)
            }),
    {
        let next = self.next_direction.unwrap();
        if self.direction == next || self.direction.opposite() == next {
            return Ok(());
        }
        let intersection = self.next_intersection(board);
        let gap = manhattan(&self.body[0], &intersection);
        proof {
            let g = center_gap(self.head_view(), self.direction);
            lemma_signed(self.direction.dx(), g);
            lemma_signed(self.direction.dy(), g);
        }
        if gap == 0 {
            self.direction = next;
            self.next_direction = None;
            return Ok(());
        }
        if gap > *distance {
            return Ok(());
        }
        self.next_direction = None;
        let moved = self.advance(gap, board, score);
        if moved.is_err() {
            return moved;
        }
        *distance = *distance - gap;
        self.direction = next;
        Ok(())
    }

    /// Moves the head to the first checkpoint hit, `q` ahead, and resolves
    /// the collision there.
    fn strike(&mut self, q: i64, board: &mut Board, score: &mut u64) -> (r: Result<
        (),
        GameOverEvent,
    >)
        requires
            old(self).wf(),
            old(board).wf(),
            old(board).food_on_cell(),
            !on_body(old(self).body_view(), old(board).food->0.position),
            inside(*old(board), old(self).head_view()),
            0 < q <= MAX_DISTANCE,
            checkpoint_hit(*old(board), old(self).body_view(), old(self).direction_view(), q as int),
            forall|q2: int|
                0 < q2 < q ==> !#[trigger] checkpoint_hit(
                    *old(board),
                    old(self).body_view(),
                    old(self).direction_view(),
                    q2,
                ),
            arc_length(old(self).body_view()) + UNIT <= LENGTH_LIMIT,
            *old(score) < u64::MAX,
        ensures
            final(self).wf(),
            final(board).wf(),
            final(board).width == old(board).width,
            final(board).height == old(board).height,
            final(self).speed_view() == old(self).speed_view(),
            final(self).direction_view() == old(self).direction_view(),
            final(self).next_direction_view() == old(self).next_direction_view(),
            final(self).head_view() == point_ahead(
                old(self).head_view(),
                old(self).direction_view(),
                q as int,
            ),
            within_board(*final(board), final(self).head_view()),
            *final(score) == *old(score) || *final(score) == *old(score) + 1,
            arc_length(final(self).body_view()) == arc_length(old(self).body_view()) + UNIT * (
            *final(score) - *old(score)),
            r is Ok ==> inside(
                *final(board),
                final(self).head_view(),
            ) && final(board).food_on_cell() && !on_body(final(self).body_view(), final(board).food->0.position)
                && on_lattice(
                axis_coordinate(final(self).head_view(), final(self).direction_view()),
            ),
            r == Err::<(), GameOverEvent>(GameOverEvent::BorderCollisionEvent) ==> final(board).on_border(final(self).head_view()),
            r == Err::<(), GameOverEvent>(GameOverEvent::SnakeCollisionEvent) ==> hits_itself(
                final(self).body_view(),
                final(self).head_view(),
            ),
            r == Err::<(), GameOverEvent>(GameOverEvent::NoEmptySquaresEvent) ==> final(board).food is None && *final(score) == *old(score) + 1
                && final(board).free_cells_spec(final(self).body_view()).len() == 0,
            old(board).on_border(final(self).head_view()) ==> r == Err::<(), GameOverEvent>(
                GameOverEvent::BorderCollisionEvent,
            ),
    {
        let ghost before = self.body@;
        let ghost dir = self.direction;
        proof {
            lemma_wall_ahead(*board, before, dir, q as int);
            if !food_at(*board, point_ahead(before[0], dir, q as int)) {
                lemma_food_stays_clear(*board, before, dir, q as int);
            }
        }
        self.move_of(q);
        let resolved = self.check_collisions(board, score);
        proof {
            if resolved is Ok && !inside(*board, self.head_view()) {
                lemma_border_points(*old(board), self.head_view());
            }
            assert(self.head_view() == point_ahead(before[0], dir, q as int));
            assert(on_lattice(axis_coordinate(self.head_view(), dir)));
        }
        resolved
    }

    /// Moves the head `distance` ahead, stopping at each checkpoint where it
    /// runs into something to resolve that collision there. A fatal
    /// collision ends the move where it happened.
    #[verifier::rlimit(40)]
    fn advance(&mut self, distance: i64, board: &mut Board, score: &mut u64) -> (r: Result<
        (),
        GameOverEvent,
    >)
        requires
            old(self).wf(),
            old(board).wf(),
            old(board).food_on_cell(),
            !on_body(old(self).body_view(), old(board).food->0.position),
            inside(*old(board), old(self).head_view()),
            0 <= distance <= MAX_DISTANCE,
            arc_length(old(self).body_view()) + 2 * distance + UNIT <= LENGTH_LIMIT,
            *old(score) + distance + 1 <= u64::MAX,
        ensures
            final(self).wf(),
            final(board).wf(),
            final(board).width == old(board).width,
            final(board).height == old(board).height,
            final(self).speed_view() == old(self).speed_view(),
            final(self).direction_view() == old(self).direction_view(),
            final(self).next_direction_view() == old(self).next_direction_view(),
            *final(score) >= *old(score),
            arc_length(final(self).body_view()) == arc_length(old(self).body_view()) + UNIT * (
            *final(score) - *old(score)),
            (*final(score) - *old(score)) * HALF_UNIT <= distance + HALF_UNIT,
            within_board(*final(board), final(self).head_view()),
            r is Ok ==> inside(*final(board), final(self).head_view()) && final(board).food_on_cell()
                && !on_body(final(self).body_view(), final(board).food->0.position),
            r is Ok ==> final(self).head_view() == point_ahead(
                old(self).head_view(),
                old(self).direction_view(),
                distance as int,
            ),
            (forall|q: int|
                0 < q <= distance ==> !#[trigger] checkpoint_hit(
                    *old(board),
                    old(self).body_view(),
                    old(self).direction_view(),
                    q,
                )) ==> r is Ok && *final(score) == *old(score) && *final(board) == *old(board)
                && final(self).body_view() == moved(
                old(self).body_view(),
                old(self).direction_view(),
                distance as int,
            ),
            forall|q: int|
                #![trigger first_hit_on_border(*old(board), old(self).body_view(), old(self).direction_view(), q, distance as int)]
                first_hit_on_border(*old(board), old(self).body_view(), old(self).direction_view(), q, distance as int)
                ==> r == Err::<(), GameOverEvent>(GameOverEvent::BorderCollisionEvent)
                && final(self).head_view() == point_ahead(old(self).head_view(), old(self).direction_view(), q),
            r == Err::<(), GameOverEvent>(GameOverEvent::BorderCollisionEvent) ==> final(board).on_border(final(self).head_view()),
            r == Err::<(), GameOverEvent>(GameOverEvent::SnakeCollisionEvent) ==> hits_itself(
                final(self).body_view(),
                final(self).head_view(),
            ),
            r == Err::<(), GameOverEvent>(GameOverEvent::NoEmptySquaresEvent) ==> final(board).food is None && *final(score) > *old(score)
                && final(board).free_cells_spec(final(self).body_view()).len() == 0,
    {
        let ghost head0 = self.body@[0];
        let ghost body0 = self.body@;
        let ghost score0 = *score;
        let ghost dir = self.direction;
        let mut remaining: i64 = distance;
        loop
            invariant
                self.wf(),
                board.wf(),
                score0 == *old(score),
                dir == old(self).direction,
                body0 == old(self).body@,
                head0 == body0[0],
                board.width == old(board).width,
                board.height == old(board).height,
                board.food_on_cell(),
                !on_body(self.body_view(), board.food->0.position),
                inside(*board, self.head_view()),
                0 <= remaining <= distance,
                self.head_view() == point_ahead(head0, dir, distance - remaining),
                *score >= score0,
                arc_length(self.body_view()) == arc_length(body0) + UNIT * (*score - score0),
                (*score - score0) * HALF_UNIT <= distance - remaining + HALF_UNIT,
                remaining < distance ==> on_lattice(axis_coordinate(self.head_view(), dir)),
                remaining == distance ==> self.body_view() == body0 && *score == score0 && *board
                    == *old(board),
                forall|q2: int|
                    #![trigger first_hit_on_border(*old(board), body0, dir, q2, distance as int)]
                    first_hit_on_border(*old(board), body0, dir, q2, distance as int) ==> remaining
                        == distance,
                (forall|q: int|
                    0 < q <= distance ==> !#[trigger] checkpoint_hit(*old(board), body0, dir, q))
                    ==> remaining == distance,
                0 <= distance <= MAX_DISTANCE,
                within_limit(head0),
                arc_length(body0) + 2 * distance + UNIT <= LENGTH_LIMIT,
                score0 + distance + 1 <= u64::MAX,
                self.speed == old(self).speed,
                self.direction == dir,
                self.next_direction == old(self).next_direction,
            decreases remaining,
        {
            let ghost before = self.body@;
            let ghost eats = *score - score0;
            match self.nearest_collision_distance(remaining, board) {
                Some(q) => {
                    proof {
                        if remaining == distance {
                            assert(checkpoint_hit(*old(board), body0, dir, q as int));
                        }
                        assert(old(self).body_view() == body0);
                        assert(old(self).direction_view() == dir);
                        assert(!(forall|q2: int|
                            0 < q2 <= distance ==> !#[trigger] checkpoint_hit(
                                *old(board),
                                old(self).body_view(),
                                old(self).direction_view(),
                                q2,
                            )));
                        if remaining < distance {
                            lemma_first_checkpoint_far(*board, before, dir, q as int);
                        }
                        assert((eats + 1) * HALF_UNIT == eats * HALF_UNIT + HALF_UNIT) by (nonlinear_arith);
                        assert((eats + 1) * HALF_UNIT <= distance - (remaining - q) + HALF_UNIT);
                        assert(eats + 1 <= distance + 1) by (nonlinear_arith)
                            requires
                                (eats + 1) * HALF_UNIT <= distance - (remaining - q) + HALF_UNIT,
                                remaining - q >= 0, eats >= 0;
                        lemma_ahead_twice(head0, dir, distance - remaining, q as int);
                    }
                    let ghost rem_before = remaining;
                    proof {
                        assert forall|q2: int|
                            #![trigger first_hit_on_border(*old(board), body0, dir, q2, distance as int)]
                            first_hit_on_border(*old(board), body0, dir, q2, distance as int)
                            implies rem_before == distance && q2 == q by {
                            if rem_before == distance {
                                if q2 < q {
                                    assert(checkpoint_hit(*board, before, dir, q2));
                                }
                                if q < q2 {
                                    assert(checkpoint_hit(*old(board), body0, dir, q as int));
                                }
                            }
                        };
                    }
                    let resolved = self.strike(q, board, score);
                    remaining = remaining - q;
                    if resolved.is_err() {
                        return resolved;
                    }
                },
                None => {
                    proof {
                        lemma_wall_ahead(*board, before, dir, remaining as int);
                        lemma_ahead_twice(head0, dir, distance - remaining, remaining as int);
                        lemma_food_stays_clear(*board, before, dir, remaining as int);
                    }
                    self.move_of(remaining);
                    proof {
                        assert(old(self).body_view() == body0);
                        assert(old(self).direction_view() == dir);
                    }
                    return Ok(());
                },
            }
        }
    }

    /// Whether `point` lies on the snake's body.
    pub fn contains(&self, point: &Vector) -> (r: bool)
        requires
            self.wf(),
            point.in_range(),
        ensures
            r == on_body(self.body_view(), *point),
    {
        let mut i: usize = 0;
        while i < self.body.len() - 1
            invariant
                self.wf(),
                point.in_range(),
                i < self.body@.len(),
                forall|j: int| 0 <= j < i ==> !#[trigger] on_segment(self.body@[j], self.body@[j + 1], *point),
            decreases self.body.len() - i,
        {
            let segment = LineSegment::new(self.body[i], self.body[i + 1]);
            if segment.contains(point) {
                return true;
            }
            i = i + 1;
        }
        false
    }
}

/// The distance along the axes between two waypoints.
fn manhattan(a: &Vector, b: &Vector) -> (r: i64)
    requires
        within_limit(*a),
        within_limit(*b),
    ensures
        r == mdist(*a, *b),
{
    let dx = if a.x >= b.x { a.x - b.x } else { b.x - a.x };
    let dy = if a.y >= b.y { a.y - b.y } else { b.y - a.y };
    dx + dy
}

/// The head cannot cross the border unseen: from inside the board, with no
/// checkpoint hit before `d`, the point `d` ahead is inside the board, or on
/// its border at a checkpoint hit.
pub proof fn lemma_wall_ahead(board: Board, body: Seq<Vector>, dir: Direction, d: int)
    requires
        board.wf(),
        body.len() >= 1,
        inside(board, body[0]),
        0 <= d <= MAX_DISTANCE,
        forall|q2: int| 0 < q2 < d ==> !#[trigger] checkpoint_hit(board, body, dir, q2),
    ensures
        within_board(board, point_ahead(body[0], dir, d)),
        inside(board, point_ahead(body[0], dir, d)) || checkpoint_hit(board, body, dir, d),
{
    lemma_board_extent(board);
    let h = body[0];
    let w = board.width * UNIT;
    let t = board.height * UNIT;
    let qw = match dir {
        Direction::RIGHT => w - h.x,
        Direction::LEFT => h.x as int,
        Direction::DOWN => t - h.y,
        Direction::UP => h.y as int,
    };
    lemma_signed(dir.dx(), qw);
    lemma_signed(dir.dy(), qw);
    lemma_signed(dir.dx(), d);
    lemma_signed(dir.dy(), d);
    let pw = point_ahead(h, dir, qw);
    lemma_border_points(board, pw);
    let hu = HALF_UNIT as int;
    vstd::arithmetic::div_mod::lemma_mod_multiples_basic(2 * board.width, hu);
    vstd::arithmetic::div_mod::lemma_mod_multiples_basic(2 * board.height, hu);
    vstd::arithmetic::div_mod::lemma_mod_multiples_basic(0, hu);
    assert((2 * board.width) * hu == board.width * (2 * hu)) by (nonlinear_arith);
    assert((2 * board.height) * hu == board.height * (2 * hu)) by (nonlinear_arith);
    assert(0 * hu == 0);
    assert(checkpoint_hit(board, body, dir, qw));
}

/// From a head on the lattice, the first checkpoint ahead is half a cell away.
/// Food that the head does not stop on stays off the body while the snake
/// moves: the head only runs over checkpoints, and food at a checkpoint
/// before the end of the move would be a hit.
pub proof fn lemma_food_stays_clear(board: Board, body: Seq<Vector>, dir: Direction, d: int)
    requires
        board.wf(),
        polyline_wf(body),
        board.food_on_cell(),
        !on_body(body, board.food->0.position),
        0 <= d <= MAX_DISTANCE,
        within_limit(point_ahead(body[0], dir, d)),
        forall|q: int| 0 < q < d ==> !#[trigger] checkpoint_hit(board, body, dir, q),
        !checkpoint_hit(board, body, dir, d) || !food_at(board, point_ahead(body[0], dir, d)),
    ensures
        !on_body(moved(body, dir, d), board.food->0.position),
{
    let f = board.food->0.position;
    if d > 0 && on_body(moved(body, dir, d), f) {
        lemma_arc_positive(body);
        lemma_extend_head(body, dir, d);
        lemma_shrink_tail_covers_less(extend_head(body, dir, d), d, f);
        lemma_extend_head_covers(body, dir, d, f);
        let h = body[0];
        let nh = point_ahead(h, dir, d);
        lemma_signed(dir.dx(), d);
        lemma_signed(dir.dy(), d);
        lemma_on_axis_segment(h, body[1], h);
        assert(on_segment(body[0], body[1], h));
        assert(on_axis_segment(h, nh, f));
        let q = dir.dx() * (f.x - h.x) + dir.dy() * (f.y - h.y);
        lemma_signed(dir.dx(), f.x - h.x);
        lemma_signed(dir.dy(), f.y - h.y);
        lemma_signed(dir.dx(), q);
        lemma_signed(dir.dy(), q);
        assert(f == point_ahead(h, dir, q));
        let k = choose|k: int|
            0 <= k < board.width * board.height && f == #[trigger] cell_center(
                k,
                board.height as int,
            );
        let c = k / (board.height as int);
        let r = k % (board.height as int);
        let hu = HALF_UNIT as int;
        assert(c * UNIT + HALF_UNIT == (2 * c + 1) * hu) by (nonlinear_arith) requires hu == HALF_UNIT;
        assert(r * UNIT + HALF_UNIT == (2 * r + 1) * hu) by (nonlinear_arith) requires hu == HALF_UNIT;
        vstd::arithmetic::div_mod::lemma_mod_multiples_basic(2 * c + 1, hu);
        vstd::arithmetic::div_mod::lemma_mod_multiples_basic(2 * r + 1, hu);
        lemma_board_extent(board);
        assert(0 <= k < board.width * board.height);
        assert(0 <= c < board.width) by (nonlinear_arith)
            requires 0 <= k < board.width * board.height, c == k / (board.height as int), board.height > 0;
        assert(c * UNIT <= MAX_CELLS * UNIT) by (nonlinear_arith) requires c < MAX_CELLS;
        assert(r * UNIT <= MAX_CELLS * UNIT) by (nonlinear_arith) requires 0 <= r < MAX_CELLS;
        assert(on_lattice(axis_coordinate(f, dir)));
        if q == 0 {
            assert(f == h);
        } else {
            assert(checkpoint_hit(board, body, dir, q));
        }
    }
}

pub proof fn lemma_first_checkpoint_far(board: Board, body: Seq<Vector>, dir: Direction, q: int)
    requires
        body.len() >= 1,
        within_limit(body[0]),
        on_lattice(axis_coordinate(body[0], dir)),
        0 < q <= MAX_DISTANCE,
        checkpoint_hit(board, body, dir, q),
    ensures
        q >= HALF_UNIT,
{
    let h = body[0];
    lemma_signed(dir.dx(), q);
    lemma_signed(dir.dy(), q);
    let a = axis_coordinate(h, dir);
    let b = axis_coordinate(point_ahead(h, dir, q), dir);
    if a < b {
        lemma_lattice_gap(a, b, HALF_UNIT as int);
    } else {
        lemma_lattice_gap(b, a, HALF_UNIT as int);
    }
}

} // verus!
