use vstd::prelude::*;

use rand::seq::IteratorRandom;

use crate::domain::food::Food;
use crate::domain::game_over_event::GameOverEvent;
use crate::domain::polyline::on_body;
use crate::domain::snake::Snake;
use crate::geometry::line_segment::on_segment;
use crate::geometry::rectangle::Rectangle;
use crate::geometry::vector::{Vector, HALF_UNIT, UNIT};

verus! {

/// Largest number of cells along either side of a board.
pub const MAX_CELLS: usize = 1_048_576;

/// A board of `width` by `height` cells, and the food on it if any.
#[derive(Clone, Copy, Debug, PartialEq, Eq, Structural)]
pub struct Board {
    pub width: usize,
    pub height: usize,
    pub food: Option<Food>,
}

/// The centre of cell number `k` when cells are counted column by column,
/// each column holding `height` cells.
pub open spec fn cell_center(k: int, height: int) -> Vector {
    Vector {
        x: ((k / height) * UNIT + HALF_UNIT) as i64,
        y: ((k % height) * UNIT + HALF_UNIT) as i64,
    }
}

/// The centres, among the first `k` cells, that are not on `body`, in order.
pub open spec fn free_prefix(height: int, body: Seq<Vector>, k: nat) -> Seq<Vector>
    decreases k,
{
    if k == 0 {
        Seq::empty()
    } else {
        let previous = free_prefix(height, body, (k - 1) as nat);
        let c = cell_center(k - 1, height);
        if on_body(body, c) {
            previous
        } else {
            previous.push(c)
        }
    }
}

impl Board {
    pub open spec fn wf(self) -> bool {
        1 <= self.width <= MAX_CELLS && 1 <= self.height <= MAX_CELLS
    }

    /// The board as a rectangle of length units, from the origin.
    pub open spec fn extent(self) -> Rectangle {
        Rectangle {
            bottom_left_vertex: Vector { x: 0, y: 0 },
            width: (self.width * UNIT) as i64,
            height: (self.height * UNIT) as i64,
        }
    }

    /// `p` lies on one of the four border segments.
    pub open spec fn on_border(self, p: Vector) -> bool {
        exists|i: int|
            0 <= i < 4 && #[trigger] on_segment(
                self.extent().side(i).begin,
                self.extent().side(i).end,
                p,
            )
    }

    /// The cell centres that `body` leaves free, column by column.
    pub open spec fn free_cells_spec(self, body: Seq<Vector>) -> Seq<Vector> {
        free_prefix(self.height as int, body, (self.width * self.height) as nat)
    }

    /// The cell centre nearest the middle of the board.
    pub open spec fn middle_spec(self) -> Vector {
        Vector {
            x: (((self.width + 1) / 2) * UNIT - HALF_UNIT) as i64,
            y: (((self.height + 1) / 2) * UNIT - HALF_UNIT) as i64,
        }
    }

    pub fn new(width: usize, height: usize) -> (r: Board)
        ensures
            r.width == width,
            r.height == height,
            r.food is None,
    {
        Board { width, height, food: None }
    }

    pub fn as_rectangle(&self) -> (r: Rectangle)
        requires
            self.wf(),
        ensures
            r == self.extent(),
            r.in_range(),
    {
        proof { lemma_board_extent(*self); }
        Rectangle::new(Vector::new(0, 0), self.width as i64 * UNIT, self.height as i64 * UNIT)
    }

    /// The centres of the cells that `snake` leaves free, column by column.
    pub fn free_cells(&self, snake: &Snake) -> (r: Vec<Vector>)
        requires
            self.wf(),
            snake.wf(),
        ensures
            r@ == self.free_cells_spec(snake.body_view()),
    {
        proof { lemma_board_extent(*self); }
        assert(self.width * self.height <= MAX_CELLS * MAX_CELLS) by (nonlinear_arith)
            requires self.width <= MAX_CELLS, self.height <= MAX_CELLS;
        let count: u64 = self.width as u64 * self.height as u64;
        let height = self.height as u64;
        let mut free: Vec<Vector> = Vec::new();
        let mut k: u64 = 0;
        while k < count
            invariant
                self.wf(),
                snake.wf(),
                count == self.width * self.height,
                height == self.height,
                k <= count,
                free@ == free_prefix(self.height as int, snake.body_view(), k as nat),
            decreases count - k,
        {
            let column = k / height;
            let row = k % height;
            assert(column < self.width) by (nonlinear_arith)
                requires k < self.width * self.height, column == k as int / (self.height as int), self.height > 0;
            assert(column * UNIT <= MAX_CELLS * UNIT) by (nonlinear_arith)
                requires column < MAX_CELLS;
            assert(row * UNIT <= MAX_CELLS * UNIT) by (nonlinear_arith)
                requires row < MAX_CELLS;
            let center = Vector::new(column as i64 * UNIT + HALF_UNIT, row as i64 * UNIT + HALF_UNIT);
            assert(center == cell_center(k as int, self.height as int));
            if !snake.contains(&center) {
                free.push(center);
            }
            k = k + 1;
        }
        free
    }

    /// Puts food on a free cell picked at random; fails when every cell is
    /// taken by `snake`.
    pub fn spawn_food(&mut self, snake: &Snake) -> (r: Result<(), GameOverEvent>)
        requires
            old(self).wf(),
            snake.wf(),
        ensures
            final(self).width == old(self).width,
            final(self).height == old(self).height,
            r is Ok <==> old(self).free_cells_spec(snake.body_view()).len() > 0,
            r is Ok ==> (final(self).food matches Some(f) && old(self).free_cells_spec(
                snake.body_view(),
            ).contains(f.position)),
            r is Err ==> r == Err::<(), GameOverEvent>(GameOverEvent::NoEmptySquaresEvent)
                && final(self).food is None,
    {
        let free = self.free_cells(snake);
        let choice = random_index(free.len());
        self.place_food(&free, choice)
    }

    /// Puts food on the free cell number `index` (wrapping around the number
    /// of free cells); fails when every cell is taken by `snake`.
    pub fn spawn_food_at(&mut self, snake: &Snake, index: usize) -> (r: Result<(), GameOverEvent>)
        requires
            old(self).wf(),
            snake.wf(),
        ensures
            final(self).width == old(self).width,
            final(self).height == old(self).height,
            ({
                let free = old(self).free_cells_spec(snake.body_view());
                if free.len() == 0 {
                    r == Err::<(), GameOverEvent>(GameOverEvent::NoEmptySquaresEvent)
                        && final(self).food is None
                } else {
                    r is Ok && final(self).food == Some(
                        Food { position: free[index as int % free.len() as int] },
                    )
                }
            }),
    {
        let free = self.free_cells(snake);
        let choice = if free.len() == 0 {
            None
        } else {
            Some(index % free.len())
        };
        self.place_food(&free, choice)
    }

    fn place_food(&mut self, free: &Vec<Vector>, choice: Option<usize>) -> (r: Result<
        (),
        GameOverEvent,
    >)
        requires
            choice matches Some(i) ==> i < free@.len(),
            choice is None <==> free@.len() == 0,
        ensures
            final(self).width == old(self).width,
            final(self).height == old(self).height,
            choice matches Some(i) ==> r is Ok && final(self).food == Some(
                Food { position: free@[i as int] },
            ),
            choice is None ==> r == Err::<(), GameOverEvent>(GameOverEvent::NoEmptySquaresEvent)
                && final(self).food is None,
    {
        match choice {
            Some(i) => {
                self.food = Some(Food::new(free[i]));
                Ok(())
            },
            None => {
                self.food = None;
                Err(GameOverEvent::NoEmptySquaresEvent)
            },
        }
    }

    /// Whether `p` lies on the border of the board.
    pub fn is_on_border(&self, p: &Vector) -> (r: bool)
        requires
            self.wf(),
            p.in_range(),
        ensures
            r == self.on_border(*p),
    {
        let border = self.as_rectangle().as_line_segments();
        let mut i: usize = 0;
        while i < 4
            invariant
                self.wf(),
                p.in_range(),
                i <= 4,
                forall|k: int| 0 <= k < 4 ==> #[trigger] border@[k] == self.extent().side(k),
                forall|k: int| 0 <= k < 4 ==> (#[trigger] border@[k]).in_range(),
                forall|k: int|
                    0 <= k < i ==> !#[trigger] on_segment(
                        self.extent().side(k).begin,
                        self.extent().side(k).end,
                        *p,
                    ),
            decreases 4 - i,
        {
            if border[i].contains(p) {
                return true;
            }
            i = i + 1;
        }
        false
    }

    /// The board holds food, on the centre of one of its cells.
    pub open spec fn food_on_cell(self) -> bool {
        self.food matches Some(f) && exists|k: int|
            0 <= k < self.width * self.height && f.position == #[trigger] cell_center(
                k,
                self.height as int,
            )
    }

    /// What `spawn_food` may leave behind, for the snake `body`.
    pub open spec fn spawn_outcome(
        self,
        after: Board,
        body: Seq<Vector>,
        r: Result<(), GameOverEvent>,
    ) -> bool {
        &&& after.width == self.width
        &&& after.height == self.height
        &&& r is Ok <==> self.free_cells_spec(body).len() > 0
        &&& r is Ok ==> (after.food matches Some(f) && self.free_cells_spec(body).contains(
            f.position,
        ))
        &&& r is Err ==> r == Err::<(), GameOverEvent>(GameOverEvent::NoEmptySquaresEvent)
            && after.food is None
    }

    pub fn middle(&self) -> (r: Vector)
        requires
            self.wf(),
        ensures
            r == self.middle_spec(),
            0 < r.x < self.width * UNIT,
            0 < r.y < self.height * UNIT,
    {
        proof { lemma_board_extent(*self); }
        let x = ((self.width as i64 + 1) / 2) * UNIT - HALF_UNIT;
        let y = ((self.height as i64 + 1) / 2) * UNIT - HALF_UNIT;
        Vector::new(x, y)
    }
}

/// Relies on rand's `IteratorRandom::choose` over the range `0..n`, with the
/// thread-local generator: `None` exactly when the range is empty, else one
/// of its items.
#[verifier::external_body]
fn random_index(n: usize) -> (r: Option<usize>)
    ensures
        r is None <==> n == 0,
        r matches Some(i) ==> i < n,
{
    (0..n).choose(&mut rand::thread_rng())
}

/// Food is only ever placed off the snake: every free cell is a cell centre
/// of the board that the body does not cover.
pub proof fn lemma_free_cell_is_free(board: Board, body: Seq<Vector>, p: Vector)
    requires
        board.wf(),
        board.free_cells_spec(body).contains(p),
    ensures
        !on_body(body, p),
        exists|k: int| 0 <= k < board.width * board.height && p == #[trigger] cell_center(k, board.height as int),
{
    lemma_free_prefix(board.height as int, body, (board.width * board.height) as nat, p);
}

/// After food is spawned for a snake `body`, either the new food lies on a
/// cell centre of the board that the snake does not cover, or the spawn
/// failed with `NoEmptySquaresEvent` because no such cell is left.
pub proof fn lemma_spawned_food_is_off_snake(
    before: Board,
    after: Board,
    body: Seq<Vector>,
    r: Result<(), GameOverEvent>,
)
    requires
        before.wf(),
        before.spawn_outcome(after, body, r),
    ensures
        r is Ok ==> (after.food matches Some(f) && !on_body(body, f.position)),
        r is Ok ==> after.food_on_cell(),
        r is Err ==> r == Err::<(), GameOverEvent>(GameOverEvent::NoEmptySquaresEvent)
            && before.free_cells_spec(body).len() == 0,
{
    if r is Ok {
        let f = after.food->0;
        lemma_free_cell_is_free(before, body, f.position);
    }
}

proof fn lemma_free_prefix(height: int, body: Seq<Vector>, k: nat, p: Vector)
    requires
        free_prefix(height, body, k).contains(p),
    ensures
        !on_body(body, p),
        exists|j: int| 0 <= j < k && p == #[trigger] cell_center(j, height),
    decreases k,
{
    if k > 0 {
        let previous = free_prefix(height, body, (k - 1) as nat);
        let c = cell_center(k - 1, height);
        if previous.contains(p) {
            lemma_free_prefix(height, body, (k - 1) as nat, p);
        } else {
            let i = choose|i: int| 0 <= i < free_prefix(height, body, k).len() && free_prefix(height, body, k)[i] == p;
            assert(!on_body(body, c));
            assert(free_prefix(height, body, k) == previous.push(c));
            assert(i == previous.len());
            assert(p == c);
        }
    }
}

/// Every point of the closed board that has an extreme coordinate lies on
/// the border.
pub proof fn lemma_border_points(board: Board, p: Vector)
    requires
        board.wf(),
        0 <= p.x <= board.width * UNIT,
        0 <= p.y <= board.height * UNIT,
        p.x == 0 || p.x == board.width * UNIT || p.y == 0 || p.y == board.height * UNIT,
    ensures
        board.on_border(p),
{
    lemma_board_extent(board);
    let w = board.width * UNIT;
    let h = board.height * UNIT;
    let x = p.x as int;
    let y = p.y as int;
    let e = board.extent();
    if p.y == 0 {
        assert((x - 0) * (w - x) + (y - 0) * (0 - y) >= 0) by (nonlinear_arith)
            requires 0 <= x <= w, y == 0;
        assert((w - 0) * (y - 0) == (0 - 0) * (x - 0)) by (nonlinear_arith)
            requires y == 0;
        assert(on_segment(e.side(0).begin, e.side(0).end, p));
    } else if p.x == w {
        assert((x - w) * (w - x) + (y - 0) * (h - y) >= 0) by (nonlinear_arith)
            requires 0 <= y <= h, x == w;
        assert((w - w) * (y - 0) == (h - 0) * (x - w)) by (nonlinear_arith)
            requires x == w;
        assert(on_segment(e.side(1).begin, e.side(1).end, p));
    } else if p.y == h {
        assert((x - w) * (0 - x) + (y - h) * (h - y) >= 0) by (nonlinear_arith)
            requires 0 <= x <= w, y == h;
        assert((0 - w) * (y - h) == (h - h) * (x - w)) by (nonlinear_arith)
            requires y == h;
        assert(on_segment(e.side(2).begin, e.side(2).end, p));
    } else {
        assert((x - 0) * (0 - x) + (y - h) * (0 - y) >= 0) by (nonlinear_arith)
            requires 0 <= y <= h, x == 0;
        assert((0 - 0) * (y - h) == (0 - h) * (x - 0)) by (nonlinear_arith)
            requires x == 0;
        assert(on_segment(e.side(3).begin, e.side(3).end, p));
    }
}

/// Board extents fit comfortably in `i64`.
pub proof fn lemma_board_extent(board: Board)
    requires
        board.wf(),
    ensures
        board.width * UNIT <= MAX_CELLS * UNIT,
        board.height * UNIT <= MAX_CELLS * UNIT,
        ((board.width + 1) / 2) * UNIT <= MAX_CELLS * UNIT,
        ((board.height + 1) / 2) * UNIT <= MAX_CELLS * UNIT,
        0 < ((board.width + 1) / 2) * UNIT - HALF_UNIT < board.width * UNIT,
        0 < ((board.height + 1) / 2) * UNIT - HALF_UNIT < board.height * UNIT,
{
    let w = board.width as int;
    let h = board.height as int;
    assert(w * UNIT <= MAX_CELLS * UNIT) by (nonlinear_arith)
        requires w <= MAX_CELLS;
    assert(h * UNIT <= MAX_CELLS * UNIT) by (nonlinear_arith)
        requires h <= MAX_CELLS;
    assert(((w + 1) / 2) * UNIT <= MAX_CELLS * UNIT) by (nonlinear_arith)
        requires 1 <= w <= MAX_CELLS;
    assert(((h + 1) / 2) * UNIT <= MAX_CELLS * UNIT) by (nonlinear_arith)
        requires 1 <= h <= MAX_CELLS;
    assert(0 < ((w + 1) / 2) * UNIT - HALF_UNIT < w * UNIT) by (nonlinear_arith)
        requires 1 <= w;
    assert(0 < ((h + 1) / 2) * UNIT - HALF_UNIT < h * UNIT) by (nonlinear_arith)
        requires 1 <= h;
}

} // verus!
