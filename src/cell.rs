use vstd::prelude::*;

verus! {

/// The state of one cell of a Wireworld board.
#[derive(Clone, Copy, PartialEq, Eq, Structural, Debug)]
pub enum State {
    Empty,
    Head,
    Tail,
    Wire,
}

/// The Wireworld rule: the next state of a cell in state `s` that has `heads`
/// electron heads among its eight neighbours.
pub open spec fn next_state(s: State, heads: nat) -> State {
    match s {
        State::Empty => State::Empty,
        State::Head => State::Tail,
        State::Tail => State::Wire,
        State::Wire => if heads == 1 || heads == 2 {
            State::Head
        } else {
            State::Wire
        },
    }
}

impl State {
    /// The state this cell takes in the next generation, given how many of its
    /// neighbours are electron heads. Defined for every state and every count.
    pub fn tick(&self, neighbors: usize) -> (r: State)
        ensures
            r == next_state(*self, neighbors as nat),
    {
        match self {
            State::Empty => State::Empty,
            State::Head => State::Tail,
            State::Tail => State::Wire,
            State::Wire => {
                if neighbors == 1 || neighbors == 2 {
                    State::Head
                } else {
                    State::Wire
                }
            },
        }
    }
}


/// Returned by `Board::set` when the coordinate lies outside the board.
#[derive(Clone, Copy, PartialEq, Eq, Structural, Debug)]
pub struct OutOfRange;

/// A fixed-size grid of cells, stored row by row.
#[derive(Debug)]
pub struct Board {
    data: Vec<State>,
    w: usize,
    h: usize,
}

impl Board {
    #[verifier::type_invariant]
    spec fn well_formed(self) -> bool {
        &&& self.data@.len() == self.w * self.h
        &&& self.w * self.h <= usize::MAX
    }

    /// The number of columns.
    pub closed spec fn spec_width(self) -> int {
        self.w as int
    }

    /// The number of rows.
    pub closed spec fn spec_height(self) -> int {
        self.h as int
    }

    /// The cells, row by row: cell (x, y) is at `x + y * width`.
    pub closed spec fn cells(self) -> Seq<State> {
        self.data@
    }

    /// Whether (x, y) is a cell of the board.
    pub open spec fn in_bounds(self, x: int, y: int) -> bool {
        0 <= x < self.spec_width() && 0 <= y < self.spec_height()
    }

    /// The state at (x, y); every coordinate off the board reads as `Empty`.
    pub open spec fn cell(self, x: int, y: int) -> State {
        if self.in_bounds(x, y) {
            self.cells()[x + y * self.spec_width()]
        } else {
            State::Empty
        }
    }

    /// 1 if (x, y) holds an electron head, else 0.
    pub open spec fn head_at(self, x: int, y: int) -> nat {
        if self.cell(x, y) == State::Head {
            1
        } else {
            0
        }
    }

    /// The number of electron heads among the eight cells around (x, y).
    #[verifier::opaque]
    pub open spec fn head_count(self, x: int, y: int) -> nat {
        self.head_at(x - 1, y - 1) + self.head_at(x, y - 1) + self.head_at(x + 1, y - 1)
            + self.head_at(x - 1, y) + self.head_at(x + 1, y)
            + self.head_at(x - 1, y + 1) + self.head_at(x, y + 1) + self.head_at(x + 1, y + 1)
    }

    /// The state of (x, y) one generation later, computed from this board alone.
    pub open spec fn next_cell(self, x: int, y: int) -> State {
        next_state(self.cell(x, y), self.head_count(x, y))
    }

    /// `next` has the same size as this board and holds, at every coordinate,
    /// the state that the rule gives from this board.
    pub open spec fn steps_to(self, next: Board) -> bool {
        &&& next.spec_width() == self.spec_width()
        &&& next.spec_height() == self.spec_height()
        &&& forall|x: int, y: int| #[trigger] next.cell(x, y) == self.next_cell(x, y)
    }

    /// A board of `w` columns and `h` rows, every cell `Empty`.
    pub fn new(w: usize, h: usize) -> (r: Board)
        requires
            w * h <= usize::MAX,
        ensures
            r.spec_width() == w,
            r.spec_height() == h,
            forall|x: int, y: int| #[trigger] r.cell(x, y) == State::Empty,
    {
        let r = Board { w: w, h: h, data: vec![State::Empty; w * h] };
        assert forall|x: int, y: int| #[trigger] r.cell(x, y) == State::Empty by {
            if r.in_bounds(x, y) {
                lemma_index_in_grid(x, y, w as int, h as int);
            }
        }
        r
    }

    /// The number of columns.
    pub fn width(&self) -> (r: usize)
        ensures
            r == self.spec_width(),
    {
        self.w
    }

    /// The number of rows.
    pub fn height(&self) -> (r: usize)
        ensures
            r == self.spec_height(),
    {
        self.h
    }

    /// The state at (x, y), or `Empty` where (x, y) is off the board.
    pub fn get(&self, x: usize, y: usize) -> (r: State)
        ensures
            r == self.cell(x as int, y as int),
    {
        proof {
            use_type_invariant(self);
        }
        if x >= self.w || y >= self.h {
            return State::Empty;
        }
        proof {
            lemma_index_in_grid(x as int, y as int, self.w as int, self.h as int);
        }
        self.data[x + y * self.w]
    }

    /// Writes `state` at (x, y). A coordinate off the board is refused with
    /// `OutOfRange` and leaves the board as it was.
    pub fn set(&mut self, x: usize, y: usize, state: State) -> (r: Result<(), OutOfRange>)
        ensures
            r is Err <==> !old(self).in_bounds(x as int, y as int),
            final(self).spec_width() == old(self).spec_width(),
            final(self).spec_height() == old(self).spec_height(),
            forall|i: int, j: int|
                #[trigger] final(self).cell(i, j) == if i == x && j == y && old(self).in_bounds(i, j) {
                    state
                } else {
                    old(self).cell(i, j)
                },
    {
        proof {
            use_type_invariant(&*self);
        }
        if x >= self.w || y >= self.h {
            return Err(OutOfRange);
        }
        proof {
            lemma_index_in_grid(x as int, y as int, self.w as int, self.h as int);
        }
        let ghost prev = *self;
        self.data[x + y * self.w] = state;
        assert forall|i: int, j: int| #[trigger] self.cell(i, j) == if i == x && j == y && prev.in_bounds(i, j) {
            state
        } else {
            prev.cell(i, j)
        } by {
            if prev.in_bounds(i, j) {
                lemma_index_in_grid(i, j, self.w as int, self.h as int);
                if i + j * self.w == x + y * self.w {
                    lemma_index_unique(i, j, x as int, y as int, self.w as int);
                }
            }
        }
        Ok(())
    }

    /// 1 if (x, y) holds an electron head, else 0.
    fn head_flag(&self, x: usize, y: usize) -> (r: usize)
        ensures
            r == self.head_at(x as int, y as int),
    {
        if self.get(x, y) == State::Head {
            1
        } else {
            0
        }
    }

    /// How many of the eight cells around (x, y), the cell itself excluded, hold
    /// an electron head. Neighbours off the board count as `Empty`.
    pub fn neighbors(&self, x: usize, y: usize) -> (r: usize)
        ensures
            r == self.head_count(x as int, y as int),
            r <= 8,
    {
        let has_left = x > 0;
        let has_up = y > 0;
        let has_right = x < usize::MAX;
        let has_down = y < usize::MAX;
        proof {
            use_type_invariant(self);
            reveal(Board::head_count);
            let xi = x as int;
            let yi = y as int;
            // A coordinate past usize::MAX can never lie on the board.
            assert(!has_right ==> self.head_at(xi + 1, yi - 1) == 0 && self.head_at(xi + 1, yi) == 0
                && self.head_at(xi + 1, yi + 1) == 0);
            assert(!has_down ==> self.head_at(xi - 1, yi + 1) == 0 && self.head_at(xi, yi + 1) == 0
                && self.head_at(xi + 1, yi + 1) == 0);
        }
        let mut count: usize = 0;
        if has_left && has_up {
            count = count + self.head_flag(x - 1, y - 1);
        }
        if has_up {
            count = count + self.head_flag(x, y - 1);
        }
        if has_right && has_up {
            count = count + self.head_flag(x + 1, y - 1);
        }
        if has_left {
            count = count + self.head_flag(x - 1, y);
        }
        if has_right {
            count = count + self.head_flag(x + 1, y);
        }
        if has_left && has_down {
            count = count + self.head_flag(x - 1, y + 1);
        }
        if has_down {
            count = count + self.head_flag(x, y + 1);
        }
        if has_right && has_down {
            count = count + self.head_flag(x + 1, y + 1);
        }
        count
    }

    /// Advances every cell by one generation. Each new state is computed from
    /// the board as it stood before the call: the new states are collected in
    /// a second buffer, which replaces the old one once the sweep is complete.
    pub fn advance_generation(&mut self)
        ensures
            old(self).steps_to(*final(self)),
    {
        proof {
            use_type_invariant(&*self);
        }
        let w = self.w;
        let h = self.h;
        let mut next: Vec<State> = Vec::with_capacity(w * h);
        let mut y: usize = 0;
        while y < h
            invariant
                self.w == w,
                self.h == h,
                self.data@.len() == w * h,
                w * h <= usize::MAX,
                0 <= y <= h,
                next@.len() == y * w,
                forall|i: int, j: int|
                    0 <= i < w && 0 <= j && #[trigger] (i + j * w) < next@.len() ==> next@[i + j * w]
                        == self.next_cell(i, j),
            decreases h - y,
        {
            let mut x: usize = 0;
            while x < w
                invariant
                    self.w == w,
                    self.h == h,
                    self.data@.len() == w * h,
                    w * h <= usize::MAX,
                    0 <= y < h,
                    0 <= x <= w,
                    next@.len() == x + y * w,
                    forall|i: int, j: int|
                        0 <= i < w && 0 <= j && #[trigger] (i + j * w) < next@.len() ==> next@[i + j * w]
                            == self.next_cell(i, j),
                decreases w - x,
            {
                let s = self.get(x, y).tick(self.neighbors(x, y));
                let ghost before = next@;
                next.push(s);
                assert forall|i: int, j: int|
                    0 <= i < w && 0 <= j && #[trigger] (i + j * w) < next@.len() implies next@[i + j * w]
                        == self.next_cell(i, j) by {
                    if i + j * w == before.len() {
                        lemma_index_unique(i, j, x as int, y as int, w as int);
                    }
                }
                x = x + 1;
            }
            assert(x + y * w == (y + 1) * w) by (nonlinear_arith)
                requires
                    x == w,
            ;
            y = y + 1;
        }
        assert(y * w == w * h) by (nonlinear_arith)
            requires
                y == h,
        ;
        let ghost prev = *self;
        self.data = next;
        assert forall|x: int, y: int| #[trigger] self.cell(x, y) == prev.next_cell(x, y) by {
            if prev.in_bounds(x, y) {
                lemma_index_in_grid(x, y, w as int, h as int);
            }
        }
    }
}

impl Clone for Board {
    fn clone(&self) -> (r: Board)
        ensures
            r.spec_width() == self.spec_width(),
            r.spec_height() == self.spec_height(),
            r.cells() == self.cells(),
    {
        proof {
            use_type_invariant(self);
        }
        let data = self.data.clone();
        assert(data@ =~= self.data@);
        Board { data: data, w: self.w, h: self.h }
    }
}

/// An `Empty` cell stays `Empty`, whatever its neighbours.
pub proof fn lemma_empty_is_absorbing(heads: nat)
    ensures
        next_state(State::Empty, heads) == State::Empty,
{
}

/// A head always becomes a tail, and a tail always becomes a wire.
pub proof fn lemma_head_and_tail_decay(heads: nat)
    ensures
        next_state(State::Head, heads) == State::Tail,
        next_state(State::Tail, heads) == State::Wire,
{
}

/// A wire becomes a head exactly when one or two of its neighbours are heads;
/// with none, or with three to eight, it stays a wire.
pub proof fn lemma_wire_activation(heads: nat)
    requires
        heads <= 8,
    ensures
        heads == 0 ==> next_state(State::Wire, heads) == State::Wire,
        heads == 1 ==> next_state(State::Wire, heads) == State::Head,
        heads == 2 ==> next_state(State::Wire, heads) == State::Head,
        3 <= heads <= 8 ==> next_state(State::Wire, heads) == State::Wire,
{
}

/// Every coordinate left of, above, right of or below the board reads as
/// `Empty`, on a board of any size, the empty one included.
pub proof fn lemma_off_board_is_empty(b: Board, x: int, y: int)
    requires
        x < 0 || y < 0 || x >= b.spec_width() || y >= b.spec_height(),
    ensures
        b.cell(x, y) == State::Empty,
{
}

/// A board whose cells are all `Empty` is left unchanged by a generation.
pub proof fn lemma_empty_board_is_fixed(b: Board, next: Board)
    requires
        forall|x: int, y: int| #[trigger] b.cell(x, y) == State::Empty,
        b.steps_to(next),
    ensures
        next.spec_width() == b.spec_width(),
        next.spec_height() == b.spec_height(),
        forall|x: int, y: int| #[trigger] next.cell(x, y) == b.cell(x, y),
{
    assert forall|x: int, y: int| #[trigger] next.cell(x, y) == b.cell(x, y) by {
        assert(next.cell(x, y) == b.next_cell(x, y));
        assert(b.cell(x, y) == State::Empty);
    }
}

/// Two cells of a row-major grid with the same index are the same cell.
proof fn lemma_index_unique(i: int, j: int, x: int, y: int, w: int)
    requires
        0 <= i < w,
        0 <= x < w,
        0 <= j,
        0 <= y,
        i + j * w == x + y * w,
    ensures
        i == x,
        j == y,
{
    assert((j - y) * w == x - i) by (nonlinear_arith)
        requires
            i + j * w == x + y * w,
    ;
    if j > y {
        assert((j - y) * w >= w) by (nonlinear_arith)
            requires
                j - y >= 1,
                w >= 0,
        ;
    } else if j < y {
        assert((y - j) * w >= w) by (nonlinear_arith)
            requires
                y - j >= 1,
                w >= 0,
        ;
        assert((j - y) * w == -((y - j) * w)) by (nonlinear_arith);
    }
}

/// Row-major addressing stays inside a grid of `w * h` cells, and distinct
/// cells get distinct indices.
proof fn lemma_index_in_grid(x: int, y: int, w: int, h: int)
    requires
        0 <= x < w,
        0 <= y < h,
    ensures
        0 <= x + y * w < w * h,
        y * w + w <= w * h,
{
    assert(y * w + w <= w * h) by (nonlinear_arith)
        requires
            0 <= y < h,
            0 <= w,
    ;
    assert(0 <= y * w) by (nonlinear_arith)
        requires
            0 <= y,
            0 <= w,
    ;
}

} // verus!
