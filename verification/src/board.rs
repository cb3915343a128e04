//! The grid model: cells, bounds-checked access, neighbor counting, and
//! the batched generation transition.

use vstd::prelude::*;

verus! {

/// One grid position together with its alive/dead state. The coordinates
/// are fixed when the cell is placed in a board; `alive` is the only
/// state that the simulation changes.
#[derive(Debug, Clone, Copy, PartialEq, Eq, Structural)]
pub struct Cell {
    pub alive: bool,
    pub x_coord: usize,
    pub y_coord: usize,
}

impl Cell {
    /// Toggles the alive flag and leaves the coordinates untouched.
    pub fn flip(&mut self)
        ensures
            final(self).alive == !old(self).alive,
            final(self).x_coord == old(self).x_coord,
            final(self).y_coord == old(self).y_coord,
    {
        self.alive = !self.alive;
    }
}

/// The one failure the grid reports: a mutating accessor was handed a
/// coordinate pair that names no cell, or a board was requested with a
/// zero dimension.
#[derive(Debug, Clone, Copy, PartialEq, Eq, Structural)]
pub enum BoardError {
    InvalidCoordinate,
    InvalidDimensions,
}

/// `1` when the flag is set, `0` otherwise; the contribution of one
/// neighbor to a live-neighbor count.
pub open spec fn one_if(b: bool) -> int {
    if b {
        1
    } else {
        0
    }
}

/// Lexicographic order on coordinate pairs: the order in which a
/// column-by-column scan of the grid visits them.
pub open spec fn lex_lt(a: (usize, usize), b: (usize, usize)) -> bool {
    a.0 < b.0 || (a.0 == b.0 && a.1 < b.1)
}

/// The sequence is strictly increasing in `lex_lt`; in particular no
/// coordinate pair occurs twice.
pub open spec fn strictly_ordered(s: Seq<(usize, usize)>) -> bool {
    forall|i: int, j: int| 0 <= i < j < s.len() ==> lex_lt(#[trigger] s[i], #[trigger] s[j])
}

/// The coordinate pair `(x, y)` occurs somewhere in `s`.
pub open spec fn seq_has(s: Seq<(usize, usize)>, x: int, y: int) -> bool {
    exists|k: int| 0 <= k < s.len() && (#[trigger] s[k]).0 == x && s[k].1 == y
}

/// What `Board::get_cells_to_flip` returns for board `b`: a strictly
/// ordered sequence holding exactly the coordinates whose cell changes
/// state in the next generation. Only one sequence satisfies this for a
/// given board (`crate::laws::lemma_flip_set_unique`).
pub open spec fn flip_seq_post(b: Board, s: Seq<(usize, usize)>) -> bool {
    &&& strictly_ordered(s)
    &&& forall|k: int|
            0 <= k < s.len() ==> b.should_flip((#[trigger] s[k]).0 as int, s[k].1 as int)
    &&& forall|x: int, y: int| #[trigger] b.should_flip(x, y) ==> seq_has(s, x, y)
}

/// Whether a column-by-column scan that has finished the first `i`
/// columns and the first `j` cells of column `i + 1` has already visited
/// `(x, y)`.
pub open spec fn scan_visited(i: int, j: int, x: int, y: int) -> bool {
    x <= i || (x == i + 1 && y <= j)
}

/// How one application of `Board::flip` at `(x, y)` relates the board
/// after the call (`post`) to the board before it (`pre`): the state at
/// `(x, y)` is toggled and everything else is untouched.
pub open spec fn flip_step(pre: Board, post: Board, x: int, y: int) -> bool {
    &&& post.wf()
    &&& post.width == pre.width
    &&& post.height == pre.height
    &&& post.alive_at(x, y) == !pre.alive_at(x, y)
    &&& forall|a: int, b: int|
            !(a == x && b == y) ==> #[trigger] post.alive_at(a, b) == pre.alive_at(a, b)
}

/// A fixed-size rectangular grid of cells. Cell `(x, y)` with
/// `1 <= x <= width` and `1 <= y <= height` is stored at
/// `cells[x - 1][y - 1]`; every other coordinate is off the grid.
pub struct Board {
    pub width: usize,
    pub height: usize,
    pub cells: Vec<Vec<Cell>>,
}

impl Board {
    /// Well-formedness: the storage matches the stated dimensions and
    /// every cell records the coordinate it is stored under.
    pub open spec fn wf(self) -> bool {
        &&& 1 <= self.width
        &&& 1 <= self.height
        &&& self.cells@.len() == self.width
        &&& forall|i: int| 0 <= i < self.width ==> (#[trigger] self.cells@[i])@.len() == self.height
        &&& forall|i: int, j: int|
                0 <= i < self.width && 0 <= j < self.height
                    ==> (#[trigger] self.cells@[i]@[j]).x_coord == i + 1
                        && self.cells@[i]@[j].y_coord == j + 1
    }

    /// Whether `(x, y)` names a cell of this board.
    pub open spec fn in_bounds(self, x: int, y: int) -> bool {
        1 <= x <= self.width && 1 <= y <= self.height
    }

    /// The alive state at `(x, y)`; off-grid coordinates read as dead.
    pub open spec fn alive_at(self, x: int, y: int) -> bool {
        self.in_bounds(x, y) && self.cells@[x - 1]@[y - 1].alive
    }

    /// How many of the eight Moore neighbors of `(x, y)` are alive.
    /// Off-grid neighbors read as dead, so the count is defined for every
    /// coordinate, boundary cells included.
    pub open spec fn live_neighbors(self, x: int, y: int) -> int {
        one_if(self.alive_at(x - 1, y - 1)) + one_if(self.alive_at(x - 1, y))
            + one_if(self.alive_at(x - 1, y + 1)) + one_if(self.alive_at(x, y - 1))
            + one_if(self.alive_at(x, y + 1)) + one_if(self.alive_at(x + 1, y - 1))
            + one_if(self.alive_at(x + 1, y)) + one_if(self.alive_at(x + 1, y + 1))
    }

    /// The alive state of `(x, y)` in the next generation, under the
    /// standard birth-on-3, survive-on-2-or-3 rule. Off-grid coordinates
    /// stay dead.
    pub open spec fn next_alive(self, x: int, y: int) -> bool {
        &&& self.in_bounds(x, y)
        &&& if self.alive_at(x, y) {
                self.live_neighbors(x, y) == 2 || self.live_neighbors(x, y) == 3
            } else {
                self.live_neighbors(x, y) == 3
            }
    }

    /// Whether the cell at `(x, y)` changes state between this generation
    /// and the next.
    pub open spec fn should_flip(self, x: int, y: int) -> bool {
        self.in_bounds(x, y) && self.alive_at(x, y) != self.next_alive(x, y)
    }

    /// Constructs a `width x height` board with every cell dead.
    /// Rejects a zero dimension.
    pub fn new(width: usize, height: usize) -> (r: Result<Board, BoardError>)
        ensures
            r is Ok <==> width >= 1 && height >= 1,
            match r {
                Ok(b) => {
                    &&& b.wf()
                    &&& b.width == width
                    &&& b.height == height
                    &&& forall|x: int, y: int| !b.alive_at(x, y)
                },
                Err(e) => e == BoardError::InvalidDimensions,
            },
    {
        if width == 0 || height == 0 {
            return Err(BoardError::InvalidDimensions);
        }
        let mut cells: Vec<Vec<Cell>> = Vec::new();
        let mut i: usize = 0;
        while i < width
            invariant
                i <= width,
                cells@.len() == i,
                forall|a: int| 0 <= a < i ==> (#[trigger] cells@[a])@.len() == height,
                forall|a: int, b: int|
                    0 <= a < i && 0 <= b < height
                        ==> (#[trigger] cells@[a]@[b]) == (Cell {
                            alive: false,
                            x_coord: (a + 1) as usize,
                            y_coord: (b + 1) as usize,
                        }),
            decreases width - i,
        {
            let mut column: Vec<Cell> = Vec::new();
            let mut j: usize = 0;
            while j < height
                invariant
                    j <= height,
                    i < width,
                    column@.len() == j,
                    forall|b: int|
                        0 <= b < j
                            ==> (#[trigger] column@[b]) == (Cell {
                                alive: false,
                                x_coord: (i + 1) as usize,
                                y_coord: (b + 1) as usize,
                            }),
                decreases height - j,
            {
                column.push(Cell { alive: false, x_coord: i + 1, y_coord: j + 1 });
                j = j + 1;
            }
            cells.push(column);
            i = i + 1;
        }
        Ok(Board { width, height, cells })
    }

    /// Returns a copy of the cell at `(x, y)`, or `None` when the
    /// coordinate is off the grid. An off-grid read is not an error: it
    /// is how the hard boundary is modelled.
    pub fn get_cell(&self, coords: (usize, usize)) -> (r: Option<Cell>)
        requires
            self.wf(),
        ensures
            r is Some <==> self.in_bounds(coords.0 as int, coords.1 as int),
            match r {
                Some(c) => c == (Cell {
                    alive: self.alive_at(coords.0 as int, coords.1 as int),
                    x_coord: coords.0,
                    y_coord: coords.1,
                }),
                None => true,
            },
    {
        let (x, y) = coords;
        if x == 0 || y == 0 || x > self.width || y > self.height {
            return None;
        }
        Some(self.cells[x - 1][y - 1])
    }

    /// Returns a mutable borrow of the cell at `(x, y)`, or `None` when
    /// the coordinate is off the grid, in which case the board is left
    /// untouched.
    pub fn get_cell_mut(&mut self, coords: (usize, usize)) -> (r: Option<&mut Cell>)
        requires
            old(self).wf(),
        ensures
            r is Some <==> old(self).in_bounds(coords.0 as int, coords.1 as int),
            match r {
                Some(c) => {
                    &&& *c == (Cell {
                        alive: old(self).alive_at(coords.0 as int, coords.1 as int),
                        x_coord: coords.0,
                        y_coord: coords.1,
                    })
                    &&& final(self).width == old(self).width
                    &&& final(self).height == old(self).height
                    &&& final(self).cells@.len() == old(self).cells@.len()
                    &&& forall|i: int|
                            0 <= i < old(self).cells@.len() && i != coords.0 - 1
                                ==> (#[trigger] final(self).cells@[i]) == old(self).cells@[i]
                    &&& final(self).cells@[coords.0 - 1]@.len()
                        == old(self).cells@[coords.0 - 1]@.len()
                    &&& forall|j: int|
                            0 <= j < old(self).cells@[coords.0 - 1]@.len() && j != coords.1 - 1
                                ==> (#[trigger] final(self).cells@[coords.0 - 1]@[j])
                                    == old(self).cells@[coords.0 - 1]@[j]
                    &&& final(self).cells@[coords.0 - 1]@[coords.1 - 1] == *final(c)
                },
                None => *final(self) == *old(self),
            },
    {
        let (x, y) = coords;
        if x == 0 || y == 0 || x > self.width || y > self.height {
            return None;
        }
        let column: &mut Vec<Cell> = &mut self.cells[x - 1];
        Some(&mut column[y - 1])
    }

    /// Sets the alive flag of the cell at `(x, y)`, with no other side
    /// effect. An off-grid coordinate is reported as an error and leaves
    /// the board untouched.
    pub fn set_alive(&mut self, coords: (usize, usize), value: bool) -> (r: Result<
        (),
        BoardError,
    >)
        requires
            old(self).wf(),
        ensures
            r is Ok <==> old(self).in_bounds(coords.0 as int, coords.1 as int),
            match r {
                Ok(u) => {
                    &&& final(self).wf()
                    &&& final(self).width == old(self).width
                    &&& final(self).height == old(self).height
                    &&& final(self).alive_at(coords.0 as int, coords.1 as int) == value
                    &&& forall|a: int, b: int|
                            !(a == coords.0 && b == coords.1)
                                ==> #[trigger] final(self).alive_at(a, b) == old(self).alive_at(
                                    a,
                                    b,
                                )
                },
                Err(e) => e == BoardError::InvalidCoordinate && *final(self) == *old(self),
            },
    {
        match self.get_cell_mut(coords) {
            Some(cell) => {
                cell.alive = value;
                Ok(())
            },
            None => Err(BoardError::InvalidCoordinate),
        }
    }

    /// Toggles the alive flag of the cell at `(x, y)`. An off-grid
    /// coordinate is reported as an error and leaves the board untouched.
    pub fn flip(&mut self, coords: (usize, usize)) -> (r: Result<(), BoardError>)
        requires
            old(self).wf(),
        ensures
            r is Ok <==> old(self).in_bounds(coords.0 as int, coords.1 as int),
            match r {
                Ok(u) => flip_step(*old(self), *final(self), coords.0 as int, coords.1 as int),
                Err(e) => e == BoardError::InvalidCoordinate && *final(self) == *old(self),
            },
    {
        match self.get_cell_mut(coords) {
            Some(cell) => {
                cell.flip();
                Ok(())
            },
            None => Err(BoardError::InvalidCoordinate),
        }
    }

    /// The alive state at `(x, y)` as an executable read; off-grid
    /// coordinates read as dead.
    fn probe(&self, x: usize, y: usize) -> (r: bool)
        requires
            self.wf(),
        ensures
            r == self.alive_at(x as int, y as int),
    {
        if x >= 1 && y >= 1 && x <= self.width && y <= self.height {
            self.cells[x - 1][y - 1].alive
        } else {
            false
        }
    }

    /// Counts the live cells among the eight neighbors of `(x, y)`,
    /// treating off-grid positions as dead. Defined, and free of
    /// arithmetic faults, for every coordinate pair: corners and edge
    /// cells simply see fewer in-grid neighbors.
    pub fn count_adjacent_alive(&self, coords: (usize, usize)) -> (r: u32)
        requires
            self.wf(),
        ensures
            r == self.live_neighbors(coords.0 as int, coords.1 as int),
            r <= 8,
    {
        let (x, y) = coords;
        let mut count: u32 = 0;
        if x >= 1 && y >= 1 && self.probe(x - 1, y - 1) {
            count = count + 1;
        }
        if x >= 1 && self.probe(x - 1, y) {
            count = count + 1;
        }
        if x >= 1 && y < usize::MAX && self.probe(x - 1, y + 1) {
            count = count + 1;
        }
        if y >= 1 && self.probe(x, y - 1) {
            count = count + 1;
        }
        if y < usize::MAX && self.probe(x, y + 1) {
            count = count + 1;
        }
        if x < usize::MAX && y >= 1 && self.probe(x + 1, y - 1) {
            count = count + 1;
        }
        if x < usize::MAX && self.probe(x + 1, y) {
            count = count + 1;
        }
        if x < usize::MAX && y < usize::MAX && self.probe(x + 1, y + 1) {
            count = count + 1;
        }
        count
    }

    /// Scans every cell of the current generation, against a read-only
    /// view of the board, and returns the coordinates of exactly those
    /// cells that must change state to reach the next generation. The
    /// result is strictly ordered by `lex_lt` and is a pure function of
    /// the board's contents.
    pub fn get_cells_to_flip(&self) -> (r: Vec<(usize, usize)>)
        requires
            self.wf(),
        ensures
            flip_seq_post(*self, r@),
    {
        let mut result: Vec<(usize, usize)> = Vec::new();
        let mut i: usize = 0;
        while i < self.width
            invariant
                self.wf(),
                i <= self.width,
                strictly_ordered(result@),
                forall|k: int|
                    0 <= k < result@.len()
                        ==> self.should_flip((#[trigger] result@[k]).0 as int, result@[k].1 as int)
                            && scan_visited(i as int, 0, result@[k].0 as int, result@[k].1 as int),
                forall|x: int, y: int|
                    #[trigger] self.should_flip(x, y) && scan_visited(i as int, 0, x, y)
                        ==> seq_has(result@, x, y),
            decreases self.width - i,
        {
            let mut j: usize = 0;
            while j < self.height
                invariant
                    self.wf(),
                    i < self.width,
                    j <= self.height,
                    strictly_ordered(result@),
                    forall|k: int|
                        0 <= k < result@.len()
                            ==> self.should_flip(
                                (#[trigger] result@[k]).0 as int,
                                result@[k].1 as int,
                            ) && scan_visited(
                                i as int,
                                j as int,
                                result@[k].0 as int,
                                result@[k].1 as int,
                            ),
                    forall|x: int, y: int|
                        #[trigger] self.should_flip(x, y) && scan_visited(i as int, j as int, x, y)
                            ==> seq_has(result@, x, y),
                decreases self.height - j,
            {
                let x = i + 1;
                let y = j + 1;
                let n = self.count_adjacent_alive((x, y));
                let alive = self.probe(x, y);
                let flips = if alive {
                    n != 2 && n != 3
                } else {
                    n == 3
                };
                if flips {
                    let ghost before = result@;
                    result.push((x, y));
                    proof {
                        assert forall|a: int, b: int|
                            0 <= a < b < result@.len() implies lex_lt(result@[a], result@[b]) by {
                            if b < before.len() {
                            } else {
                                assert(result@[b] == (x, y));
                            }
                        }
                        assert forall|c: int, d: int|
                            self.should_flip(c, d) && scan_visited(
                                i as int,
                                j as int + 1,
                                c,
                                d,
                            ) implies seq_has(result@, c, d) by {
                            if scan_visited(i as int, j as int, c, d) {
                                let k = choose|k: int|
                                    0 <= k < before.len() && (#[trigger] before[k]).0 == c
                                        && before[k].1 == d;
                                assert(result@[k].0 == c && result@[k].1 == d);
                            } else {
                                assert(c == x && d == y);
                                assert((#[trigger] result@[before.len() as int]).0 == c);
                            }
                        }
                    }
                } else {
                    proof {
                        assert forall|c: int, d: int|
                            self.should_flip(c, d) && scan_visited(
                                i as int,
                                j as int + 1,
                                c,
                                d,
                            ) implies seq_has(result@, c, d) by {
                            if !scan_visited(i as int, j as int, c, d) {
                                assert(c == x && d == y);
                                assert(self.alive_at(c, d) == alive);
                                assert(self.live_neighbors(c, d) == n);
                            }
                        }
                    }
                }
                j = j + 1;
            }
            i = i + 1;
        }
        result
    }

    /// A read-only row-major traversal for rendering: one inner vector
    /// per row `y`, holding `(x, y, alive)` for `x` from `1` to `width`.
    /// Purely observational; the result is never fed back into the model.
    pub fn rows(&self) -> (r: Vec<Vec<(usize, usize, bool)>>)
        requires
            self.wf(),
        ensures
            r@.len() == self.height,
            forall|j: int| 0 <= j < self.height ==> (#[trigger] r@[j])@.len() == self.width,
            forall|i: int, j: int|
                0 <= i < self.width && 0 <= j < self.height
                    ==> (#[trigger] r@[j]@[i]) == (((i + 1) as usize, (j + 1) as usize, self
                        .alive_at(i + 1, j + 1))),
    {
        let mut rows: Vec<Vec<(usize, usize, bool)>> = Vec::new();
        let mut j: usize = 0;
        while j < self.height
            invariant
                self.wf(),
                j <= self.height,
                rows@.len() == j,
                forall|b: int| 0 <= b < j ==> (#[trigger] rows@[b])@.len() == self.width,
                forall|a: int, b: int|
                    0 <= a < self.width && 0 <= b < j
                        ==> (#[trigger] rows@[b]@[a]) == (((a + 1) as usize, (b + 1) as usize, self
                            .alive_at(a + 1, b + 1))),
            decreases self.height - j,
        {
            let mut row: Vec<(usize, usize, bool)> = Vec::new();
            let mut i: usize = 0;
            while i < self.width
                invariant
                    self.wf(),
                    j < self.height,
                    i <= self.width,
                    row@.len() == i,
                    forall|a: int|
                        0 <= a < i
                            ==> (#[trigger] row@[a]) == (((a + 1) as usize, (j + 1) as usize, self
                                .alive_at(a + 1, j as int + 1))),
                decreases self.width - i,
            {
                let alive = self.probe(i + 1, j + 1);
                row.push((i + 1, j + 1, alive));
                i = i + 1;
            }
            rows.push(row);
            j = j + 1;
        }
        rows
    }

    /// Advances the board one generation: materializes the flip set from
    /// a read-only snapshot of the current generation, then applies every
    /// flip as one batch. Afterwards each cell holds its state for the
    /// next generation of the board as it stood before the call.
    pub fn tick(&mut self)
        requires
            old(self).wf(),
        ensures
            final(self).wf(),
            final(self).width == old(self).width,
            final(self).height == old(self).height,
            forall|x: int, y: int|
                #[trigger] final(self).alive_at(x, y) == old(self).next_alive(x, y),
    {
        let to_flip = self.get_cells_to_flip();
        let mut k: usize = 0;
        while k < to_flip.len()
            invariant
                self.wf(),
                self.width == old(self).width,
                self.height == old(self).height,
                k <= to_flip.len(),
                flip_seq_post(*old(self), to_flip@),
                forall|x: int, y: int|
                    #[trigger] self.alive_at(x, y) == (old(self).alive_at(x, y) != seq_has(
                        to_flip@.subrange(0, k as int),
                        x,
                        y,
                    )),
            decreases to_flip.len() - k,
        {
            let ghost pre = *self;
            let coords = to_flip[k];
            let res = self.flip(coords);
            proof {
                assert(old(self).should_flip(coords.0 as int, coords.1 as int));
                assert(res is Ok);
                assert(!seq_has(to_flip@.subrange(0, k as int), coords.0 as int, coords.1 as int))
                    by {
                    if seq_has(to_flip@.subrange(0, k as int), coords.0 as int, coords.1 as int) {
                        let m = choose|m: int|
                            0 <= m < k && (#[trigger] to_flip@.subrange(0, k as int)[m]).0
                                == coords.0 && to_flip@.subrange(0, k as int)[m].1 == coords.1;
                        assert(lex_lt(to_flip@[m], to_flip@[k as int]));
                    }
                }
                assert forall|x: int, y: int|
                    #[trigger] self.alive_at(x, y) == (old(self).alive_at(x, y) != seq_has(
                        to_flip@.subrange(0, k + 1),
                        x,
                        y,
                    )) by {
                    let short = to_flip@.subrange(0, k as int);
                    let long = to_flip@.subrange(0, k + 1);
                    if x == coords.0 && y == coords.1 {
                        assert((#[trigger] long[k as int]).0 == x && long[k as int].1 == y);
                        assert(self.alive_at(x, y) == !pre.alive_at(x, y));
                    } else {
                        assert(self.alive_at(x, y) == pre.alive_at(x, y));
                        assert(seq_has(long, x, y) == seq_has(short, x, y)) by {
                            if seq_has(long, x, y) {
                                let m = choose|m: int|
                                    0 <= m < long.len() && (#[trigger] long[m]).0 == x && long[m].1
                                        == y;
                                assert(m < k);
                                assert((#[trigger] short[m]).0 == x && short[m].1 == y);
                            }
                            if seq_has(short, x, y) {
                                let m = choose|m: int|
                                    0 <= m < short.len() && (#[trigger] short[m]).0 == x
                                        && short[m].1 == y;
                                assert((#[trigger] long[m]).0 == x && long[m].1 == y);
                            }
                        }
                    }
                }
            }
            k = k + 1;
        }
        proof {
            assert(to_flip@.subrange(0, to_flip@.len() as int) =~= to_flip@);
            assert forall|x: int, y: int|
                #[trigger] self.alive_at(x, y) == old(self).next_alive(x, y) by {
                assert(seq_has(to_flip@, x, y) == old(self).should_flip(x, y)) by {
                    if seq_has(to_flip@, x, y) {
                        let m = choose|m: int|
                            0 <= m < to_flip@.len() && (#[trigger] to_flip@[m]).0 == x
                                && to_flip@[m].1 == y;
                        assert(old(self).should_flip(
                            (#[trigger] to_flip@[m]).0 as int,
                            to_flip@[m].1 as int,
                        ));
                    }
                }
            }
        }
    }
}

} // verus!
