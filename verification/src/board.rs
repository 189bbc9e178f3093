//! The automaton engine: a rectangular grid of cells, birth/survival rule
//! evaluation, neighbor counting, and the reactive growth policy.

use vstd::prelude::*;

verus! {

use vstd::std_specs::cmp::PartialEqSpec;

/// Relies on String::push: it appends exactly the given character to the
/// end of the string.
pub assume_specification[ String::push ](s: &mut String, ch: char)
    ensures
        final(s)@ == old(s)@.push(ch),
;

/// The four thresholds that govern a generation step. A dead cell is born
/// when its live-neighbor count lies in `[min_to_born, max_to_born]`; a live
/// cell survives when its count lies in `[min_to_stay_alive,
/// max_to_stay_alive]`. An inverted range (min > max) simply never fires.
#[derive(Clone, Copy, PartialEq, Eq, Structural, Debug)]
pub struct Rules {
    pub min_to_born: u32,
    pub max_to_born: u32,
    pub min_to_stay_alive: u32,
    pub max_to_stay_alive: u32,
}

pub const DEFAULT_MIN_TO_BORN: u32 = 3;
pub const DEFAULT_MAX_TO_BORN: u32 = 3;
pub const DEFAULT_MIN_TO_STAY_ALIVE: u32 = 2;
pub const DEFAULT_MAX_TO_STAY_ALIVE: u32 = 3;

/// Errors the engine reports to its callers.
#[derive(Clone, Copy, PartialEq, Eq, Structural, Debug)]
pub enum BoardError {
    /// A requested board dimension was below 2.
    InvalidSize,
    /// A cell index lay outside the current grid.
    OutOfBounds,
}

/// A grid is rectangular, and both dimensions are at least 2.
pub open spec fn grid_wf(g: Seq<Seq<bool>>) -> bool {
    &&& g.len() >= 2
    &&& g[0].len() >= 2
    &&& forall|r: int| 0 <= r < g.len() ==> #[trigger] g[r].len() == g[0].len()
}

/// Whether position (r, c) is inside the grid and holds a live cell.
/// Positions outside the grid count as dead (no wraparound).
pub open spec fn alive(g: Seq<Seq<bool>>, r: int, c: int) -> bool {
    &&& 0 <= r < g.len()
    &&& 0 <= c < g[r].len()
    &&& g[r][c]
}

pub open spec fn one_if(b: bool) -> nat {
    if b {
        1
    } else {
        0
    }
}

/// Number of live cells among the up-to-8 neighbors of (r, c).
pub open spec fn neighbor_count(g: Seq<Seq<bool>>, r: int, c: int) -> nat {
    one_if(alive(g, r - 1, c - 1)) + one_if(alive(g, r - 1, c)) + one_if(alive(g, r - 1, c + 1))
        + one_if(alive(g, r, c - 1)) + one_if(alive(g, r, c + 1)) + one_if(
        alive(g, r + 1, c - 1),
    ) + one_if(alive(g, r + 1, c)) + one_if(alive(g, r + 1, c + 1))
}

pub open spec fn is_born(rules: Rules, n: nat) -> bool {
    rules.min_to_born <= n && n <= rules.max_to_born
}

pub open spec fn survives(rules: Rules, n: nat) -> bool {
    rules.min_to_stay_alive <= n && n <= rules.max_to_stay_alive
}

/// The state of cell (r, c) in the next generation, judged entirely against
/// the current grid.
pub open spec fn cell_next(rules: Rules, g: Seq<Seq<bool>>, r: int, c: int) -> bool {
    if g[r][c] {
        survives(rules, neighbor_count(g, r, c))
    } else {
        is_born(rules, neighbor_count(g, r, c))
    }
}

/// One whole generation step, before any growth.
pub open spec fn step(rules: Rules, g: Seq<Seq<bool>>) -> Seq<Seq<bool>> {
    Seq::new(g.len(), |r: int| Seq::new(g[r].len(), |c: int| cell_next(rules, g, r, c)))
}

/// The automaton engine. Owns the grid, the rule thresholds and the optional
/// per-axis growth bounds.
pub struct Board {
    cells: Vec<Vec<bool>>,
    max_width: Option<usize>,
    max_height: Option<usize>,
    rules: Rules,
}

impl Board {
    /// The grid as a sequence of rows of cell states.
    pub closed spec fn grid(&self) -> Seq<Seq<bool>> {
        Seq::new(self.cells@.len(), |r: int| self.cells@[r]@)
    }

    pub closed spec fn rule_set(&self) -> Rules {
        self.rules
    }

    pub closed spec fn width_bound(&self) -> Option<usize> {
        self.max_width
    }

    pub closed spec fn height_bound(&self) -> Option<usize> {
        self.max_height
    }

    pub open spec fn wf(&self) -> bool {
        grid_wf(self.grid())
    }

    /// Builds an all-dead grid of the given dimensions with the default
    /// (Conway) thresholds and no growth bounds; dimensions below 2 are
    /// rejected.
    #[verifier::loop_isolation(false)]
    pub fn new(width: usize, height: usize) -> (r: Result<Board, BoardError>)
        ensures
            width >= 2 && height >= 2 ==> (r matches Ok(b) && b.wf() && b.grid().len() == height
                && b.grid()[0].len() == width && (forall|i: int, j: int|
                0 <= i < height && 0 <= j < width ==> !(#[trigger] b.grid()[i][j]))
                && b.rule_set() == default_rules() && b.width_bound() is None
                && b.height_bound() is None),
            width < 2 || height < 2 ==> (r matches Err(e) && e == BoardError::InvalidSize),
    {
        if width < 2 || height < 2 {
            return Err(BoardError::InvalidSize);
        }
        let mut cells: Vec<Vec<bool>> = Vec::new();
        for i in 0..height
            invariant
                cells@.len() == i,
                forall|r: int| 0 <= r < i ==> (#[trigger] cells@[r])@.len() == width,
                forall|r: int, c: int|
                    0 <= r < i && 0 <= c < width ==> !(#[trigger] cells@[r]@[c]),
        {
            let mut row: Vec<bool> = Vec::new();
            for j in 0..width
                invariant
                    row@.len() == j,
                    forall|c: int| 0 <= c < j ==> !(#[trigger] row@[c]),
            {
                row.push(false);
            }
            cells.push(row);
        }
        let b = Board {
            cells,
            max_width: None,
            max_height: None,
            rules: Rules {
                min_to_born: DEFAULT_MIN_TO_BORN,
                max_to_born: DEFAULT_MAX_TO_BORN,
                min_to_stay_alive: DEFAULT_MIN_TO_STAY_ALIVE,
                max_to_stay_alive: DEFAULT_MAX_TO_STAY_ALIVE,
            },
        };
        Ok(b)
    }

    pub fn with_min_to_born(self, min_to_born: u32) -> (r: Board)
        ensures
            r.grid() == self.grid(),
            r.width_bound() == self.width_bound(),
            r.height_bound() == self.height_bound(),
            r.rule_set() == (Rules { min_to_born, ..self.rule_set() }),
    {
        Board { rules: Rules { min_to_born, ..self.rules }, ..self }
    }

    pub fn with_max_to_born(self, max_to_born: u32) -> (r: Board)
        ensures
            r.grid() == self.grid(),
            r.width_bound() == self.width_bound(),
            r.height_bound() == self.height_bound(),
            r.rule_set() == (Rules { max_to_born, ..self.rule_set() }),
    {
        Board { rules: Rules { max_to_born, ..self.rules }, ..self }
    }

    pub fn with_min_to_stay_alive(self, min_to_stay_alive: u32) -> (r: Board)
        ensures
            r.grid() == self.grid(),
            r.width_bound() == self.width_bound(),
            r.height_bound() == self.height_bound(),
            r.rule_set() == (Rules { min_to_stay_alive, ..self.rule_set() }),
    {
        Board { rules: Rules { min_to_stay_alive, ..self.rules }, ..self }
    }

    pub fn with_max_to_stay_alive(self, max_to_stay_alive: u32) -> (r: Board)
        ensures
            r.grid() == self.grid(),
            r.width_bound() == self.width_bound(),
            r.height_bound() == self.height_bound(),
            r.rule_set() == (Rules { max_to_stay_alive, ..self.rule_set() }),
    {
        Board { rules: Rules { max_to_stay_alive, ..self.rules }, ..self }
    }

    /// Bounds both axes at once.
    pub fn with_max_size(self, max_size: usize) -> (r: Board)
        ensures
            r.grid() == self.grid(),
            r.rule_set() == self.rule_set(),
            r.width_bound() == Some(max_size),
            r.height_bound() == Some(max_size),
    {
        Board { max_width: Some(max_size), max_height: Some(max_size), ..self }
    }

    pub fn with_max_width(self, max_width: usize) -> (r: Board)
        ensures
            r.grid() == self.grid(),
            r.rule_set() == self.rule_set(),
            r.width_bound() == Some(max_width),
            r.height_bound() == self.height_bound(),
    {
        Board { max_width: Some(max_width), ..self }
    }

    pub fn with_max_height(self, max_height: usize) -> (r: Board)
        ensures
            r.grid() == self.grid(),
            r.rule_set() == self.rule_set(),
            r.width_bound() == self.width_bound(),
            r.height_bound() == Some(max_height),
    {
        Board { max_height: Some(max_height), ..self }
    }

    pub fn height(&self) -> (r: usize)
        ensures
            r == self.grid().len(),
    {
        self.cells.len()
    }

    pub fn width(&self) -> (r: usize)
        requires
            self.wf(),
        ensures
            r == self.grid()[0].len(),
    {
        self.cells[0].len()
    }

    /// Reads one cell; out-of-bounds indices yield `None`.
    pub fn cell(&self, row: usize, col: usize) -> (r: Option<bool>)
        requires
            self.wf(),
        ensures
            row < self.grid().len() && col < self.grid()[0].len() ==> r == Some(
                self.grid()[row as int][col as int],
            ),
            row >= self.grid().len() || col >= self.grid()[0].len() ==> r is None,
    {
        if row < self.cells.len() && col < self.cells[0].len() {
            proof {
                assert(self.grid()[row as int].len() == self.grid()[0].len());
            }
            Some(self.cells[row][col])
        } else {
            None
        }
    }

    /// Overwrites one cell; fails with an out-of-bounds error when the index
    /// lies outside the current grid, leaving the grid unchanged.
    pub fn set_cell(&mut self, row: usize, col: usize, value: bool) -> (r: Result<
        (),
        BoardError,
    >)
        requires
            old(self).wf(),
        ensures
            final(self).wf(),
            final(self).rule_set() == old(self).rule_set(),
            final(self).width_bound() == old(self).width_bound(),
            final(self).height_bound() == old(self).height_bound(),
            row < old(self).grid().len() && col < old(self).grid()[0].len() ==> (r matches Ok(())
                && final(self).grid() == old(self).grid().update(
                row as int,
                old(self).grid()[row as int].update(col as int, value),
            )),
            row >= old(self).grid().len() || col >= old(self).grid()[0].len() ==> (r matches Err(
                e,
            ) && e == BoardError::OutOfBounds && final(self).grid() == old(self).grid()),
    {
        if row < self.cells.len() && col < self.cells[0].len() {
            proof {
                assert(old(self).grid()[row as int].len() == old(self).grid()[0].len());
            }
            self.cells[row][col] = value;
            proof {
                assert(self.grid() =~~= old(self).grid().update(
                    row as int,
                    old(self).grid()[row as int].update(col as int, value),
                ));
            }
            Ok(())
        } else {
            Err(BoardError::OutOfBounds)
        }
    }
}

impl Board {
    /// Counts the live cells among the up-to-8 neighbors of (row, col);
    /// positions beyond any edge count as dead.
    fn calc_neighbours(&self, row: usize, col: usize) -> (n: u32)
        requires
            self.wf(),
            row < self.grid().len(),
            col < self.grid()[0].len(),
        ensures
            n == neighbor_count(self.grid(), row as int, col as int),
            n <= 8,
    {
        let h = self.cells.len();
        let w = self.cells[0].len();
        proof {
            assert(self.grid()[row as int].len() == self.grid()[0].len());
            if row > 0 {
                assert(self.grid()[row as int - 1].len() == self.grid()[0].len());
            }
            if row + 1 < h {
                assert(self.grid()[row as int + 1].len() == self.grid()[0].len());
            }
        }
        let mut count: u32 = 0;
        if row > 0 {
            if col > 0 && self.cells[row - 1][col - 1] {
                count = count + 1;
            }
            if self.cells[row - 1][col] {
                count = count + 1;
            }
            if col + 1 < w && self.cells[row - 1][col + 1] {
                count = count + 1;
            }
        }
        if col > 0 && self.cells[row][col - 1] {
            count = count + 1;
        }
        if col + 1 < w && self.cells[row][col + 1] {
            count = count + 1;
        }
        if row + 1 < h {
            if col > 0 && self.cells[row + 1][col - 1] {
                count = count + 1;
            }
            if self.cells[row + 1][col] {
                count = count + 1;
            }
            if col + 1 < w && self.cells[row + 1][col + 1] {
                count = count + 1;
            }
        }
        count
    }

    /// Whether any cell in row `row` is alive.
    #[verifier::loop_isolation(false)]
    fn row_has_alive(&self, row: usize) -> (r: bool)
        requires
            self.wf(),
            row < self.grid().len(),
        ensures
            r == row_alive(self.grid(), row as int),
    {
        let w = self.cells[row].len();
        for j in 0..w
            invariant
                self.wf(),
                row < self.grid().len(),
                w == self.grid()[row as int].len(),
                forall|c: int| 0 <= c < j ==> !(#[trigger] self.grid()[row as int][c]),
        {
            if self.cells[row][j] {
                return true;
            }
        }
        false
    }

    /// Whether any cell in column `col` is alive.
    #[verifier::loop_isolation(false)]
    fn col_has_alive(&self, col: usize) -> (r: bool)
        requires
            self.wf(),
            col < self.grid()[0].len(),
        ensures
            r == col_alive(self.grid(), col as int),
    {
        let h = self.cells.len();
        for i in 0..h
            invariant
                self.wf(),
                col < self.grid()[0].len(),
                h == self.grid().len(),
                forall|r: int| 0 <= r < i ==> !(#[trigger] self.grid()[r][col as int]),
        {
            proof {
                assert(self.grid()[i as int].len() == self.grid()[0].len());
            }
            if self.cells[i][col] {
                return true;
            }
        }
        false
    }

    /// Inserts an all-dead row above the grid.
    fn prepend_row(&mut self)
        requires
            old(self).wf(),
        ensures
            final(self).wf(),
            final(self).rule_set() == old(self).rule_set(),
            final(self).width_bound() == old(self).width_bound(),
            final(self).height_bound() == old(self).height_bound(),
            final(self).grid() == seq![dead_row(old(self).grid()[0].len())] + old(self).grid(),
    {
        let row = self.make_dead_row();
        self.cells.insert(0, row);
        proof {
            assert(self.grid() =~~= seq![dead_row(old(self).grid()[0].len())] + old(
                self,
            ).grid());
        }
    }

    /// Appends an all-dead row below the grid.
    fn append_row(&mut self)
        requires
            old(self).wf(),
        ensures
            final(self).wf(),
            final(self).rule_set() == old(self).rule_set(),
            final(self).width_bound() == old(self).width_bound(),
            final(self).height_bound() == old(self).height_bound(),
            final(self).grid() == old(self).grid() + seq![dead_row(old(self).grid()[0].len())],
    {
        let row = self.make_dead_row();
        self.cells.push(row);
        proof {
            assert(self.grid() =~~= old(self).grid() + seq![dead_row(old(self).grid()[0].len())]);
        }
    }

    /// A fresh all-dead row as wide as the grid.
    #[verifier::loop_isolation(false)]
    fn make_dead_row(&self) -> (r: Vec<bool>)
        requires
            self.wf(),
        ensures
            r@ == dead_row(self.grid()[0].len()),
    {
        let w = self.cells[0].len();
        let mut row: Vec<bool> = Vec::new();
        for j in 0..w
            invariant
                row@.len() == j,
                forall|c: int| 0 <= c < j ==> !(#[trigger] row@[c]),
        {
            row.push(false);
        }
        proof {
            assert(row@ =~= dead_row(self.grid()[0].len()));
        }
        row
    }

    /// Pads every row with a dead cell on the chosen sides.
    #[verifier::loop_isolation(false)]
    fn pad_cols(&mut self, left: bool, right: bool)
        requires
            old(self).wf(),
        ensures
            final(self).wf(),
            final(self).rule_set() == old(self).rule_set(),
            final(self).width_bound() == old(self).width_bound(),
            final(self).height_bound() == old(self).height_bound(),
            final(self).grid() == old(self).grid().map_values(
                |row: Seq<bool>|
                    (if left {
                        seq![false]
                    } else {
                        Seq::<bool>::empty()
                    }) + row + (if right {
                        seq![false]
                    } else {
                        Seq::<bool>::empty()
                    }),
            ),
    {
        let ghost lpad: Seq<bool> = if left {
            seq![false]
        } else {
            Seq::empty()
        };
        let ghost rpad: Seq<bool> = if right {
            seq![false]
        } else {
            Seq::empty()
        };
        let h = self.cells.len();
        let mut out: Vec<Vec<bool>> = Vec::new();
        for i in 0..h
            invariant
                self.wf(),
                h == self.grid().len(),
                out@.len() == i,
                forall|r: int|
                    0 <= r < i ==> (#[trigger] out@[r])@ == lpad + self.grid()[r] + rpad,
        {
            proof {
                assert(self.grid()[i as int].len() == self.grid()[0].len());
            }
            let w = self.cells[i].len();
            let mut row: Vec<bool> = Vec::new();
            if left {
                row.push(false);
            }
            proof {
                assert(lpad == (if left {
                    seq![false]
                } else {
                    Seq::<bool>::empty()
                }));
                assert(row@ =~= lpad + self.grid()[i as int].take(0));
            }
            for j in 0..w
                invariant
                    self.wf(),
                    i < self.grid().len(),
                    w == self.grid()[i as int].len(),
                    row@ == lpad + self.grid()[i as int].take(j as int),
                    lpad == (if left {
                        seq![false]
                    } else {
                        Seq::<bool>::empty()
                    }),
            {
                row.push(self.cells[i][j]);
                proof {
                    assert(self.grid()[i as int].take(j + 1) =~= self.grid()[i as int].take(
                        j as int,
                    ).push(self.grid()[i as int][j as int]));
                }
            }
            if right {
                row.push(false);
            }
            proof {
                assert(self.grid()[i as int].take(w as int) =~= self.grid()[i as int]);
                assert(row@ =~= lpad + self.grid()[i as int] + rpad);
            }
            out.push(row);
        }
        self.cells = out;
        proof {
            assert(self.grid() =~~= old(self).grid().map_values(
                |row: Seq<bool>| lpad + row + rpad,
            ));
        }
    }

    /// The growth pass: after a change, the grid grows by one dead ring on
    /// any side whose edge holds a live cell, each axis gated by its bound.
    fn resizing_board(&mut self)
        requires
            old(self).wf(),
        ensures
            final(self).wf(),
            final(self).rule_set() == old(self).rule_set(),
            final(self).width_bound() == old(self).width_bound(),
            final(self).height_bound() == old(self).height_bound(),
            final(self).grid() == grow(
                old(self).grid(),
                old(self).width_bound(),
                old(self).height_bound(),
            ),
    {
        let h = self.cells.len();
        let height_allows = match self.max_height {
            Option::None => true,
            Option::Some(m) => h < m,
        };
        let ghost g0 = self.grid();
        let ghost top: Seq<Seq<bool>> = if row_alive(g0, 0) {
            seq![dead_row(g0[0].len())]
        } else {
            Seq::empty()
        };
        let ghost bottom: Seq<Seq<bool>> = if row_alive(g0, g0.len() - 1) {
            seq![dead_row(g0[0].len())]
        } else {
            Seq::empty()
        };
        if height_allows {
            if self.row_has_alive(0) {
                self.prepend_row();
            }
            proof {
                assert(self.grid() =~~= top + g0);
            }
            let last = self.cells.len() - 1;
            proof {
                assert(self.grid()[last as int] =~= g0[g0.len() - 1]);
                assert(row_alive(self.grid(), last as int) == row_alive(g0, g0.len() - 1));
            }
            if self.row_has_alive(last) {
                self.append_row();
            }
            proof {
                assert(self.grid() =~~= top + g0 + bottom);
            }
        }
        proof {
            assert(self.grid() =~~= grow_rows(old(self).grid(), old(self).height_bound()));
        }
        let ghost g1 = self.grid();
        let w = self.cells[0].len();
        let width_allows = match self.max_width {
            Option::None => true,
            Option::Some(m) => w < m,
        };
        if width_allows {
            let left = self.col_has_alive(0);
            let right = self.col_has_alive(w - 1);
            if left || right {
                self.pad_cols(left, right);
            } else {
                proof {
                    assert(self.grid() =~~= g1.map_values(
                        |row: Seq<bool>| Seq::<bool>::empty() + row + Seq::<bool>::empty(),
                    ));
                }
            }
        }
        proof {
            assert(self.grid() =~~= grow_cols(g1, old(self).width_bound()));
        }
    }

    /// Computes the next generation from the current one. Every cell is
    /// judged against the current grid simultaneously. When the new grid is
    /// identical to the old one the board is left untouched and `false`
    /// comes back; otherwise the new grid replaces the old, the growth pass
    /// runs, and `true` comes back.
    #[verifier::loop_isolation(false)]
    pub fn next(&mut self) -> (changed: bool)
        requires
            old(self).wf(),
        ensures
            final(self).wf(),
            final(self).rule_set() == old(self).rule_set(),
            final(self).width_bound() == old(self).width_bound(),
            final(self).height_bound() == old(self).height_bound(),
            changed == (step(old(self).rule_set(), old(self).grid()) != old(self).grid()),
            !changed ==> final(self).grid() == old(self).grid(),
            changed ==> final(self).grid() == grow(
                step(old(self).rule_set(), old(self).grid()),
                old(self).width_bound(),
                old(self).height_bound(),
            ),
            final(self).grid().len() >= old(self).grid().len(),
            final(self).grid()[0].len() >= old(self).grid()[0].len(),
    {
        let ghost g = self.grid();
        let ghost rl = self.rules;
        let h = self.cells.len();
        let w = self.cells[0].len();
        let mut nxt: Vec<Vec<bool>> = Vec::new();
        for i in 0..h
            invariant
                nxt@.len() == i,
                forall|r: int| 0 <= r < i ==> (#[trigger] nxt@[r])@ == step(rl, g)[r],
        {
            proof {
                assert(g[i as int].len() == g[0].len());
            }
            let mut row: Vec<bool> = Vec::new();
            for j in 0..w
                invariant
                    row@.len() == j,
                    forall|c: int| 0 <= c < j ==> #[trigger] row@[c] == cell_next(rl, g, i as int, c),
            {
                let n = self.calc_neighbours(i, j);
                let cur = self.cells[i][j];
                let v = if cur {
                    self.will_stay_alive(n)
                } else {
                    self.will_born(n)
                };
                row.push(v);
            }
            proof {
                assert(row@ =~= step(rl, g)[i as int]);
            }
            nxt.push(row);
        }
        let equal = self.cells == nxt;
        proof {
            assert forall|r: int| 0 <= r < h implies (#[trigger] step(rl, g)[r]).len()
                == g[r].len() by {}
            if equal {
                assert(self.cells.eq_spec(&nxt));
                assert forall|r: int| 0 <= r < h implies g[r] =~= step(rl, g)[r] by {
                    assert(forall|c: int|
                        0 <= c < w ==> self.cells@[r]@[c] == nxt@[r]@[c]);
                }
                assert(g =~~= step(rl, g));
            } else {
                if step(rl, g) == g {
                    assert forall|r: int|
                        0 <= r < self.cells@.len() implies #[trigger] self.cells@[r].eq_spec(
                        &nxt@[r],
                    ) by {
                        assert(g[r] == step(rl, g)[r]);
                        assert(forall|c: int|
                            0 <= c < w ==> self.cells@[r]@[c] == nxt@[r]@[c]);
                    }
                    assert(self.cells.eq_spec(&nxt));
                    assert(false);
                }
            }
        }
        if equal {
            return false;
        }
        self.cells = nxt;
        proof {
            assert(self.grid() =~~= step(rl, g));
            assert(self.wf());
        }
        self.resizing_board();
        true
    }

    /// Renders the grid: one string per row, each cell as its glyph followed
    /// by one space. Pure: the board is not changed.
    #[verifier::loop_isolation(false)]
    pub fn lines(&self) -> (r: Vec<String>)
        requires
            self.wf(),
        ensures
            r@.len() == self.grid().len(),
            forall|i: int| 0 <= i < r@.len() ==> (#[trigger] r@[i])@ == row_chars(self.grid()[i]),
    {
        let h = self.cells.len();
        let mut out: Vec<String> = Vec::new();
        for i in 0..h
            invariant
                out@.len() == i,
                forall|r: int| 0 <= r < i ==> (#[trigger] out@[r])@ == row_chars(self.grid()[r]),
        {
            proof {
                assert(self.grid()[i as int].len() == self.grid()[0].len());
            }
            let w = self.cells[i].len();
            let mut line = String::new();
            for j in 0..w
                invariant
                    line@ == row_chars(self.grid()[i as int].take(j as int)),
            {
                let cell = self.cells[i][j];
                line.push(if cell {
                    ALIVE_GLYPH
                } else {
                    DEAD_GLYPH
                });
                line.push(' ');
                proof {
                    let row = self.grid()[i as int];
                    assert(row.take(j + 1).drop_last() =~= row.take(j as int));
                    assert(row.take(j + 1).last() == row[j as int]);
                }
            }
            proof {
                assert(self.grid()[i as int].take(w as int) =~= self.grid()[i as int]);
            }
            out.push(line);
        }
        out
    }

    /// Re-seeds every cell independently at random: a cell comes up alive
    /// when a uniform draw from [0, 100) falls below `threshold`. A
    /// threshold at or below 0 kills every cell; one at or above 100 fills
    /// the whole grid.
    #[verifier::loop_isolation(false)]
    pub fn with_random(self, threshold: i32) -> (r: Board)
        requires
            self.wf(),
        ensures
            r.wf(),
            r.grid().len() == self.grid().len(),
            r.grid()[0].len() == self.grid()[0].len(),
            r.rule_set() == self.rule_set(),
            r.width_bound() == self.width_bound(),
            r.height_bound() == self.height_bound(),
            threshold <= 0 ==> forall|i: int, j: int|
                0 <= i < r.grid().len() && 0 <= j < r.grid()[0].len() ==> !(#[trigger] r.grid()[i][j]),
            threshold >= 100 ==> forall|i: int, j: int|
                0 <= i < r.grid().len() && 0 <= j < r.grid()[0].len() ==> (#[trigger] r.grid()[i][j]),
    {
        let ghost orig = self;
        let mut this = self;
        let h = this.cells.len();
        let w = this.cells[0].len();
        for i in 0..h
            invariant
                this.rules == orig.rules,
                this.max_width == orig.max_width,
                this.max_height == orig.max_height,
                this.grid().len() == h,
                forall|r: int| 0 <= r < h ==> #[trigger] this.grid()[r].len() == w,
                threshold <= 0 ==> forall|r: int, c: int|
                    0 <= r < i && 0 <= c < w ==> !(#[trigger] this.grid()[r][c]),
                threshold >= 100 ==> forall|r: int, c: int|
                    0 <= r < i && 0 <= c < w ==> (#[trigger] this.grid()[r][c]),
        {
            for j in 0..w
                invariant
                    this.rules == orig.rules,
                    this.max_width == orig.max_width,
                    this.max_height == orig.max_height,
                    this.grid().len() == h,
                    forall|r: int| 0 <= r < h ==> #[trigger] this.grid()[r].len() == w,
                    threshold <= 0 ==> forall|r: int, c: int|
                        0 <= r < i && 0 <= c < w ==> !(#[trigger] this.grid()[r][c]),
                    threshold >= 100 ==> forall|r: int, c: int|
                        0 <= r < i && 0 <= c < w ==> (#[trigger] this.grid()[r][c]),
                    threshold <= 0 ==> forall|c: int|
                        0 <= c < j ==> !(#[trigger] this.grid()[i as int][c]),
                    threshold >= 100 ==> forall|c: int|
                        0 <= c < j ==> (#[trigger] this.grid()[i as int][c]),
            {
                proof {
                    assert(this.grid()[i as int].len() == w);
                }
                let ghost prev = this;
                let v = random_percent() < threshold;
                this.cells[i][j] = v;
                proof {
                    assert forall|r: int| 0 <= r < h && r != i implies this.grid()[r]
                        == prev.grid()[r] by {}
                    assert(this.grid()[i as int] =~= prev.grid()[i as int].update(j as int, v));
                }
            }
        }
        this
    }

    /// Whether a live cell with `neighbours` live neighbors survives.
    pub fn will_stay_alive(&self, neighbours: u32) -> (r: bool)
        ensures
            r == survives(self.rule_set(), neighbours as nat),
    {
        self.rules.min_to_stay_alive <= neighbours && neighbours <= self.rules.max_to_stay_alive
    }

    /// Whether a dead cell with `neighbours` live neighbors is born.
    pub fn will_born(&self, neighbours: u32) -> (r: bool)
        ensures
            r == is_born(self.rule_set(), neighbours as nat),
    {
        self.rules.min_to_born <= neighbours && neighbours <= self.rules.max_to_born
    }
}

/// Whether any cell of row r is alive.
pub open spec fn row_alive(g: Seq<Seq<bool>>, r: int) -> bool {
    exists|c: int| 0 <= c < g[r].len() && g[r][c]
}

/// Whether any cell of column c is alive.
pub open spec fn col_alive(g: Seq<Seq<bool>>, c: int) -> bool {
    exists|r: int| 0 <= r < g.len() && g[r][c]
}

pub open spec fn dead_row(w: nat) -> Seq<bool> {
    Seq::new(w, |c: int| false)
}

/// Whether the bound on an axis still allows that axis to grow.
pub open spec fn below_bound(bound: Option<usize>, cur: nat) -> bool {
    match bound {
        Option::None => true,
        Option::Some(m) => cur < m,
    }
}

/// The row half of the growth pass: when the height bound allows it, an
/// all-dead row appears above a live first row and below a live last row.
pub open spec fn grow_rows(g: Seq<Seq<bool>>, maxh: Option<usize>) -> Seq<Seq<bool>> {
    if below_bound(maxh, g.len()) {
        let top = if row_alive(g, 0) {
            seq![dead_row(g[0].len())]
        } else {
            Seq::empty()
        };
        let bottom = if row_alive(g, g.len() - 1) {
            seq![dead_row(g[0].len())]
        } else {
            Seq::empty()
        };
        top + g + bottom
    } else {
        g
    }
}

/// The column half of the growth pass: when the width bound allows it, a
/// dead cell joins every row before a live first column and after a live
/// last column.
pub open spec fn grow_cols(g: Seq<Seq<bool>>, maxw: Option<usize>) -> Seq<Seq<bool>> {
    if below_bound(maxw, g[0].len()) {
        let lpad: Seq<bool> = if col_alive(g, 0) {
            seq![false]
        } else {
            Seq::empty()
        };
        let rpad: Seq<bool> = if col_alive(g, g[0].len() - 1) {
            seq![false]
        } else {
            Seq::empty()
        };
        g.map_values(|row: Seq<bool>| lpad + row + rpad)
    } else {
        g
    }
}

/// The whole growth pass: rows first, then columns of the row-grown grid,
/// each axis gated by its own bound.
pub open spec fn grow(
    g: Seq<Seq<bool>>,
    maxw: Option<usize>,
    maxh: Option<usize>,
) -> Seq<Seq<bool>> {
    grow_cols(grow_rows(g, maxh), maxw)
}

pub const ALIVE_GLYPH: char = '\u{25a0}';

pub const DEAD_GLYPH: char = '\u{25a1}';

pub open spec fn cell_glyph(b: bool) -> char {
    if b {
        ALIVE_GLYPH
    } else {
        DEAD_GLYPH
    }
}

/// The characters that render one row: for each cell its glyph and one
/// trailing space.
pub open spec fn row_chars(row: Seq<bool>) -> Seq<char>
    decreases row.len(),
{
    if row.len() == 0 {
        Seq::empty()
    } else {
        row_chars(row.drop_last()) + seq![cell_glyph(row.last()), ' ']
    }
}

/// Relies on rand's thread_rng and Rng::gen_range: a draw from the
/// half-open range [0, 100), uniform over a thread-local generator.
#[verifier::external_body]
fn random_percent() -> (r: i32)
    ensures
        0 <= r < 100,
{
    let mut rng = rand::thread_rng();
    rand::Rng::gen_range(&mut rng, 0..100)
}

pub open spec fn default_rules() -> Rules {
    Rules {
        min_to_born: DEFAULT_MIN_TO_BORN,
        max_to_born: DEFAULT_MAX_TO_BORN,
        min_to_stay_alive: DEFAULT_MIN_TO_STAY_ALIVE,
        max_to_stay_alive: DEFAULT_MAX_TO_STAY_ALIVE,
    }
}

/// What one advance leaves behind: the stepped grid after growth when the
/// step changed something, the untouched grid otherwise.
pub open spec fn advance_grid(
    rules: Rules,
    g: Seq<Seq<bool>>,
    maxw: Option<usize>,
    maxh: Option<usize>,
) -> Seq<Seq<bool>> {
    if step(rules, g) == g {
        g
    } else {
        grow(step(rules, g), maxw, maxh)
    }
}

/// Law: advancing holds no hidden randomness; it is a pure function of the
/// grid, the rule set and the growth bounds, so equal inputs advance to
/// equal grids.
pub proof fn lemma_advance_deterministic(
    rules1: Rules,
    g1: Seq<Seq<bool>>,
    rules2: Rules,
    g2: Seq<Seq<bool>>,
    maxw: Option<usize>,
    maxh: Option<usize>,
)
    requires
        rules1 == rules2,
        g1 == g2,
    ensures
        step(rules1, g1) == step(rules2, g2),
        advance_grid(rules1, g1, maxw, maxh) == advance_grid(rules2, g2, maxw, maxh),
{
}

/// Law: a dead cell is born exactly when its live-neighbor count lies in the
/// birth range; one neighbor below the minimum or above the maximum leaves
/// it dead.
pub proof fn lemma_birth_rule(rules: Rules, g: Seq<Seq<bool>>, r: int, c: int)
    requires
        grid_wf(g),
        0 <= r < g.len(),
        0 <= c < g[r].len(),
        !g[r][c],
    ensures
        step(rules, g)[r][c] == is_born(rules, neighbor_count(g, r, c)),
        neighbor_count(g, r, c) < rules.min_to_born ==> !step(rules, g)[r][c],
        neighbor_count(g, r, c) > rules.max_to_born ==> !step(rules, g)[r][c],
{
}

/// Law: a live cell survives exactly when its live-neighbor count lies in
/// the survival range; strictly outside it the cell dies.
pub proof fn lemma_survival_rule(rules: Rules, g: Seq<Seq<bool>>, r: int, c: int)
    requires
        grid_wf(g),
        0 <= r < g.len(),
        0 <= c < g[r].len(),
        g[r][c],
    ensures
        step(rules, g)[r][c] == survives(rules, neighbor_count(g, r, c)),
        neighbor_count(g, r, c) < rules.min_to_stay_alive ==> !step(rules, g)[r][c],
        neighbor_count(g, r, c) > rules.max_to_stay_alive ==> !step(rules, g)[r][c],
{
}

/// Law: growth is monotonic — one advance never shrinks either grid
/// dimension, whatever the bounds, so dimensions never decrease across any
/// sequence of advances.
pub proof fn lemma_growth_monotonic(
    rules: Rules,
    g: Seq<Seq<bool>>,
    maxw: Option<usize>,
    maxh: Option<usize>,
)
    requires
        grid_wf(g),
    ensures
        advance_grid(rules, g, maxw, maxh).len() >= g.len(),
        advance_grid(rules, g, maxw, maxh)[0].len() >= g[0].len(),
{
    if step(rules, g) != g {
        let s = step(rules, g);
        assert(s.len() == g.len());
        assert(s[0].len() == g[0].len());
        let g1 = grow_rows(s, maxh);
        assert(g1.len() >= s.len());
        assert(g1[0].len() == s[0].len());
        let g2 = grow_cols(g1, maxw);
        assert(g2.len() == g1.len());
        assert(g2[0].len() >= g1[0].len());
    }
}

/// Law: growth stops exactly at a configured width bound — once the grid is
/// as wide as the bound, no column growth occurs, however lively the border.
pub proof fn lemma_growth_stops_at_bound(
    g: Seq<Seq<bool>>,
    maxw: usize,
    maxh: Option<usize>,
)
    requires
        grid_wf(g),
        g[0].len() >= maxw,
    ensures
        grow(g, Some(maxw), maxh)[0].len() == g[0].len(),
        grow(g, Some(maxw), maxh).len() == grow_rows(g, maxh).len(),
{
    let g1 = grow_rows(g, maxh);
    assert(g1[0].len() == g[0].len());
}

/// Law: a grid without a single live cell is a fixed point under any rule
/// set whose birth range excludes zero, the standard thresholds included.
pub proof fn lemma_dead_grid_stable(
    rules: Rules,
    g: Seq<Seq<bool>>,
    maxw: Option<usize>,
    maxh: Option<usize>,
)
    requires
        grid_wf(g),
        forall|r: int, c: int|
            0 <= r < g.len() && 0 <= c < g[r].len() ==> !(#[trigger] g[r][c]),
        rules.min_to_born >= 1,
    ensures
        step(rules, g) == g,
        advance_grid(rules, g, maxw, maxh) == g,
{
    assert forall|r: int, c: int| true implies !alive(g, r, c) by {
        if 0 <= r < g.len() && 0 <= c < g[r].len() {
            assert(!g[r][c]);
        }
    }
    assert forall|r: int| 0 <= r < g.len() implies step(rules, g)[r] =~= g[r] by {
        assert forall|c: int| 0 <= c < g[r].len() implies step(rules, g)[r][c] == g[r][c] by {
            assert(neighbor_count(g, r, c) == 0);
            assert(!is_born(rules, 0));
        }
    }
    assert(step(rules, g) =~~= g);
}

} // verus!
