//! The board engine: mine layout, neighbor counts, reveal logic and the
//! win/loss state machine.

use vstd::prelude::*;
use vstd::arithmetic::div_mod::lemma_fundamental_div_mod;
use vstd::arithmetic::div_mod::lemma_mod_division_less_than_divisor;

verus! {

/// One grid position.
#[derive(Clone, Copy, Debug, PartialEq, Eq, Structural)]
pub struct Cell {
    /// Set once when the board is created, immutable thereafter.
    pub is_mine: bool,
    /// Starts false and only ever transitions to true within a game.
    pub is_revealed: bool,
    /// Number of mines among the up-to-8 grid-adjacent cells, precomputed
    /// when the board is created.
    pub neighbor_mine_count: u8,
}

/// The phase a game is in. `Lost` and `Won` are terminal: no reveal
/// mutates the board once either is reached.
#[derive(Clone, Copy, Debug, PartialEq, Eq, Structural)]
pub enum GameState {
    InProgress,
    Lost,
    Won,
}

/// The two precondition violations the engine reports to its caller.
#[derive(Clone, Copy, Debug, PartialEq, Eq, Structural)]
pub enum MinesError {
    /// `new_game` was asked for a mine count outside `1 .. width * width`,
    /// or for a board too large to address.
    InvalidConfiguration,
    /// `reveal_cell` was given an index outside `0 .. width * width`.
    IndexOutOfBounds,
}

/// `j` is one of the up-to-8 grid neighbors of `i` on a `w`-wide square
/// board: both indices are in range, they are distinct, and their rows and
/// columns each differ by at most one. Row-major layout: row `i / w`,
/// column `i % w`.
pub open spec fn is_neighbor(w: int, i: int, j: int) -> bool {
    &&& 0 <= i < w * w
    &&& 0 <= j < w * w
    &&& i != j
    &&& -1 <= i / w - j / w <= 1
    &&& -1 <= i % w - j % w <= 1
}

/// 1 if `guard` holds and the cell at `j` is a mine, else 0.
pub open spec fn mine_at(cells: Seq<Cell>, guard: bool, j: int) -> int {
    if guard && cells[j].is_mine {
        1
    } else {
        0
    }
}

/// The number of mines among the grid neighbors of `i`, written as the
/// edge-respecting enumeration of the eight candidate offsets: the left and
/// right offsets exist unless `i` sits in column 0 or `w - 1`, the up and
/// down offsets unless it sits in row 0 or `w - 1`, and a diagonal offset
/// exists only when both of its components do.
pub open spec fn adjacent_mines(cells: Seq<Cell>, w: int, i: int) -> int {
    let r = i / w;
    let c = i % w;
    mine_at(cells, c > 0, i - 1) + mine_at(cells, c < w - 1, i + 1) + mine_at(
        cells,
        r > 0,
        i - w,
    ) + mine_at(cells, r < w - 1, i + w) + mine_at(cells, r > 0 && c > 0, i - w - 1) + mine_at(
        cells,
        r > 0 && c < w - 1,
        i - w + 1,
    ) + mine_at(cells, r < w - 1 && c > 0, i + w - 1) + mine_at(
        cells,
        r < w - 1 && c < w - 1,
        i + w + 1,
    )
}

/// How many of the first `k` cells are mines.
pub open spec fn mines_upto(cells: Seq<Cell>, k: int) -> int
    decreases k,
{
    if k <= 0 {
        0
    } else {
        mines_upto(cells, k - 1) + (if cells[k - 1].is_mine {
            1int
        } else {
            0int
        })
    }
}

/// How many of the first `k` cells are revealed.
pub open spec fn revealed_upto(cells: Seq<Cell>, k: int) -> int
    decreases k,
{
    if k <= 0 {
        0
    } else {
        revealed_upto(cells, k - 1) + (if cells[k - 1].is_revealed {
            1int
        } else {
            0int
        })
    }
}

/// How many of the first `k` flags are set.
pub open spec fn trues_upto(flags: Seq<bool>, k: int) -> int
    decreases k,
{
    if k <= 0 {
        0
    } else {
        trues_upto(flags, k - 1) + (if flags[k - 1] {
            1int
        } else {
            0int
        })
    }
}

/// Total number of mines on the board.
pub open spec fn total_mines(cells: Seq<Cell>) -> int {
    mines_upto(cells, cells.len() as int)
}

/// Total number of revealed cells on the board.
pub open spec fn total_revealed(cells: Seq<Cell>) -> int {
    revealed_upto(cells, cells.len() as int)
}

/// A valid index decomposes into its row and column.
proof fn lemma_row_col(w: int, i: int)
    requires
        w >= 1,
        0 <= i < w * w,
    ensures
        0 <= i / w < w,
        0 <= i % w < w,
        i == (i / w) * w + (i % w),
        i % w <= i,
{
    lemma_fundamental_div_mod(i, w);
    lemma_mod_division_less_than_divisor(i, w);
    assert(0 <= i / w < w && (i / w) * w + (i % w) == i && i % w <= i) by (nonlinear_arith)
        requires
            w >= 1,
            0 <= i < w * w,
            i == w * (i / w) + (i % w),
            0 <= i % w < w,
    ;
}

/// Every guarded neighbor offset of a valid index lands back inside the
/// grid.
proof fn lemma_offsets_in_range(w: int, i: int)
    requires
        w >= 1,
        0 <= i < w * w,
    ensures
        i % w > 0 ==> 0 <= i - 1 < w * w,
        i % w < w - 1 ==> 0 <= i + 1 < w * w,
        i / w > 0 ==> 0 <= i - w < w * w,
        i / w < w - 1 ==> 0 <= i + w < w * w,
        i / w > 0 && i % w > 0 ==> 0 <= i - w - 1 < w * w,
        i / w > 0 && i % w < w - 1 ==> 0 <= i - w + 1 < w * w,
        i / w < w - 1 && i % w > 0 ==> 0 <= i + w - 1 < w * w,
        i / w < w - 1 && i % w < w - 1 ==> 0 <= i + w + 1 < w * w,
{
    lemma_row_col(w, i);
    let r = i / w;
    let c = i % w;
    assert((r > 0 ==> w <= i) && (c < w - 1 ==> i + 1 < w * w) && (r < w - 1 ==> i + w < w * w) && (
    r > 0 && c > 0 ==> w + 1 <= i) && (r < w - 1 && c < w - 1 ==> i + w + 1 < w * w))
        by (nonlinear_arith)
        requires
            w >= 1,
            0 <= r < w,
            0 <= c < w,
            i == r * w + c,
    ;
}

/// A grid neighbor of `i` is one of the eight guarded candidate offsets.
proof fn lemma_neighbor_cases(w: int, i: int, j: int)
    requires
        w >= 1,
        is_neighbor(w, i, j),
    ensures
        ({
            let r = i / w;
            let c = i % w;
            ||| (c > 0 && j == i - 1)
            ||| (c < w - 1 && j == i + 1)
            ||| (r > 0 && j == i - w)
            ||| (r < w - 1 && j == i + w)
            ||| (r > 0 && c > 0 && j == i - w - 1)
            ||| (r > 0 && c < w - 1 && j == i - w + 1)
            ||| (r < w - 1 && c > 0 && j == i + w - 1)
            ||| (r < w - 1 && c < w - 1 && j == i + w + 1)
        }),
{
    lemma_row_col(w, i);
    lemma_row_col(w, j);
    let r = i / w;
    let c = i % w;
    let rj = j / w;
    let cj = j % w;
    let dr = rj - r;
    let dc = cj - c;
    assert(j - i == dr * w + dc) by (nonlinear_arith)
        requires
            i == r * w + c,
            j == rj * w + cj,
            dr == rj - r,
            dc == cj - c,
    ;
    if dr == -1 {
        assert(dr * w == -w) by (nonlinear_arith)
            requires
                dr == -1,
        ;
    }
    if dr == 1 {
        assert(dr * w == w) by (nonlinear_arith)
            requires
                dr == 1,
        ;
    }
    if dr == 0 {
        assert(dr * w == 0) by (nonlinear_arith)
            requires
                dr == 0,
        ;
    }
}

/// A cell whose neighboring-mine count is zero has no mine among its grid
/// neighbors.
proof fn lemma_no_adjacent_mine(cells: Seq<Cell>, w: int, i: int, j: int)
    requires
        w >= 1,
        cells.len() == w * w,
        adjacent_mines(cells, w, i) == 0,
        is_neighbor(w, i, j),
    ensures
        !cells[j].is_mine,
{
    lemma_neighbor_cases(w, i, j);
    lemma_offsets_in_range(w, i);
}

/// `adjacent_mines` reads only the `is_mine` fields.
proof fn lemma_adjacent_mines_same(c1: Seq<Cell>, c2: Seq<Cell>, w: int, i: int)
    requires
        c1.len() == c2.len(),
        forall|t: int| 0 <= t < c1.len() ==> (#[trigger] c2[t]).is_mine == c1[t].is_mine,
        w >= 1,
        c1.len() == w * w,
        0 <= i < w * w,
    ensures
        adjacent_mines(c1, w, i) == adjacent_mines(c2, w, i),
{
    lemma_offsets_in_range(w, i);
}

/// If every cell keeps its `is_mine` and `neighbor_mine_count` fields,
/// correctness of the stored counts carries over.
proof fn lemma_counts_preserved(c1: Seq<Cell>, c2: Seq<Cell>, w: int)
    requires
        w >= 1,
        c1.len() == w * w,
        c2.len() == c1.len(),
        forall|t: int| 0 <= t < c1.len() ==> (#[trigger] c2[t]).is_mine == c1[t].is_mine,
        forall|t: int|
            0 <= t < c1.len() ==> (#[trigger] c2[t]).neighbor_mine_count
                == c1[t].neighbor_mine_count,
        forall|t: int|
            0 <= t < w * w ==> (#[trigger] c1[t]).neighbor_mine_count as int == adjacent_mines(
                c1,
                w,
                t,
            ),
    ensures
        forall|t: int|
            0 <= t < w * w ==> (#[trigger] c2[t]).neighbor_mine_count as int == adjacent_mines(
                c2,
                w,
                t,
            ),
{
    assert forall|t: int|
        0 <= t < w * w implies (#[trigger] c2[t]).neighbor_mine_count as int == adjacent_mines(
        c2,
        w,
        t,
    ) by {
        lemma_adjacent_mines_same(c1, c2, w, t);
    }
}

/// `mines_upto` reads only the `is_mine` fields.
proof fn lemma_mines_upto_same(c1: Seq<Cell>, c2: Seq<Cell>, k: int)
    requires
        c1.len() == c2.len(),
        forall|t: int| 0 <= t < c1.len() ==> (#[trigger] c2[t]).is_mine == c1[t].is_mine,
        k <= c1.len(),
    ensures
        mines_upto(c1, k) == mines_upto(c2, k),
    decreases k,
{
    if k > 0 {
        lemma_mines_upto_same(c1, c2, k - 1);
    }
}

/// Mines on the board match the layout flags they were built from.
proof fn lemma_mines_match_trues(cells: Seq<Cell>, flags: Seq<bool>, k: int)
    requires
        cells.len() == flags.len(),
        forall|t: int| 0 <= t < flags.len() ==> (#[trigger] cells[t]).is_mine == flags[t],
        k <= flags.len(),
    ensures
        mines_upto(cells, k) == trues_upto(flags, k),
    decreases k,
{
    if k > 0 {
        lemma_mines_match_trues(cells, flags, k - 1);
    }
}

/// Setting one flag to true raises the prefix counts that cover it by one.
proof fn lemma_trues_upto_update(flags: Seq<bool>, p: int, k: int)
    requires
        0 <= p < flags.len(),
        !flags[p],
        0 <= k <= flags.len(),
    ensures
        trues_upto(flags.update(p, true), k) == trues_upto(flags, k) + if p < k {
            1int
        } else {
            0int
        },
    decreases k,
{
    if k > 0 {
        lemma_trues_upto_update(flags, p, k - 1);
    }
}

/// A prefix with no set flag counts zero.
proof fn lemma_trues_upto_none(flags: Seq<bool>, k: int)
    requires
        0 <= k <= flags.len(),
        forall|t: int| 0 <= t < k ==> !flags[t],
    ensures
        trues_upto(flags, k) == 0,
    decreases k,
{
    if k > 0 {
        lemma_trues_upto_none(flags, k - 1);
    }
}

/// A prefix with no revealed cell counts zero.
proof fn lemma_revealed_upto_none(cells: Seq<Cell>, k: int)
    requires
        0 <= k <= cells.len(),
        forall|t: int| 0 <= t < k ==> !(#[trigger] cells[t]).is_revealed,
    ensures
        revealed_upto(cells, k) == 0,
    decreases k,
{
    if k > 0 {
        lemma_revealed_upto_none(cells, k - 1);
    }
}

/// While no mine is revealed, revealed cells and mines never overlap, so
/// their prefix counts sum to at most the prefix length.
proof fn lemma_revealed_mines_disjoint(cells: Seq<Cell>, k: int)
    requires
        0 <= k <= cells.len(),
        forall|t: int|
            0 <= t < k ==> !((#[trigger] cells[t]).is_mine && cells[t].is_revealed),
    ensures
        revealed_upto(cells, k) + mines_upto(cells, k) <= k,
    decreases k,
{
    if k > 0 {
        lemma_revealed_mines_disjoint(cells, k - 1);
    }
}

/// An unrevealed non-mine cell keeps the two disjoint prefix counts a full
/// step below the prefix length.
proof fn lemma_revealed_mines_deficit(cells: Seq<Cell>, k: int, i0: int)
    requires
        0 <= k <= cells.len(),
        forall|t: int|
            0 <= t < k ==> !((#[trigger] cells[t]).is_mine && cells[t].is_revealed),
        0 <= i0 < k,
        !cells[i0].is_mine,
        !cells[i0].is_revealed,
    ensures
        revealed_upto(cells, k) + mines_upto(cells, k) <= k - 1,
    decreases k,
{
    if i0 == k - 1 {
        lemma_revealed_mines_disjoint(cells, k - 1);
    } else {
        lemma_revealed_mines_deficit(cells, k - 1, i0);
    }
}

/// A duplicate-free sequence of indices below `n` has at most `n` entries.
proof fn lemma_distinct_bounded(s: Seq<usize>, n: int)
    requires
        s.no_duplicates(),
        n >= 0,
        forall|t: int| 0 <= t < s.len() ==> (#[trigger] s[t] as int) < n,
    ensures
        s.len() <= n,
{
    let ints = s.map_values(|x: usize| x as int);
    s.lemma_no_duplicates_injective(|x: usize| x as int);
    ints.unique_seq_to_set();
    assert(ints.to_set().subset_of(vstd::set_lib::set_int_range(0, n)));
    vstd::set_lib::lemma_int_range(0, n);
    vstd::set_lib::lemma_len_subset(ints.to_set(), vstd::set_lib::set_int_range(0, n));
}

/// A fixed-size square grid of `width * width` cells in row-major order,
/// together with the game-state machine. The engine owns the grid
/// exclusively; callers read it through the query surface.
pub struct Board {
    width: usize,
    mine_count: usize,
    cells: Vec<Cell>,
    state: GameState,
}

impl Board {
    /// The side length the board was created with.
    pub closed spec fn spec_width(self) -> int {
        self.width as int
    }

    /// The number of mines the board was created with.
    pub closed spec fn spec_mine_count(self) -> int {
        self.mine_count as int
    }

    /// The grid contents, row-major.
    pub closed spec fn spec_cells(self) -> Seq<Cell> {
        self.cells@
    }

    /// The state of the game-state machine.
    pub closed spec fn spec_state(self) -> GameState {
        self.state
    }

    /// The number of cells on the board.
    pub open spec fn size(self) -> int {
        self.spec_width() * self.spec_width()
    }

    /// Every cell stores exactly the number of mines among its grid
    /// neighbors.
    pub open spec fn counts_consistent(self) -> bool {
        forall|i: int|
            0 <= i < self.size() ==> (#[trigger] self.spec_cells()[i]).neighbor_mine_count as int
                == adjacent_mines(self.spec_cells(), self.spec_width(), i)
    }

    /// Every revealed cell with a zero count has all of its grid neighbors
    /// revealed as well: the closure that flood reveal establishes and
    /// every later reveal preserves.
    pub open spec fn zero_closed(self) -> bool {
        forall|k: int, j: int|
            0 <= k < self.size() && self.spec_cells()[k].is_revealed
                && self.spec_cells()[k].neighbor_mine_count == 0 && #[trigger] is_neighbor(
                self.spec_width(),
                k,
                j,
            ) ==> self.spec_cells()[j].is_revealed
    }

    /// No mine cell is revealed.
    pub open spec fn no_mine_revealed(self) -> bool {
        forall|i: int|
            0 <= i < self.size() && (#[trigger] self.spec_cells()[i]).is_mine
                ==> !self.spec_cells()[i].is_revealed
    }

    /// What each state of the machine says about the grid: while the game
    /// is in progress some safe cell is still hidden and no mine is
    /// exposed; a won board has exactly the safe cells revealed; a lost
    /// board is fully revealed.
    pub open spec fn state_consistent(self) -> bool {
        &&& self.spec_state() == GameState::InProgress ==> self.no_mine_revealed()
            && total_revealed(self.spec_cells()) < self.size() - self.spec_mine_count()
        &&& self.spec_state() == GameState::Won ==> self.no_mine_revealed() && total_revealed(
            self.spec_cells(),
        ) == self.size() - self.spec_mine_count() && (forall|i: int|
            0 <= i < self.size() && !(#[trigger] self.spec_cells()[i]).is_mine
                ==> self.spec_cells()[i].is_revealed)
        &&& self.spec_state() == GameState::Lost ==> forall|i: int|
            0 <= i < self.size() ==> (#[trigger] self.spec_cells()[i]).is_revealed
    }

    /// The board invariant: a square grid that fits in memory, a mine
    /// count in `1 .. width * width` matched by the cells, stored neighbor
    /// counts that are correct, the flood-reveal closure, and a game state
    /// that describes the grid.
    pub open spec fn wf(self) -> bool {
        &&& self.spec_width() >= 1
        &&& self.size() <= usize::MAX
        &&& self.spec_cells().len() == self.size()
        &&& 0 < self.spec_mine_count() < self.size()
        &&& total_mines(self.spec_cells()) == self.spec_mine_count()
        &&& self.counts_consistent()
        &&& self.zero_closed()
        &&& self.state_consistent()
    }

    /// The side length the board was created with.
    pub fn width(&self) -> (w: usize)
        ensures
            w as int == self.spec_width(),
    {
        self.width
    }

    /// The number of mines the board was created with.
    pub fn mine_count(&self) -> (m: usize)
        ensures
            m as int == self.spec_mine_count(),
    {
        self.mine_count
    }

    /// The number of cells on the board.
    pub fn cell_count(&self) -> (n: usize)
        ensures
            n as int == self.spec_cells().len(),
    {
        self.cells.len()
    }

    /// The state of the game-state machine.
    pub fn game_state(&self) -> (s: GameState)
        ensures
            s == self.spec_state(),
    {
        self.state
    }

    /// The cell at `index` (row-major).
    pub fn cell(&self, index: usize) -> (c: Cell)
        requires
            index < self.spec_cells().len(),
        ensures
            c == self.spec_cells()[index as int],
    {
        self.cells[index]
    }

    /// How many cells are currently revealed.
    pub fn revealed_count(&self) -> (n: usize)
        ensures
            n as int == total_revealed(self.spec_cells()),
    {
        let mut n: usize = 0;
        let mut i: usize = 0;
        while i < self.cells.len()
            invariant
                i <= self.cells@.len(),
                n as int == revealed_upto(self.cells@, i as int),
                n <= i,
            decreases self.cells@.len() - i,
        {
            if self.cells[i].is_revealed {
                n = n + 1;
            }
            i = i + 1;
        }
        n
    }
}

/// True iff `j` is a grid neighbor of `i` on a `width`-wide board.
pub fn is_adjacent(width: usize, i: usize, j: usize) -> (r: bool)
    requires
        width >= 1,
        (width as int) * (width as int) <= usize::MAX,
        (i as int) < (width as int) * (width as int),
        (j as int) < (width as int) * (width as int),
    ensures
        r == is_neighbor(width as int, i as int, j as int),
{
    let ri = i / width;
    let ci = i % width;
    let rj = j / width;
    let cj = j % width;
    let row_near = if ri >= rj {
        ri - rj <= 1
    } else {
        rj - ri <= 1
    };
    let col_near = if ci >= cj {
        ci - cj <= 1
    } else {
        cj - ci <= 1
    };
    i != j && row_near && col_near
}

/// The number of mines among the grid neighbors of `i`, by direct
/// enumeration of the guarded offsets.
fn count_adjacent_mines(cells: &Vec<Cell>, width: usize, i: usize) -> (count: u8)
    requires
        width >= 1,
        cells@.len() == (width as int) * (width as int),
        (width as int) * (width as int) <= usize::MAX,
        (i as int) < cells@.len(),
    ensures
        count as int == adjacent_mines(cells@, width as int, i as int),
{
    proof {
        lemma_row_col(width as int, i as int);
        lemma_offsets_in_range(width as int, i as int);
    }
    let r = i / width;
    let c = i % width;
    let mut count: u8 = 0;
    if c > 0 && cells[i - 1].is_mine {
        count = count + 1;
    }
    if c < width - 1 && cells[i + 1].is_mine {
        count = count + 1;
    }
    if r > 0 && cells[i - width].is_mine {
        count = count + 1;
    }
    if r < width - 1 && cells[i + width].is_mine {
        count = count + 1;
    }
    if r > 0 && c > 0 && cells[i - width - 1].is_mine {
        count = count + 1;
    }
    if r > 0 && c < width - 1 && cells[i - width + 1].is_mine {
        count = count + 1;
    }
    if r < width - 1 && c > 0 && cells[i + width - 1].is_mine {
        count = count + 1;
    }
    if r < width - 1 && c < width - 1 && cells[i + width + 1].is_mine {
        count = count + 1;
    }
    count
}

/// How many of the layout flags are set.
fn count_trues(flags: &Vec<bool>) -> (n: usize)
    ensures
        n as int == trues_upto(flags@, flags@.len() as int),
{
    let mut n: usize = 0;
    let mut i: usize = 0;
    while i < flags.len()
        invariant
            i <= flags@.len(),
            n as int == trues_upto(flags@, i as int),
            n <= i,
        decreases flags@.len() - i,
    {
        if flags[i] {
            n = n + 1;
        }
        i = i + 1;
    }
    n
}

impl Board {
    /// Builds a ready board from an explicit mine layout: one flag per
    /// cell, row-major. Rejects a layout whose length is not `width *
    /// width` or whose number of mines falls outside `1 .. width * width`;
    /// otherwise every cell starts unrevealed with its neighboring-mine
    /// count precomputed, and the game starts `InProgress`.
    #[verifier::loop_isolation(false)]
    pub fn with_mine_layout(width: usize, mines: &Vec<bool>) -> (r: Result<Board, MinesError>)
        ensures
            r is Ok <==> mines@.len() == (width as int) * (width as int) && 0 < trues_upto(
                mines@,
                mines@.len() as int,
            ) < mines@.len(),
            r is Err ==> r->Err_0 == MinesError::InvalidConfiguration,
            r is Ok ==> ({
                let b = r->Ok_0;
                &&& b.wf()
                &&& b.spec_width() == width as int
                &&& b.spec_mine_count() == trues_upto(mines@, mines@.len() as int)
                &&& b.spec_state() == GameState::InProgress
                &&& b.spec_cells().len() == mines@.len()
                &&& forall|t: int|
                    0 <= t < mines@.len() ==> (#[trigger] b.spec_cells()[t]).is_mine == mines@[t]
                        && !b.spec_cells()[t].is_revealed
            }),
    {
        let len = mines.len();
        let n = match width.checked_mul(width) {
            Some(n) => n,
            None => {
                return Err(MinesError::InvalidConfiguration);
            },
        };
        if len != n {
            return Err(MinesError::InvalidConfiguration);
        }
        let m = count_trues(mines);
        if m == 0 || m >= n {
            return Err(MinesError::InvalidConfiguration);
        }
        let mut cells: Vec<Cell> = Vec::new();
        let mut i: usize = 0;
        while i < n
            invariant
                i <= n,
                cells@.len() == i,
                forall|t: int|
                    0 <= t < i ==> (#[trigger] cells@[t]).is_mine == mines@[t]
                        && !cells@[t].is_revealed,
            decreases n - i,
        {
            cells.push(Cell { is_mine: mines[i], is_revealed: false, neighbor_mine_count: 0 });
            i = i + 1;
        }
        let mut i: usize = 0;
        while i < n
            invariant
                i <= n,
                cells@.len() == n,
                forall|t: int|
                    0 <= t < n ==> (#[trigger] cells@[t]).is_mine == mines@[t]
                        && !cells@[t].is_revealed,
                forall|t: int|
                    0 <= t < i ==> (#[trigger] cells@[t]).neighbor_mine_count as int
                        == adjacent_mines(cells@, width as int, t),
            decreases n - i,
        {
            let cnt = count_adjacent_mines(&cells, width, i);
            let ghost prev = cells@;
            let mut cell = cells[i];
            cell.neighbor_mine_count = cnt;
            cells.set(i, cell);
            proof {
                assert forall|t: int|
                    0 <= t < i + 1 implies (#[trigger] cells@[t]).neighbor_mine_count as int
                    == adjacent_mines(cells@, width as int, t) by {
                    lemma_adjacent_mines_same(prev, cells@, width as int, t);
                }
            }
            i = i + 1;
        }
        let b = Board { width, mine_count: m, cells, state: GameState::InProgress };
        proof {
            lemma_mines_match_trues(b.spec_cells(), mines@, n as int);
            lemma_revealed_upto_none(b.spec_cells(), n as int);
        }
        Ok(b)
    }
}

/// The position of the `k`-th unset flag (0-based). The caller guarantees
/// that at least `k + 1` flags are unset.
fn kth_free(flags: &Vec<bool>, k: usize) -> (pos: usize)
    requires
        (k as int) + trues_upto(flags@, flags@.len() as int) < flags@.len(),
    ensures
        (pos as int) < flags@.len(),
        !flags@[pos as int],
{
    let mut i: usize = 0;
    let mut seen: usize = 0;
    while i < flags.len()
        invariant
            i <= flags@.len(),
            seen as int == i - trues_upto(flags@, i as int),
            seen <= k,
            (k as int) + trues_upto(flags@, flags@.len() as int) < flags@.len(),
        decreases flags@.len() - i,
    {
        if !flags[i] {
            if seen == k {
                return i;
            }
            seen = seen + 1;
        }
        i = i + 1;
    }
    proof {
        assert(false);
    }
    0
}

impl Board {
    /// Starts a fresh game: `width * width` unrevealed cells with
    /// `mine_count` mines placed at distinct positions chosen by the
    /// engine's own randomness, neighbor counts precomputed, and the state
    /// machine at `InProgress`. Rejects a mine count outside `1 .. width *
    /// width`, and a board too large to address.
    pub fn new_game(width: usize, mine_count: usize) -> (r: Result<Board, MinesError>)
        ensures
            r is Ok <==> 0 < mine_count && (mine_count as int) < (width as int) * (width as int)
                && (width as int) * (width as int) <= usize::MAX,
            r is Err ==> r->Err_0 == MinesError::InvalidConfiguration,
            r is Ok ==> ({
                let b = r->Ok_0;
                &&& b.wf()
                &&& b.spec_width() == width as int
                &&& b.spec_mine_count() == mine_count as int
                &&& b.spec_state() == GameState::InProgress
                &&& forall|t: int|
                    0 <= t < b.spec_cells().len() ==> !(#[trigger] b.spec_cells()[t]).is_revealed
            }),
    {
        let n = match width.checked_mul(width) {
            Some(n) => n,
            None => {
                return Err(MinesError::InvalidConfiguration);
            },
        };
        if mine_count == 0 || mine_count >= n {
            return Err(MinesError::InvalidConfiguration);
        }
        let mut mines: Vec<bool> = Vec::new();
        let mut i: usize = 0;
        while i < n
            invariant
                i <= n,
                mines@.len() == i,
                forall|t: int| 0 <= t < i ==> !(#[trigger] mines@[t]),
            decreases n - i,
        {
            mines.push(false);
            i = i + 1;
        }
        proof {
            lemma_trues_upto_none(mines@, n as int);
        }
        let mut placed: usize = 0;
        while placed < mine_count
            invariant
                placed <= mine_count,
                mine_count < n,
                mines@.len() == n,
                trues_upto(mines@, n as int) == placed,
            decreases mine_count - placed,
        {
            let draw = crate::rng::random_usize() % (n - placed);
            let pos = kth_free(&mines, draw);
            let ghost prev = mines@;
            mines.set(pos, true);
            proof {
                lemma_trues_upto_update(prev, pos as int, n as int);
            }
            placed = placed + 1;
        }
        Self::with_mine_layout(width, &mines)
    }
}

/// Whether `v` holds the index `x`.
fn contains_idx(v: &Vec<usize>, x: usize) -> (r: bool)
    ensures
        r == v@.contains(x),
{
    let mut i: usize = 0;
    while i < v.len()
        invariant
            i <= v@.len(),
            forall|t: int| 0 <= t < i ==> v@[t] != x,
        decreases v@.len() - i,
    {
        if v[i] == x {
            return true;
        }
        i = i + 1;
    }
    false
}

/// `j` lies next to some revealed cell whose neighboring-mine count is
/// zero: the only way a cell other than the requested one becomes revealed
/// during a reveal call.
pub open spec fn touches_revealed_zero(cells: Seq<Cell>, w: int, j: int) -> bool {
    exists|k: int|
        0 <= k < cells.len() && #[trigger] is_neighbor(w, k, j) && cells[k].is_revealed
            && cells[k].neighbor_mine_count == 0
}

/// Whoever touched a revealed zero cell keeps touching one when cells only
/// become more revealed and the stored counts stay put.
proof fn lemma_touches_monotone(c1: Seq<Cell>, c2: Seq<Cell>, w: int, j: int)
    requires
        c1.len() == c2.len(),
        touches_revealed_zero(c1, w, j),
        forall|t: int| 0 <= t < c1.len() && c1[t].is_revealed ==> (#[trigger] c2[t]).is_revealed,
        forall|t: int|
            0 <= t < c1.len() ==> (#[trigger] c2[t]).neighbor_mine_count
                == c1[t].neighbor_mine_count,
    ensures
        touches_revealed_zero(c2, w, j),
{
    let k = choose|k: int|
        0 <= k < c1.len() && #[trigger] is_neighbor(w, k, j) && c1[k].is_revealed
            && c1[k].neighbor_mine_count == 0;
    assert(0 <= k < c2.len() && is_neighbor(w, k, j) && c2[k].is_revealed
        && c2[k].neighbor_mine_count == 0);
}

/// `j` can be reached from `i` within `fuel` steps by a chain that leaves
/// each intermediate cell only through a cell whose neighboring-mine count
/// is zero: `j` is `i` itself, or a grid neighbor of a zero-count cell that
/// is so reachable. This is the region flood reveal exposes: the connected
/// zero-count region around `i` together with its numbered border.
pub open spec fn zero_reaches(cells: Seq<Cell>, w: int, i: int, j: int, fuel: nat) -> bool
    decreases fuel,
{
    if j == i {
        true
    } else if fuel == 0 {
        false
    } else {
        exists|k: int|
            0 <= k < cells.len() && #[trigger] is_neighbor(w, k, j)
                && cells[k].neighbor_mine_count == 0 && zero_reaches(
                cells,
                w,
                i,
                k,
                (fuel - 1) as nat,
            )
    }
}

/// `j` lies in the flood region of `i`: reachable in some number of steps.
pub open spec fn zero_connected(cells: Seq<Cell>, w: int, i: int, j: int) -> bool {
    exists|fuel: nat| #[trigger] zero_reaches(cells, w, i, j, fuel)
}

impl Board {
    /// Flood-fill coverage law: on a well-formed board, once a cell is
    /// revealed, every cell of its flood region — the connected zero-count
    /// region around it together with its numbered border — is revealed as
    /// well. With the reveal contract's converse clause (a newly revealed
    /// cell other than the requested one is always zero-connected to it),
    /// this pins the flood reveal to exactly that closure.
    pub proof fn lemma_flood_coverage(self, start: int, j: int, fuel: nat)
        requires
            self.zero_closed(),
            self.spec_cells().len() == self.size(),
            0 <= start < self.size(),
            self.spec_cells()[start].is_revealed,
            zero_reaches(self.spec_cells(), self.spec_width(), start, j, fuel),
        ensures
            self.spec_cells()[j].is_revealed,
        decreases fuel,
    {
        if j != start {
            let k = choose|k: int|
                0 <= k < self.spec_cells().len() && #[trigger] is_neighbor(
                    self.spec_width(),
                    k,
                    j,
                ) && self.spec_cells()[k].neighbor_mine_count == 0 && zero_reaches(
                    self.spec_cells(),
                    self.spec_width(),
                    start,
                    k,
                    (fuel - 1) as nat,
                );
            self.lemma_flood_coverage(start, k, (fuel - 1) as nat);
        }
    }
}

impl Board {
    /// Flood reveal: reveals `start`, then spreads outward from every
    /// revealed zero-count cell to all of its grid neighbors, until the
    /// connected zero region and its numbered border are exposed. Each
    /// index is enqueued at most once, which bounds the traversal by the
    /// grid size.
    #[verifier::rlimit(100)]
    #[verifier::spinoff_prover]
    fn flood(&mut self, start: usize)
        requires
            old(self).spec_width() >= 1,
            old(self).size() <= usize::MAX,
            old(self).spec_cells().len() == old(self).size(),
            old(self).counts_consistent(),
            old(self).zero_closed(),
            (start as int) < old(self).size(),
            !old(self).spec_cells()[start as int].is_mine,
        ensures
            final(self).spec_width() == old(self).spec_width(),
            final(self).spec_mine_count() == old(self).spec_mine_count(),
            final(self).spec_state() == old(self).spec_state(),
            final(self).spec_cells().len() == old(self).spec_cells().len(),
            forall|t: int|
                0 <= t < final(self).size() ==> (#[trigger] final(self).spec_cells()[t]).is_mine
                    == old(self).spec_cells()[t].is_mine && final(self).spec_cells()[t].neighbor_mine_count == old(
                    self,
                ).spec_cells()[t].neighbor_mine_count,
            forall|t: int|
                0 <= t < final(self).size() && old(self).spec_cells()[t].is_revealed ==> (
                #[trigger] final(self).spec_cells()[t]).is_revealed,
            final(self).spec_cells()[start as int].is_revealed,
            forall|t: int|
                0 <= t < final(self).size() && (#[trigger] final(self).spec_cells()[t]).is_mine
                    ==> final(self).spec_cells()[t].is_revealed == old(
                    self,
                ).spec_cells()[t].is_revealed,
            final(self).zero_closed(),
            forall|j: int|
                0 <= j < final(self).size() && (#[trigger] final(self).spec_cells()[j]).is_revealed
                    && !old(self).spec_cells()[j].is_revealed && j != start
                    ==> touches_revealed_zero(
                    final(self).spec_cells(),
                    final(self).spec_width(),
                    j,
                ),
            forall|j: int|
                0 <= j < final(self).size() && (#[trigger] final(self).spec_cells()[j]).is_revealed
                    && !old(self).spec_cells()[j].is_revealed && j != start ==> zero_connected(
                    old(self).spec_cells(),
                    old(self).spec_width(),
                    start as int,
                    j,
                ),
    {
        let w = self.width;
        let n = self.cells.len();
        let mut to_check: Vec<usize> = Vec::new();
        to_check.push(start);
        proof {
            assert(to_check@[0] == start);
        }
        let mut checked: Vec<usize> = Vec::new();
        while to_check.len() > 0
            invariant
                w as int == old(self).spec_width(),
                w >= 1,
                n as int == old(self).size(),
                n as int <= usize::MAX,
                old(self).spec_cells().len() == n as int,
                old(self).counts_consistent(),
                (start as int) < n as int,
                !old(self).spec_cells()[start as int].is_mine,
                self.spec_width() == old(self).spec_width(),
                self.spec_mine_count() == old(self).spec_mine_count(),
                self.spec_state() == old(self).spec_state(),
                self.spec_cells().len() == n as int,
                forall|t: int|
                    0 <= t < n ==> (#[trigger] self.spec_cells()[t]).is_mine == old(
                        self,
                    ).spec_cells()[t].is_mine && self.spec_cells()[t].neighbor_mine_count == old(
                        self,
                    ).spec_cells()[t].neighbor_mine_count,
                forall|t: int|
                    0 <= t < n && old(self).spec_cells()[t].is_revealed ==> (
                    #[trigger] self.spec_cells()[t]).is_revealed,
                forall|t: int|
                    0 <= t < n && (#[trigger] self.spec_cells()[t]).is_mine
                        ==> self.spec_cells()[t].is_revealed == old(
                        self,
                    ).spec_cells()[t].is_revealed,
                forall|t: int|
                    0 <= t < to_check@.len() ==> (#[trigger] to_check@[t] as int) < n
                        && !self.spec_cells()[to_check@[t] as int].is_mine && (to_check@[t] == start
                        || touches_revealed_zero(
                        self.spec_cells(),
                        w as int,
                        to_check@[t] as int,
                    )),
                forall|t: int|
                    0 <= t < checked@.len() ==> (#[trigger] checked@[t] as int) < n
                        && self.spec_cells()[checked@[t] as int].is_revealed,
                to_check@.no_duplicates(),
                checked@.no_duplicates(),
                forall|a: int, b: int|
                    0 <= a < checked@.len() && 0 <= b < to_check@.len() ==> #[trigger] checked@[a]
                        != #[trigger] to_check@[b],
                forall|j: int|
                    0 <= j < n && (#[trigger] self.spec_cells()[j]).is_revealed && !old(
                        self,
                    ).spec_cells()[j].is_revealed && j != start ==> touches_revealed_zero(
                        self.spec_cells(),
                        w as int,
                        j,
                    ),
                forall|t: int|
                    0 <= t < to_check@.len() ==> (#[trigger] to_check@[t]) == start
                        || zero_connected(
                        old(self).spec_cells(),
                        w as int,
                        start as int,
                        to_check@[t] as int,
                    ),
                forall|j: int|
                    0 <= j < n && (#[trigger] self.spec_cells()[j]).is_revealed && !old(
                        self,
                    ).spec_cells()[j].is_revealed && j != start ==> zero_connected(
                        old(self).spec_cells(),
                        w as int,
                        start as int,
                        j,
                    ),
                forall|k: int, j: int|
                    0 <= k < n && self.spec_cells()[k].is_revealed
                        && self.spec_cells()[k].neighbor_mine_count == 0 && #[trigger] is_neighbor(
                        w as int,
                        k,
                        j,
                    ) ==> self.spec_cells()[j].is_revealed || to_check@.contains(j as usize),
                self.spec_cells()[start as int].is_revealed || to_check@.contains(start),
                checked@.len() <= n,
            decreases n - checked@.len(),
        {
            let ghost pre_tc = to_check@;
            let pos = to_check.pop().unwrap();
            proof {
                assert(pre_tc =~= to_check@.push(pos));
                assert forall|x: usize| pre_tc.contains(x) && x != pos implies to_check@.contains(
                    x,
                ) by {
                    let t = choose|t: int| 0 <= t < pre_tc.len() && pre_tc[t] == x;
                    assert(to_check@[t] == x);
                }
                if pos != start && !self.spec_cells()[start as int].is_revealed {
                    assert(pre_tc.contains(start));
                }
            }
            checked.push(pos);
            proof {
                assert(checked@.no_duplicates());
                lemma_distinct_bounded(checked@, n as int);
            }
            let mut cell = self.cells[pos];
            cell.is_revealed = true;
            let ghost prev_cells = self.cells@;
            self.cells.set(pos, cell);
            proof {
                assert forall|t: int|
                    0 <= t < to_check@.len() && to_check@[t] != start implies touches_revealed_zero(
                    self.spec_cells(),
                    w as int,
                    to_check@[t] as int,
                ) by {
                    lemma_touches_monotone(prev_cells, self.spec_cells(), w as int, to_check@[t] as int);
                }
                assert forall|j: int|
                    0 <= j < n && (#[trigger] self.spec_cells()[j]).is_revealed && !old(
                        self,
                    ).spec_cells()[j].is_revealed && j != start implies touches_revealed_zero(
                    self.spec_cells(),
                    w as int,
                    j,
                ) by {
                    if prev_cells[j].is_revealed {
                        lemma_touches_monotone(prev_cells, self.spec_cells(), w as int, j);
                    } else {
                        assert(j == pos as int);
                        assert(pre_tc[pre_tc.len() - 1] == pos);
                        lemma_touches_monotone(prev_cells, self.spec_cells(), w as int, j);
                    }
                }
            }
            if self.cells[pos].neighbor_mine_count == 0 {
                let mut j: usize = 0;
                while j < n
                    invariant
                        j <= n,
                        w as int == old(self).spec_width(),
                        w >= 1,
                        n as int == old(self).size(),
                        n as int <= usize::MAX,
                        old(self).spec_cells().len() == n as int,
                        old(self).counts_consistent(),
                        (start as int) < n as int,
                        !old(self).spec_cells()[start as int].is_mine,
                        self.spec_width() == old(self).spec_width(),
                        self.spec_mine_count() == old(self).spec_mine_count(),
                        self.spec_state() == old(self).spec_state(),
                        self.spec_cells().len() == n as int,
                        (pos as int) < n as int,
                        self.spec_cells()[pos as int].is_revealed,
                        self.spec_cells()[pos as int].neighbor_mine_count == 0,
                        forall|t: int|
                            0 <= t < n ==> (#[trigger] self.spec_cells()[t]).is_mine == old(
                                self,
                            ).spec_cells()[t].is_mine && self.spec_cells()[t].neighbor_mine_count
                                == old(self).spec_cells()[t].neighbor_mine_count,
                        forall|t: int|
                            0 <= t < n && old(self).spec_cells()[t].is_revealed ==> (
                            #[trigger] self.spec_cells()[t]).is_revealed,
                        forall|t: int|
                            0 <= t < n && (#[trigger] self.spec_cells()[t]).is_mine
                                ==> self.spec_cells()[t].is_revealed == old(
                                self,
                            ).spec_cells()[t].is_revealed,
                        forall|t: int|
                            0 <= t < to_check@.len() ==> (#[trigger] to_check@[t] as int) < n
                                && !self.spec_cells()[to_check@[t] as int].is_mine && (to_check@[t]
                                == start || touches_revealed_zero(
                                self.spec_cells(),
                                w as int,
                                to_check@[t] as int,
                            )),
                        forall|t: int|
                            0 <= t < checked@.len() ==> (#[trigger] checked@[t] as int) < n
                                && self.spec_cells()[checked@[t] as int].is_revealed,
                        to_check@.no_duplicates(),
                        checked@.no_duplicates(),
                        forall|a: int, b: int|
                            0 <= a < checked@.len() && 0 <= b < to_check@.len()
                                ==> #[trigger] checked@[a] != #[trigger] to_check@[b],
                        forall|jx: int|
                            0 <= jx < n && (#[trigger] self.spec_cells()[jx]).is_revealed && !old(
                                self,
                            ).spec_cells()[jx].is_revealed && jx != start
                                ==> touches_revealed_zero(self.spec_cells(), w as int, jx),
                        pos == start || zero_connected(
                            old(self).spec_cells(),
                            w as int,
                            start as int,
                            pos as int,
                        ),
                        forall|t: int|
                            0 <= t < to_check@.len() ==> (#[trigger] to_check@[t]) == start
                                || zero_connected(
                                old(self).spec_cells(),
                                w as int,
                                start as int,
                                to_check@[t] as int,
                            ),
                        forall|jx: int|
                            0 <= jx < n && (#[trigger] self.spec_cells()[jx]).is_revealed && !old(
                                self,
                            ).spec_cells()[jx].is_revealed && jx != start ==> zero_connected(
                                old(self).spec_cells(),
                                w as int,
                                start as int,
                                jx,
                            ),
                        forall|k: int, jx: int|
                            0 <= k < n && k != pos as int && self.spec_cells()[k].is_revealed
                                && self.spec_cells()[k].neighbor_mine_count == 0
                                && #[trigger] is_neighbor(w as int, k, jx)
                                ==> self.spec_cells()[jx].is_revealed || to_check@.contains(
                                jx as usize,
                            ),
                        forall|jx: int|
                            0 <= jx < j && #[trigger] is_neighbor(w as int, pos as int, jx)
                                ==> self.spec_cells()[jx].is_revealed || to_check@.contains(
                                jx as usize,
                            ),
                        self.spec_cells()[start as int].is_revealed || to_check@.contains(start),
                        checked@.len() <= n,
                    decreases n - j,
                {
                    if is_adjacent(w, pos, j) {
                        proof {
                            lemma_adjacent_mines_same(
                                old(self).spec_cells(),
                                self.spec_cells(),
                                w as int,
                                pos as int,
                            );
                            lemma_no_adjacent_mine(
                                self.spec_cells(),
                                w as int,
                                pos as int,
                                j as int,
                            );
                        }
                        let in_checked = contains_idx(&checked, j);
                        proof {
                            if checked@.contains(j) {
                                let t = choose|t: int|
                                    0 <= t < checked@.len() && checked@[t] == j;
                                assert(self.spec_cells()[checked@[t] as int].is_revealed);
                            }
                        }
                        if !in_checked && !contains_idx(&to_check, j) {
                            let ghost pre_push = to_check@;
                            to_check.push(j);
                            proof {
                                assert(to_check@[to_check@.len() - 1] == j);
                                assert(touches_revealed_zero(self.spec_cells(), w as int, j as int));
                                if j as int != start as int {
                                    if pos == start {
                                        assert(zero_reaches(
                                            old(self).spec_cells(),
                                            w as int,
                                            start as int,
                                            start as int,
                                            0,
                                        ));
                                        assert(zero_reaches(
                                            old(self).spec_cells(),
                                            w as int,
                                            start as int,
                                            j as int,
                                            1,
                                        ));
                                    } else {
                                        let f = choose|f: nat|
                                            #[trigger] zero_reaches(
                                                old(self).spec_cells(),
                                                w as int,
                                                start as int,
                                                pos as int,
                                                f,
                                            );
                                        assert(zero_reaches(
                                            old(self).spec_cells(),
                                            w as int,
                                            start as int,
                                            j as int,
                                            f + 1,
                                        ));
                                    }
                                }
                                assert forall|x: usize| pre_push.contains(x) implies to_check@.contains(
                                    x,
                                ) by {
                                    let t = choose|t: int|
                                        0 <= t < pre_push.len() && pre_push[t] == x;
                                    assert(to_check@[t] == x);
                                }
                            }
                        }
                    }
                    j = j + 1;
                }
            }
        }
    }
}

impl Board {
    /// Handles a reveal request for the cell at `index` and returns the
    /// resulting game state. An index outside the grid is rejected with
    /// `IndexOutOfBounds`. A call on a finished game or on an already
    /// revealed cell is a no-op that reports the current state. Revealing
    /// a mine reveals the whole board and loses the game; revealing a safe
    /// cell reveals it, floods outward when its count is zero, and wins
    /// the game the moment every safe cell is revealed.
    #[verifier::rlimit(100)]
    #[verifier::spinoff_prover]
    pub fn reveal_cell(&mut self, index: usize) -> (r: Result<GameState, MinesError>)
        requires
            old(self).wf(),
        ensures
            final(self).wf(),
            final(self).spec_width() == old(self).spec_width(),
            final(self).spec_mine_count() == old(self).spec_mine_count(),
            final(self).spec_cells().len() == old(self).spec_cells().len(),
            forall|t: int|
                0 <= t < final(self).size() ==> (#[trigger] final(self).spec_cells()[t]).is_mine
                    == old(self).spec_cells()[t].is_mine && final(self).spec_cells()[t].neighbor_mine_count == old(
                    self,
                ).spec_cells()[t].neighbor_mine_count,
            forall|t: int|
                0 <= t < final(self).size() && old(self).spec_cells()[t].is_revealed ==> (
                #[trigger] final(self).spec_cells()[t]).is_revealed,
            r is Err <==> (index as int) >= old(self).size(),
            r is Err ==> r->Err_0 == MinesError::IndexOutOfBounds,
            r is Ok ==> r->Ok_0 == final(self).spec_state(),
            (index as int) >= old(self).size() || old(self).spec_state() != GameState::InProgress
                || old(self).spec_cells()[index as int].is_revealed ==> final(self).spec_cells()
                == old(self).spec_cells() && final(self).spec_state() == old(self).spec_state(),
            (index as int) < old(self).size() && old(self).spec_state() == GameState::InProgress
                && !old(self).spec_cells()[index as int].is_revealed && old(
                self,
            ).spec_cells()[index as int].is_mine ==> final(self).spec_state() == GameState::Lost
                && (forall|t: int|
                0 <= t < final(self).size() ==> (#[trigger] final(self).spec_cells()[t]).is_revealed),
            (index as int) < old(self).size() && old(self).spec_state() == GameState::InProgress
                && !old(self).spec_cells()[index as int].is_revealed && !old(
                self,
            ).spec_cells()[index as int].is_mine ==> ({
                let cells = final(self).spec_cells();
                &&& cells[index as int].is_revealed
                &&& final(self).spec_state() != GameState::Lost
                &&& (final(self).spec_state() == GameState::Won <==> total_revealed(cells) == final(self).size() - final(self).spec_mine_count())
                &&& (final(self).spec_state() == GameState::InProgress <==> total_revealed(cells)
                    < final(self).size() - final(self).spec_mine_count())
                &&& (old(self).spec_cells()[index as int].neighbor_mine_count != 0 ==> forall|
                    t: int,
                |
                    0 <= t < final(self).size() && t != index as int ==> (
                    #[trigger] cells[t]).is_revealed == old(self).spec_cells()[t].is_revealed)
                &&& (forall|j: int|
                    0 <= j < final(self).size() && (#[trigger] cells[j]).is_revealed && !old(
                        self,
                    ).spec_cells()[j].is_revealed && j != index as int ==> touches_revealed_zero(
                        cells,
                        final(self).spec_width(),
                        j,
                    ))
                &&& (forall|j: int|
                    0 <= j < final(self).size() && (#[trigger] cells[j]).is_revealed && !old(
                        self,
                    ).spec_cells()[j].is_revealed && j != index as int ==> zero_connected(
                        old(self).spec_cells(),
                        final(self).spec_width(),
                        index as int,
                        j,
                    ))
            }),
    {
        if index >= self.cells.len() {
            return Err(MinesError::IndexOutOfBounds);
        }
        match self.state {
            GameState::InProgress => {
            },
            _ => {
                return Ok(self.state);
            },
        }
        if self.cells[index].is_revealed {
            return Ok(self.state);
        }
        let n = self.cells.len();
        if self.cells[index].is_mine {
            let mut i: usize = 0;
            while i < n
                invariant
                    i <= n,
                    n as int == old(self).size(),
                    self.spec_width() == old(self).spec_width(),
                    self.spec_mine_count() == old(self).spec_mine_count(),
                    self.spec_state() == old(self).spec_state(),
                    self.spec_cells().len() == n as int,
                    forall|t: int|
                        0 <= t < n ==> (#[trigger] self.spec_cells()[t]).is_mine == old(
                            self,
                        ).spec_cells()[t].is_mine
                            && self.spec_cells()[t].neighbor_mine_count == old(
                            self,
                        ).spec_cells()[t].neighbor_mine_count,
                    forall|t: int| 0 <= t < i ==> (#[trigger] self.spec_cells()[t]).is_revealed,
                    forall|t: int|
                        i <= t < n ==> #[trigger] self.spec_cells()[t] == old(
                            self,
                        ).spec_cells()[t],
                decreases n - i,
            {
                let mut cell = self.cells[i];
                cell.is_revealed = true;
                self.cells.set(i, cell);
                i = i + 1;
            }
            self.state = GameState::Lost;
            proof {
                lemma_counts_preserved(
                    old(self).spec_cells(),
                    self.spec_cells(),
                    self.spec_width(),
                );
                lemma_mines_upto_same(old(self).spec_cells(), self.spec_cells(), n as int);
            }
            return Ok(GameState::Lost);
        }
        if self.cells[index].neighbor_mine_count == 0 {
            self.flood(index);
        } else {
            let mut cell = self.cells[index];
            cell.is_revealed = true;
            self.cells.set(index, cell);
            proof {
                assert forall|k: int, j: int|
                    0 <= k < self.size() && self.spec_cells()[k].is_revealed
                        && self.spec_cells()[k].neighbor_mine_count == 0 && #[trigger] is_neighbor(
                        self.spec_width(),
                        k,
                        j,
                    ) implies self.spec_cells()[j].is_revealed by {
                    if k != index as int {
                        assert(old(self).spec_cells()[k].is_revealed);
                    }
                }
            }
        }
        proof {
            lemma_counts_preserved(old(self).spec_cells(), self.spec_cells(), self.spec_width());
            lemma_mines_upto_same(old(self).spec_cells(), self.spec_cells(), n as int);
            assert(self.no_mine_revealed());
        }
        let rc = self.revealed_count();
        proof {
            lemma_revealed_mines_disjoint(self.spec_cells(), n as int);
        }
        if rc == n - self.mine_count {
            self.state = GameState::Won;
            proof {
                assert forall|t: int|
                    0 <= t < self.size() && !(#[trigger] self.spec_cells()[t]).is_mine
                    implies self.spec_cells()[t].is_revealed by {
                    if !self.spec_cells()[t].is_revealed {
                        lemma_revealed_mines_deficit(self.spec_cells(), n as int, t);
                    }
                }
            }
        }
        Ok(self.state)
    }
}

} // verus!
