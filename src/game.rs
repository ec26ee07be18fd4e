//! A match-three board: an 8x8 grid of coloured pieces, swaps of neighbouring
//! pieces, detection of runs of three or more, and the cascade that clears
//! them, lets the pieces above fall and refills the top row.

use vstd::prelude::*;

use crate::random::random_below;

verus! {

/// Number of rows of the board.
pub const ROWS: usize = 8;

/// Number of columns of the board.
pub const COLS: usize = 8;

/// Number of distinct colours.
pub const N_COLORS: usize = 6;

/// Points for a pass that removes three pieces.
pub const SCORE_3: u32 = 10;

/// Points for a pass that removes four pieces.
pub const SCORE_4: u32 = 20;

/// Points for a pass that removes five pieces or more.
pub const SCORE_5: u32 = 30;

/// Extra points for each pass after the first one of a move.
pub const FOLLOWUP_BONUS: u32 = 5;

/// The most points a single pass can give.
pub const MAX_PASS_SCORE: u32 = 35;

/// Colours of the pieces on the board.
#[derive(Debug, Clone, Copy, PartialEq, Eq, Structural)]
pub enum Color {
    Blue,
    Green,
    Orange,
    Purple,
    Red,
    White,
}

/// The colour with index `i` in the order of declaration.
pub open spec fn color_of(i: int) -> Color {
    if i == 0 {
        Color::Blue
    } else if i == 1 {
        Color::Green
    } else if i == 2 {
        Color::Orange
    } else if i == 3 {
        Color::Purple
    } else if i == 4 {
        Color::Red
    } else {
        Color::White
    }
}

impl Color {
    /// The colour with index `i` (0 is blue, 5 is white).
    pub fn from_index(i: usize) -> (c: Color)
        requires
            i < N_COLORS,
        ensures
            c == color_of(i as int),
    {
        match i {
            0 => Color::Blue,
            1 => Color::Green,
            2 => Color::Orange,
            3 => Color::Purple,
            4 => Color::Red,
            _ => Color::White,
        }
    }

    /// A colour drawn uniformly at random.
    pub fn rand() -> Color {
        Color::from_index(random_below(N_COLORS))
    }
}


/// A position on the board: (row, column).
pub type Cell = (usize, usize);

/// The colours of a board, row by row.
pub type Board = Seq<Seq<Color>>;

/// The colours held by a grid of rows.
pub open spec fn board_of(grid: Seq<Vec<Color>>) -> Board {
    Seq::new(grid.len(), |r: int| grid[r]@)
}

/// A board of `ROWS` rows of `COLS` colours each.
pub open spec fn well_sized(b: Board) -> bool {
    &&& b.len() == ROWS
    &&& forall|r: int| 0 <= r < ROWS ==> #[trigger] b[r].len() == COLS
}

/// The line through `cell`: its column when `vertical`, else its row.
pub open spec fn line(b: Board, cell: Cell, vertical: bool) -> Seq<Color> {
    if vertical {
        Seq::new(ROWS as nat, |r: int| b[r][cell.1 as int])
    } else {
        b[cell.0 as int]
    }
}

/// The position of `cell` along its line.
pub open spec fn pos(cell: Cell, vertical: bool) -> int {
    if vertical {
        cell.0 as int
    } else {
        cell.1 as int
    }
}

/// Three equal colours start at index `a` of the line.
pub open spec fn triple_at(l: Seq<Color>, a: int) -> bool {
    &&& 0 <= a
    &&& a + 2 < l.len()
    &&& l[a] == l[a + 1]
    &&& l[a + 1] == l[a + 2]
}

/// Index `i` of the line lies in three equal consecutive colours, that is in a
/// run of length three or more.
pub open spec fn in_triple(l: Seq<Color>, i: int) -> bool {
    triple_at(l, i - 2) || triple_at(l, i - 1) || triple_at(l, i)
}

/// The piece at `cell` belongs to a run of three or more, along its row or
/// along its column.
pub open spec fn marked(b: Board, cell: Cell) -> bool {
    in_triple(line(b, cell, false), cell.1 as int) || in_triple(line(b, cell, true), cell.0 as int)
}

/// No row and no column holds three equal colours in a row.
pub open spec fn stable(b: Board) -> bool {
    forall|r: usize, c: usize| r < ROWS && c < COLS ==> !#[trigger] marked(b, (r, c))
}

/// The marked cells of row `r` among its first `c` columns, left to right.
pub open spec fn row_marks(b: Board, r: usize, c: usize) -> Seq<Cell>
    decreases c,
{
    if c == 0 {
        seq![]
    } else {
        let prev = row_marks(b, r, (c - 1) as usize);
        if marked(b, (r, (c - 1) as usize)) {
            prev.push((r, (c - 1) as usize))
        } else {
            prev
        }
    }
}

/// The marked cells of the first `r` rows, in row-major order.
pub open spec fn marks_upto(b: Board, r: usize) -> Seq<Cell>
    decreases r,
{
    if r == 0 {
        seq![]
    } else {
        marks_upto(b, (r - 1) as usize) + row_marks(b, (r - 1) as usize, COLS)
    }
}

/// Cell `a` comes before cell `b` in row-major order.
pub open spec fn before(a: Cell, b: Cell) -> bool {
    a.0 < b.0 || (a.0 == b.0 && a.1 < b.1)
}

/// The cells that a pass removes: every marked cell, once, in row-major
/// order (so by ascending row).
pub open spec fn removal_list(b: Board) -> Seq<Cell> {
    marks_upto(b, ROWS)
}

/// How far the run through index `i` of the line reaches, forward or backward.
pub open spec fn reach(l: Seq<Color>, i: int, forward: bool) -> int
    decreases (if forward { l.len() - i } else { i }),
{
    if forward {
        if 0 <= i && i + 1 < l.len() && l[i + 1] == l[i] {
            reach(l, i + 1, true)
        } else {
            i
        }
    } else {
        if 0 < i < l.len() && l[i - 1] == l[i] {
            reach(l, i - 1, false)
        } else {
            i
        }
    }
}


proof fn lemma_reach_forward(l: Seq<Color>, i: int)
    requires
        0 <= i < l.len(),
    ensures
        i <= reach(l, i, true) < l.len(),
        forall|k: int| i <= k <= reach(l, i, true) ==> #[trigger] l[k] == l[i],
        reach(l, i, true) + 1 < l.len() ==> l[reach(l, i, true) + 1] != l[i],
    decreases l.len() - i,
{
    if i + 1 < l.len() && l[i + 1] == l[i] {
        lemma_reach_forward(l, i + 1);
    }
}

proof fn lemma_reach_backward(l: Seq<Color>, i: int)
    requires
        0 <= i < l.len(),
    ensures
        0 <= reach(l, i, false) <= i,
        forall|k: int| reach(l, i, false) <= k <= i ==> #[trigger] l[k] == l[i],
        reach(l, i, false) > 0 ==> l[reach(l, i, false) - 1] != l[i],
    decreases i,
{
    if 0 < i && l[i - 1] == l[i] {
        lemma_reach_backward(l, i - 1);
    }
}

/// The run through `i` spans three cells or more exactly when `i` lies in
/// three equal consecutive colours.
proof fn lemma_run_length(l: Seq<Color>, i: int)
    requires
        0 <= i < l.len(),
    ensures
        reach(l, i, true) - reach(l, i, false) >= 2 <==> in_triple(l, i),
{
    lemma_reach_forward(l, i);
    lemma_reach_backward(l, i);
    let lo = reach(l, i, false);
    let hi = reach(l, i, true);
    if hi - lo >= 2 {
        let a = if i < hi - 2 { i } else { hi - 2 };
        assert(l[a] == l[i] && l[a + 1] == l[i] && l[a + 2] == l[i]);
        assert(triple_at(l, a));
    }
    if in_triple(l, i) {
        let a = if triple_at(l, i - 2) { i - 2 } else if triple_at(l, i - 1) { i - 1 } else { i };
        assert(triple_at(l, a));
        if lo > a {
            assert(l[lo - 1] == l[i]);
        }
        if hi < a + 2 {
            assert(l[hi + 1] == l[i]);
        }
    }
}

proof fn lemma_row_marks(b: Board, r: usize, c: usize)
    requires
        c <= COLS,
    ensures
        row_marks(b, r, c).len() <= c,
        forall|k: int|
            0 <= k < row_marks(b, r, c).len() ==> (#[trigger] row_marks(b, r, c)[k]).0 == r
                && row_marks(b, r, c)[k].1 < c,
        forall|i: int, j: int|
            0 <= i < j < row_marks(b, r, c).len() ==> before(
                #[trigger] row_marks(b, r, c)[i],
                #[trigger] row_marks(b, r, c)[j],
            ),
    decreases c,
{
    if c > 0 {
        lemma_row_marks(b, r, (c - 1) as usize);
    }
}

proof fn lemma_row_marks_grow(b: Board, r: usize, c1: usize, c2: usize)
    requires
        c1 <= c2,
    ensures
        row_marks(b, r, c1).len() <= row_marks(b, r, c2).len(),
    decreases c2,
{
    if c1 < c2 {
        lemma_row_marks_grow(b, r, c1, (c2 - 1) as usize);
    }
}

proof fn lemma_marks_upto(b: Board, r: usize)
    requires
        r <= ROWS,
    ensures
        marks_upto(b, r).len() <= COLS * r,
        forall|k: int|
            0 <= k < marks_upto(b, r).len() ==> (#[trigger] marks_upto(b, r)[k]).0 < r
                && marks_upto(b, r)[k].1 < COLS,
        forall|i: int, j: int|
            0 <= i < j < marks_upto(b, r).len() ==> before(
                #[trigger] marks_upto(b, r)[i],
                #[trigger] marks_upto(b, r)[j],
            ),
    decreases r,
{
    if r > 0 {
        let p = (r - 1) as usize;
        lemma_marks_upto(b, p);
        lemma_row_marks(b, p, COLS);
        let front = marks_upto(b, p);
        let back = row_marks(b, p, COLS);
        assert(marks_upto(b, r) == front + back);
        assert forall|k: int| 0 <= k < marks_upto(b, r).len() implies (#[trigger] marks_upto(
            b,
            r,
        )[k]).0 < r && marks_upto(b, r)[k].1 < COLS by {
            if k >= front.len() {
                assert(marks_upto(b, r)[k] == back[k - front.len()]);
            }
        }
        assert forall|i: int, j: int| 0 <= i < j < marks_upto(b, r).len() implies before(
            #[trigger] marks_upto(b, r)[i],
            #[trigger] marks_upto(b, r)[j],
        ) by {
            if j >= front.len() {
                assert(marks_upto(b, r)[j] == back[j - front.len()]);
                if i >= front.len() {
                    assert(marks_upto(b, r)[i] == back[i - front.len()]);
                }
            }
        }
    }
}

proof fn lemma_marks_upto_grow(b: Board, r1: usize, r2: usize)
    requires
        r1 < r2,
    ensures
        marks_upto(b, r2).len() >= marks_upto(b, r1).len() + row_marks(b, r1, COLS).len(),
    decreases r2,
{
    if r1 + 1 < r2 {
        lemma_marks_upto_grow(b, r1, (r2 - 1) as usize);
    }
}

proof fn lemma_no_marks_in_stable_row(b: Board, r: usize, c: usize)
    requires
        stable(b),
        r < ROWS,
        c <= COLS,
    ensures
        row_marks(b, r, c).len() == 0,
    decreases c,
{
    if c > 0 {
        lemma_no_marks_in_stable_row(b, r, (c - 1) as usize);
        assert(!marked(b, (r, (c - 1) as usize)));
    }
}

proof fn lemma_no_marks_in_stable(b: Board, r: usize)
    requires
        stable(b),
        r <= ROWS,
    ensures
        marks_upto(b, r).len() == 0,
    decreases r,
{
    if r > 0 {
        lemma_no_marks_in_stable(b, (r - 1) as usize);
        lemma_no_marks_in_stable_row(b, (r - 1) as usize, COLS);
    }
}

proof fn lemma_marked_row(b: Board, r: usize, c: usize)
    requires
        c < COLS,
        marked(b, (r, c)),
    ensures
        row_marks(b, r, COLS).len() >= 1,
{
    assert(row_marks(b, r, (c + 1) as usize).len() == row_marks(b, r, c).len() + 1);
    lemma_row_marks_grow(b, r, (c + 1) as usize, COLS);
}

/// Facts on the removal list of a well-sized board: its cells lie on the
/// board, in row-major order with no cell twice (so by ascending row); it is
/// empty exactly when the board is stable, and otherwise holds three cells
/// or more.
pub proof fn lemma_removal_list(b: Board)
    requires
        well_sized(b),
    ensures
        removal_list(b).len() <= ROWS * COLS,
        forall|k: int|
            0 <= k < removal_list(b).len() ==> (#[trigger] removal_list(b)[k]).0 < ROWS
                && removal_list(b)[k].1 < COLS,
        forall|i: int, j: int|
            0 <= i < j < removal_list(b).len() ==> before(
                #[trigger] removal_list(b)[i],
                #[trigger] removal_list(b)[j],
            ),
        stable(b) <==> removal_list(b).len() == 0,
        !stable(b) ==> removal_list(b).len() >= 3,
{
    lemma_marks_upto(b, ROWS);
    if stable(b) {
        lemma_no_marks_in_stable(b, ROWS);
    } else {
        let (r, c) = choose|r: usize, c: usize| r < ROWS &&
            c < COLS && #[trigger] marked(b, (r, c));
        let row = line(b, (r, c), false);
        let col = line(b, (r, c), true);
        if in_triple(row, c as int) {
            let a: int = if triple_at(row, c - 2) {
                c - 2
            } else if triple_at(row, c - 1) {
                c - 1
            } else {
                c as int
            };
            let (a0, a1, a2) = (a as usize, (a + 1) as usize, (a + 2) as usize);
            assert(marked(b, (r, a0)) && line(b, (r, a0), false) == row);
            assert(marked(b, (r, a1)) && line(b, (r, a1), false) == row);
            assert(marked(b, (r, a2)) && line(b, (r, a2), false) == row);
            let before = row_marks(b, r, a0).len();
            assert(row_marks(b, r, a1).len() == before + 1);
            assert(row_marks(b, r, a2).len() == before + 2);
            assert(row_marks(b, r, (a + 3) as usize).len() == before + 3);
            lemma_row_marks_grow(b, r, (a + 3) as usize, COLS);
            lemma_marks_upto_grow(b, r, ROWS);
        } else {
            let a: int = if triple_at(col, r - 2) {
                r - 2
            } else if triple_at(col, r - 1) {
                r - 1
            } else {
                r as int
            };
            assert(line(b, (a as usize, c), true) =~= col);
            assert(line(b, ((a + 1) as usize, c), true) =~= col);
            assert(line(b, ((a + 2) as usize, c), true) =~= col);
            lemma_marked_row(b, a as usize, c);
            lemma_marked_row(b, (a + 1) as usize, c);
            lemma_marked_row(b, (a + 2) as usize, c);
            assert(row_marks(b, a as usize, COLS).len() >= 1);
            assert(row_marks(b, (a + 1) as usize, COLS).len() >= 1);
            assert(row_marks(b, (a + 2) as usize, COLS).len() >= 1);
            lemma_marks_upto_grow(b, a as usize, (a + 1) as usize);
            lemma_marks_upto_grow(b, (a + 1) as usize, (a + 2) as usize);
            lemma_marks_upto_grow(b, (a + 2) as usize, (a + 3) as usize);
            if a + 3 < ROWS {
                lemma_marks_upto_grow(b, (a + 2) as usize, ROWS);
                lemma_marks_upto_grow(b, (a + 3) as usize, ROWS);
            }
        }
    }
}

/// A swap of the pieces at (`row1`, `col1`) and (`row2`, `col2`).
#[derive(Debug, Clone, Copy, PartialEq, Eq, Structural)]
pub struct Move {
    pub row1: usize,
    pub col1: usize,
    pub row2: usize,
    pub col2: usize,
}

/// Two indices that differ by exactly one.
pub open spec fn adjacent(a: usize, b: usize) -> bool {
    a + 1 == b || b + 1 == a
}

/// Both cells lie on the board.
pub open spec fn on_board(m: Move) -> bool {
    m.row1 < ROWS && m.col1 < COLS && m.row2 < ROWS && m.col2 < COLS
}

/// Both cells lie on the board and are neighbours along a row or a column.
pub open spec fn valid_move(m: Move) -> bool {
    &&& on_board(m)
    &&& (m.row1 == m.row2 && adjacent(m.col1, m.col2)) || (m.col1 == m.col2 && adjacent(
        m.row1,
        m.row2,
    ))
}

impl Move {
    /// A move is valid if it concerns two neighbouring cells and does not
    /// leave the grid.
    pub fn is_valid(&self) -> (r: bool)
        ensures
            r == valid_move(*self),
    {
        self.row1 < ROWS && self.col1 < COLS && self.row2 < ROWS && self.col2 < COLS && (
        (self.row1 == self.row2 && (self.col1 + 1 == self.col2 || self.col2 + 1 == self.col1)) || (
        self.col1 == self.col2 && (self.row1 + 1 == self.row2 || self.row2 + 1 == self.row1)))
    }
}

/// The board with colour `x` at (`r`, `c`).
pub open spec fn set_cell(b: Board, r: int, c: int, x: Color) -> Board {
    b.update(r, b[r].update(c, x))
}

/// The board with the two pieces of `m` swapped.
pub open spec fn swapped(b: Board, m: Move) -> Board {
    let (r1, c1, r2, c2) = (m.row1 as int, m.col1 as int, m.row2 as int, m.col2 as int);
    set_cell(set_cell(b, r1, c1, b[r2][c2]), r2, c2, b[r1][c1])
}

/// Swapping the same two pieces twice gives back the board.
pub proof fn lemma_swap_twice(b: Board, m: Move)
    requires
        well_sized(b),
        on_board(m),
    ensures
        swapped(swapped(b, m), m) == b,
{
    assert(swapped(swapped(b, m), m) =~~= b);
}

/// The board once the piece at `cell` is gone: the pieces above it in its
/// column fall by one and `fresh` fills the top of that column.
pub open spec fn dropped(b: Board, cell: Cell, fresh: Color) -> Board {
    let (row, col) = (cell.0 as int, cell.1 as int);
    Seq::new(
        b.len(),
        |r: int|
            if r <= row {
                b[r].update(col, if r == 0 { fresh } else { b[r - 1][col] })
            } else {
                b[r]
            },
    )
}

/// The board once the first `k` cells of `cells` are gone, one after the
/// other, the `i`th refilled with `refills[i]`.
pub open spec fn removed_upto(b: Board, cells: Seq<Cell>, refills: Seq<Color>, k: nat) -> Board
    decreases k,
{
    if k == 0 {
        b
    } else {
        dropped(removed_upto(b, cells, refills, (k - 1) as nat), cells[k - 1], refills[k - 1])
    }
}

/// The board once all of `cells` are gone, in order.
pub open spec fn after_removal(b: Board, cells: Seq<Cell>, refills: Seq<Color>) -> Board {
    removed_upto(b, cells, refills, cells.len())
}

/// Points for a pass that removes `removed` pieces: nothing under three,
/// then by the total count of the pass (not by run), capped at the tier of
/// five, plus the bonus on every pass but the first of a move.
pub open spec fn tier(removed: nat, first_loop: bool) -> nat {
    if removed < 3 {
        0
    } else {
        let base = if removed == 3 {
            SCORE_3
        } else if removed == 4 {
            SCORE_4
        } else {
            SCORE_5
        };
        (base + if first_loop {
            0
        } else {
            FOLLOWUP_BONUS
        }) as nat
    }
}

/// A pass that removes three pieces gives 10 points on the first pass of a
/// move and 15 on a later one; four pieces give 20 or 25; five or more give a
/// flat 30 or 35.
pub proof fn lemma_pass_tiers(removed: nat)
    ensures
        removed == 3 ==> tier(removed, true) == 10 && tier(removed, false) == 15,
        removed == 4 ==> tier(removed, true) == 20 && tier(removed, false) == 25,
        removed >= 5 ==> tier(removed, true) == 30 && tier(removed, false) == 35,
{
}

/// Points for a pass that removes `removed` pieces; `first_loop` tells the
/// first pass of a move from the cascades that follow it.
pub fn pass_score(removed: usize, first_loop: bool) -> (s: u32)
    ensures
        s == tier(removed as nat, first_loop),
        s <= MAX_PASS_SCORE,
{
    let bonus = if first_loop {
        0
    } else {
        FOLLOWUP_BONUS
    };
    if removed < 3 {
        0
    } else if removed == 3 {
        SCORE_3 + bonus
    } else if removed == 4 {
        SCORE_4 + bonus
    } else {
        SCORE_5 + bonus
    }
}

/// `n` colours drawn at random.
fn random_colors(n: usize) -> (colors: Vec<Color>)
    ensures
        colors.len() == n,
{
    let mut colors: Vec<Color> = Vec::new();
    for i in 0..n
        invariant
            colors.len() == i,
    {
        colors.push(Color::rand());
    }
    colors
}

/// A grid of random colours; it may hold runs.
pub fn random_grid() -> (grid: Vec<Vec<Color>>)
    ensures
        well_sized(board_of(grid@)),
{
    let mut grid: Vec<Vec<Color>> = Vec::new();
    for r in 0..ROWS
        invariant
            grid.len() == r,
            forall|i: int| 0 <= i < r ==> (#[trigger] grid@[i])@.len() == COLS,
    {
        grid.push(random_colors(COLS));
    }
    assert(board_of(grid@).len() == ROWS);
    grid
}

/// The board and the points after one resolution pass for each element of
/// `rs`, in order, the pass refilling its removed cells from that element:
/// the first pass scores its tier with `first_loop`, every later one with the
/// follow-up bonus. A pass on a stable board removes nothing and scores
/// nothing.
pub open spec fn cascade(b: Board, rs: Seq<Seq<Color>>, first_loop: bool) -> (Board, int)
    decreases rs.len(),
{
    if rs.len() == 0 {
        (b, 0)
    } else {
        let (prev, points) = cascade(b, rs.drop_last(), first_loop);
        let cells = removal_list(prev);
        (
            after_removal(prev, cells, rs.last()),
            points + tier(cells.len(), first_loop && rs.len() == 1),
        )
    }
}

/// A cascade, read from its first pass: that pass removes the removal list
/// of `b` and scores its tier with `first_loop`; what follows is a cascade
/// on the board it leaves, where every pass scores its tier with the
/// follow-up bonus (15, 25 or 35).
pub proof fn lemma_cascade_first_pass(b: Board, rs: Seq<Seq<Color>>, first_loop: bool)
    requires
        rs.len() >= 1,
    ensures
        ({
            let cells = removal_list(b);
            let rest = cascade(after_removal(b, cells, rs[0]), rs.drop_first(), false);
            cascade(b, rs, first_loop) == (rest.0, tier(cells.len(), first_loop) + rest.1)
        }),
    decreases rs.len(),
{
    let cells = removal_list(b);
    let b1 = after_removal(b, cells, rs[0]);
    if rs.len() == 1 {
        assert(rs.drop_last().len() == 0);
        assert(rs.drop_first().len() == 0);
        assert(cascade(b1, rs.drop_first(), false) == (b1, 0int));
        assert(cascade(b, rs.drop_last(), first_loop) == (b, 0int));
        assert(rs.last() == rs[0]);
        assert(cascade(b, rs, first_loop) == (b1, tier(cells.len(), first_loop) as int));
    } else {
        let shorter = rs.drop_last();
        lemma_cascade_first_pass(b, shorter, first_loop);
        let tail = rs.drop_first();
        assert(tail.drop_last() =~= shorter.drop_first());
        assert(shorter[0] == rs[0]);
        assert(tail.last() == rs.last());
        let (p, q) = cascade(b1, shorter.drop_first(), false);
        assert(cascade(b1, tail, false) == (
            after_removal(p, removal_list(p), rs.last()),
            q + tier(removal_list(p).len(), false),
        ));
        let (p2, q2) = cascade(b, shorter, first_loop);
        assert(p2 == p && q2 == tier(cells.len(), first_loop) + q);
        assert(cascade(b, rs, first_loop) == (
            after_removal(p2, removal_list(p2), rs.last()),
            q2 + tier(removal_list(p2).len(), false),
        ));
    }
}

/// Blue and green in a checkerboard.
pub open spec fn checkerboard() -> Board {
    Seq::new(
        ROWS as nat,
        |r: int|
            Seq::new(
                COLS as nat,
                |c: int|
                    if (r + c) % 2 == 0 {
                        Color::Blue
                    } else {
                        Color::Green
                    },
            ),
    )
}

/// No two neighbours of the checkerboard share a colour, so it is stable.
pub proof fn lemma_checkerboard_stable()
    ensures
        well_sized(checkerboard()),
        stable(checkerboard()),
{
    let b = checkerboard();
    assert forall|r: usize, c: usize| r < ROWS && c < COLS implies !#[trigger] marked(b, (r, c)) by {
        let row = line(b, (r, c), false);
        let col = line(b, (r, c), true);
        assert forall|a: int| !#[trigger] triple_at(row, a) by {
            if 0 <= a && a + 2 < row.len() {
                assert(row[a] != row[a + 1]);
            }
        }
        assert forall|a: int| !#[trigger] triple_at(col, a) by {
            if 0 <= a && a + 2 < col.len() {
                assert(col[a] != col[a + 1]);
            }
        }
    }
}

/// The checkerboard as a grid.
fn checkerboard_grid() -> (grid: Vec<Vec<Color>>)
    ensures
        board_of(grid@) == checkerboard(),
{
    let mut grid: Vec<Vec<Color>> = Vec::new();
    for r in 0..ROWS
        invariant
            grid.len() == r,
            forall|i: int| 0 <= i < r ==> (#[trigger] grid@[i])@ == checkerboard()[i],
    {
        let mut row: Vec<Color> = Vec::new();
        for c in 0..COLS
            invariant
                r < ROWS,
                row.len() == c,
                forall|j: int| 0 <= j < c ==> #[trigger] row@[j] == checkerboard()[r as int][j],
        {
            if (r + c) % 2 == 0 {
                row.push(Color::Blue);
            } else {
                row.push(Color::Green);
            }
        }
        assert(row@ =~= checkerboard()[r as int]);
        grid.push(row);
    }
    assert(board_of(grid@) =~= checkerboard());
    grid
}

/// A game: the counters and the grid of colours, row by row.
pub struct Game {
    /// Count of valid moves played.
    pub moves: u32,
    /// Points gained so far.
    pub score: u32,
    /// The colours, `ROWS` rows of `COLS` each.
    pub grid: Vec<Vec<Color>>,
}

impl Clone for Game {
    /// An independent copy: same counters, same colours.
    fn clone(&self) -> (g: Game)
        ensures
            g.moves == self.moves,
            g.score == self.score,
            g.board() == self.board(),
    {
        let mut grid: Vec<Vec<Color>> = Vec::new();
        for r in 0..self.grid.len()
            invariant
                grid.len() == r,
                r <= self.grid.len(),
                forall|i: int| 0 <= i < r ==> (#[trigger] grid@[i])@ == self.grid@[i]@,
        {
            grid.push(self.grid[r].clone());
            assert(grid@[r as int]@ =~= self.grid@[r as int]@);
        }
        assert(board_of(grid@) =~= board_of(self.grid@));
        Game { moves: self.moves, score: self.score, grid }
    }
}

impl Game {
    /// The colours of the grid.
    pub open spec fn board(&self) -> Board {
        board_of(self.grid@)
    }

    /// The grid has `ROWS` rows of `COLS` colours.
    pub open spec fn wf(&self) -> bool {
        well_sized(self.board())
    }

    fn color_at(&self, r: usize, c: usize) -> (x: Color)
        requires
            self.wf(),
            r < ROWS,
            c < COLS,
        ensures
            x == self.board()[r as int][c as int],
    {
        self.grid[r][c]
    }

    fn line_color(&self, cell: Cell, vertical: bool, k: usize) -> (x: Color)
        requires
            self.wf(),
            cell.0 < ROWS,
            cell.1 < COLS,
            k < 8,
        ensures
            x == line(self.board(), cell, vertical)[k as int],
    {
        if vertical {
            self.color_at(k, cell.1)
        } else {
            self.color_at(cell.0, k)
        }
    }

    /// Walks from `cell` along its column (`vertical`) or its row, forward or
    /// backward, as long as the colour stays the same; returns the last index
    /// reached.
    fn contiguous_loop(&self, cell: Cell, vertical: bool, forward: bool) -> (end: usize)
        requires
            self.wf(),
            cell.0 < ROWS,
            cell.1 < COLS,
        ensures
            end == reach(line(self.board(), cell, vertical), pos(cell, vertical), forward),
    {
        let ghost l = line(self.board(), cell, vertical);
        let start = if vertical {
            cell.0
        } else {
            cell.1
        };
        let mut k: usize = start;
        loop
            invariant
                self.wf(),
                cell.0 < ROWS,
                cell.1 < COLS,
                l == line(self.board(), cell, vertical),
                l.len() == 8,
                k < 8,
                start == pos(cell, vertical),
                reach(l, k as int, forward) == reach(l, start as int, forward),
            ensures
                k == reach(l, start as int, forward),
            decreases (if forward { 8 - k } else { k as int }),
        {
            if forward {
                if k + 1 < 8 && self.line_color(cell, vertical, k + 1) == self.line_color(
                    cell,
                    vertical,
                    k,
                ) {
                    k = k + 1;
                } else {
                    break ;
                }
            } else {
                if k > 0 && self.line_color(cell, vertical, k - 1) == self.line_color(
                    cell,
                    vertical,
                    k,
                ) {
                    k = k - 1;
                } else {
                    break ;
                }
            }
        }
        k
    }

    /// Size of the region of pieces of the colour of `cell` that can be reached
    /// from it through neighbours along its column (`vertical`) or its row.
    fn contiguous(&self, cell: Cell, vertical: bool) -> (n: usize)
        requires
            self.wf(),
            cell.0 < ROWS,
            cell.1 < COLS,
        ensures
            n == reach(line(self.board(), cell, vertical), pos(cell, vertical), true) - reach(
                line(self.board(), cell, vertical),
                pos(cell, vertical),
                false,
            ) + 1,
            n >= 3 <==> in_triple(line(self.board(), cell, vertical), pos(cell, vertical)),
    {
        let ghost l = line(self.board(), cell, vertical);
        let lo = self.contiguous_loop(cell, vertical, false);
        let hi = self.contiguous_loop(cell, vertical, true);
        proof {
            lemma_reach_forward(l, pos(cell, vertical));
            lemma_reach_backward(l, pos(cell, vertical));
            lemma_run_length(l, pos(cell, vertical));
        }
        hi - lo + 1
    }

    fn set_color(&mut self, r: usize, c: usize, x: Color)
        requires
            old(self).wf(),
            r < ROWS,
            c < COLS,
        ensures
            final(self).wf(),
            final(self).board() == set_cell(old(self).board(), r as int, c as int, x),
            final(self).moves == old(self).moves,
            final(self).score == old(self).score,
    {
        assert(self.board()[r as int] == self.grid@[r as int]@);
        self.grid[r][c] = x;
        assert(self.board() =~~= set_cell(old(self).board(), r as int, c as int, x));
    }

    /// Swaps the pieces of `mov`, whether or not they are neighbours.
    fn execute_move(&mut self, mov: &Move)
        requires
            old(self).wf(),
            on_board(*mov),
        ensures
            final(self).wf(),
            final(self).board() == swapped(old(self).board(), *mov),
            final(self).moves == old(self).moves,
            final(self).score == old(self).score,
    {
        let moved = self.color_at(mov.row1, mov.col1);
        let other = self.color_at(mov.row2, mov.col2);
        self.set_color(mov.row1, mov.col1, other);
        self.set_color(mov.row2, mov.col2, moved);
    }

    /// Takes the piece at `cell` out: the pieces above it fall by one, swap
    /// by swap from just above it up to the top row, and `fresh` fills the
    /// top of the column.
    fn drop_cell(&mut self, cell: Cell, fresh: Color)
        requires
            old(self).wf(),
            cell.0 < ROWS,
            cell.1 < COLS,
        ensures
            final(self).wf(),
            final(self).board() == dropped(old(self).board(), cell, fresh),
            final(self).moves == old(self).moves,
            final(self).score == old(self).score,
    {
        let ghost b0 = self.board();
        let (row, col) = cell;
        for i in 0..row
            invariant
                self.wf(),
                row < ROWS,
                col < COLS,
                b0 == old(self).board(),
                self.moves == old(self).moves,
                self.score == old(self).score,
                forall|r: int, c: int|
                    0 <= r < ROWS && 0 <= c < COLS && c != col ==> #[trigger] self.board()[r][c]
                        == b0[r][c],
                forall|r: int| row < r < ROWS ==>
                    #[trigger] self.board()[r][col as int] == b0[r][col as int],
                forall|r: int|
                    row - i < r <= row ==>
                        #[trigger] self.board()[r][col as int] == b0[r - 1][col as int],
                self.board()[row - i][col as int] == b0[row as int][col as int],
                forall|r: int| 0 <= r < row - i ==>
                    #[trigger] self.board()[r][col as int] == b0[r][col as int],
        {
            self.execute_move(&Move { row1: row - 1 - i, col1: col, row2: row - i, col2: col });
        }
        self.set_color(0, col, fresh);
        assert(self.board() =~~= dropped(b0, cell, fresh));
    }

    /// Takes out `cells` in order, the `i`th refilled with `refills[i]`.
    fn remove_pieces(&mut self, cells: &Vec<Cell>, refills: &Vec<Color>)
        requires
            old(self).wf(),
            refills.len() >= cells.len(),
            forall|k: int| 0 <= k < cells.len() ==>
                (#[trigger] cells@[k]).0 < ROWS && cells@[k].1 < COLS,
        ensures
            final(self).wf(),
            final(self).board() == after_removal(old(self).board(), cells@, refills@),
            final(self).moves == old(self).moves,
            final(self).score == old(self).score,
    {
        for i in 0..cells.len()
            invariant
                self.wf(),
                refills.len() >= cells.len(),
                forall|k: int| 0 <= k < cells.len() ==>
                    (#[trigger] cells@[k]).0 < ROWS && cells@[k].1 < COLS,
                self.board() == removed_upto(old(self).board(), cells@, refills@, i as nat),
                self.moves == old(self).moves,
                self.score == old(self).score,
        {
            self.drop_cell(cells[i], refills[i]);
        }
    }

    /// Creates a game on a random board, cleared of its runs before play
    /// begins; that clean-up counts neither as moves nor as points.
    ///
    /// The clean-up can run out of points to credit only after some hundred
    /// million passes; should that ever happen, the game starts on the
    /// checkerboard instead, so that a new board is always stable.
    pub fn new() -> (game: Game)
        ensures
            game.wf(),
            stable(game.board()),
            game.moves == 0,
            game.score == 0,
    {
        let mut game = Game { moves: 0, score: 0, grid: random_grid() };
        game.clear_board(true, u32::MAX);
        game.score = 0;
        game.moves = 0;
        let left = game.pieces_to_remove();
        proof {
            lemma_removal_list(game.board());
            lemma_checkerboard_stable();
        }
        if left.len() > 0 {
            game.grid = checkerboard_grid();
        }
        game
    }

    /// Count of valid moves played.
    pub fn moves(&self) -> (n: u32)
        ensures
            n == self.moves,
    {
        self.moves
    }

    /// Points gained so far.
    pub fn score(&self) -> (n: u32)
        ensures
            n == self.score,
    {
        self.score
    }

    /// The grid of colours, row by row.
    pub fn grid(&self) -> (g: &Vec<Vec<Color>>)
        ensures
            *g == self.grid,
    {
        &self.grid
    }

    /// Plays `mov`: an invalid move changes nothing. A valid one counts as a
    /// move, swaps the two pieces and resolves the board; where that scores
    /// nothing the swap is undone.
    pub fn make_move(&mut self, mov: &Move)
        requires
            old(self).wf(),
            valid_move(*mov) ==> old(self).moves < u32::MAX,
        ensures
            final(self).wf(),
            !valid_move(*mov) ==> *final(self) == *old(self),
            valid_move(*mov) && old(self).score + MAX_PASS_SCORE <= u32::MAX ==> (final(self).score
                > old(self).score <==> !stable(swapped(old(self).board(), *mov))),
            valid_move(*mov) && final(self).score > old(self).score ==> exists|
                rs: Seq<Seq<Color>>,
            |
                #[trigger] cascade(swapped(old(self).board(), *mov), rs, true) == (
                    final(self).board(),
                    final(self).score - old(self).score,
                ),
            valid_move(*mov) ==> final(self).moves == old(self).moves + 1,
            final(self).score >= old(self).score,
            valid_move(*mov) && final(self).score == old(self).score ==> final(self).board()
                == old(self).board(),
            valid_move(*mov) && stable(swapped(old(self).board(), *mov)) ==> final(self).score
                == old(self).score,
            valid_move(*mov) && !stable(swapped(old(self).board(), *mov)) && old(self).score
                + MAX_PASS_SCORE <= u32::MAX ==> final(self).score >= old(self).score + tier(
                removal_list(swapped(old(self).board(), *mov)).len(),
                true,
            ),
            stable(old(self).board()) || final(self).score > old(self).score ==> stable(
                final(self).board(),
            ) || final(self).score + MAX_PASS_SCORE > u32::MAX,
    {
        if mov.is_valid() {
            self.moves = self.moves + 1;
            self.execute_move(mov);
            let budget = u32::MAX - self.score;
            if self.clear_board(true, budget) == 0 {
                self.execute_move(mov);
                proof {
                    lemma_swap_twice(old(self).board(), *mov);
                }
            }
        }
    }

    /// Resolves the board to a fixpoint: pass after pass, clears the runs and
    /// credits their points, as long as another pass can still be credited
    /// within `budget` points. Returns the points gained.
    fn clear_board(&mut self, first_loop: bool, budget: u32) -> (gained: u32)
        requires
            old(self).wf(),
            old(self).score + budget <= u32::MAX,
        ensures
            final(self).wf(),
            final(self).moves == old(self).moves,
            final(self).score == old(self).score + gained,
            gained <= budget,
            stable(final(self).board()) || gained + MAX_PASS_SCORE > budget,
            stable(old(self).board()) || budget < MAX_PASS_SCORE ==> gained == 0,
            gained == 0 ==> final(self).board() == old(self).board(),
            !stable(old(self).board()) && budget >= MAX_PASS_SCORE ==> gained >= tier(
                removal_list(old(self).board()).len(),
                first_loop,
            ),
            exists|rs: Seq<Seq<Color>>|
                #[trigger] cascade(old(self).board(), rs, first_loop) == (
                final(self).board(),
                gained as int,
            ),
    {
        let mut gained: u32 = 0;
        let mut first = first_loop;
        let ghost mut rs: Seq<Seq<Color>> = seq![];
        loop
            invariant
                cascade(old(self).board(), rs, first_loop) == (self.board(), gained as int),
                first == (first_loop && rs.len() == 0),
                self.wf(),
                old(self).score + budget <= u32::MAX,
                gained <= budget,
                self.score == old(self).score + gained,
                self.moves == old(self).moves,
                gained == 0 ==> self.board() == old(self).board() && first == first_loop,
                stable(old(self).board()) || budget < MAX_PASS_SCORE ==> gained == 0,
                gained > 0 ==> gained >= tier(removal_list(old(self).board()).len(), first_loop),
            ensures
                self.wf(),
                self.score == old(self).score + gained,
                self.moves == old(self).moves,
                gained <= budget,
                gained == 0 ==> self.board() == old(self).board(),
                stable(old(self).board()) || budget < MAX_PASS_SCORE ==> gained == 0,
                gained > 0 ==> gained >= tier(removal_list(old(self).board()).len(), first_loop),
                stable(self.board()) || gained + MAX_PASS_SCORE > budget,
                budget >= MAX_PASS_SCORE && !stable(old(self).board()) ==> gained > 0,
                cascade(old(self).board(), rs, first_loop) == (self.board(), gained as int),
            decreases budget - gained,
        {
            if budget - gained < MAX_PASS_SCORE {
                break ;
            }
            let fresh = random_colors(ROWS * COLS);
            proof {
                lemma_removal_list(self.board());
            }
            let ghost prev = self.board();
            let s = self.clear_pass(first, &fresh);
            if s == 0 {
                break ;
            }
            proof {
                let next = rs.push(fresh@);
                assert(next.drop_last() == rs);
                rs = next;
            }
            gained = gained + s;
            first = false;
        }
        assert(cascade(old(self).board(), rs, first_loop) == (self.board(), gained as int));
        gained
    }

    /// One pass of the resolution: removes every piece of `removal_list`, in
    /// its order, the `i`th refilled with `refills[i]`, and credits the
    /// points of its tier. A stable board is left as it is.
    pub fn clear_pass(&mut self, first_loop: bool, refills: &Vec<Color>) -> (gained: u32)
        requires
            old(self).wf(),
            refills.len() >= removal_list(old(self).board()).len(),
            old(self).score + MAX_PASS_SCORE <= u32::MAX,
        ensures
            final(self).wf(),
            gained == tier(removal_list(old(self).board()).len(), first_loop),
            gained == 0 <==> stable(old(self).board()),
            stable(old(self).board()) ==> final(self).board() == old(self).board(),
            !stable(old(self).board()) ==> final(self).board() == after_removal(
                old(self).board(),
                removal_list(old(self).board()),
                refills@,
            ),
            final(self).score == old(self).score + gained,
            final(self).moves == old(self).moves,
    {
        let cells = self.pieces_to_remove();
        proof {
            lemma_removal_list(self.board());
        }
        if cells.len() < 3 {
            return 0;
        }
        let gained = pass_score(cells.len(), first_loop);
        self.remove_pieces(&cells, refills);
        self.score = self.score + gained;
        gained
    }

    /// Every piece that lies in a run of three or more along its row or its
    /// column, each once, in row-major order: by ascending row, as the
    /// cascade needs.
    pub fn pieces_to_remove(&self) -> (cells: Vec<Cell>)
        requires
            self.wf(),
        ensures
            cells@ == removal_list(self.board()),
            forall|i: int, j: int|
                0 <= i < j < cells.len() ==> before(#[trigger] cells@[i], #[trigger] cells@[j]),
    {
        let mut cells: Vec<Cell> = Vec::new();
        for r in 0..ROWS
            invariant
                self.wf(),
                cells@ == marks_upto(self.board(), r),
        {
            for c in 0..COLS
                invariant
                    self.wf(),
                    r < ROWS,
                    cells@ == marks_upto(self.board(), r) + row_marks(self.board(), r, c),
            {
                if self.contiguous((r, c), false) >= 3 || self.contiguous((r, c), true) >= 3 {
                    cells.push((r, c));
                }
                assert(cells@ == marks_upto(self.board(), r) +
                    row_marks(self.board(), r, (c + 1) as usize));
            }
        }
        proof {
            lemma_removal_list(self.board());
        }
        cells
    }
}

} // verus!
