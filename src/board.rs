use vstd::prelude::*;

use crate::count::{count_of, lemma_count_bound, lemma_count_none, lemma_count_prefix, lemma_count_update};
use crate::grid::{
    adjacent, adjacent_marked, col, count_adjacent_marked, lemma_coords, lemma_index, lemma_marked_near_bound,
    marked_at, marked_near, max_cells, neighbour_index, offset_rank, row,
};
use crate::layout::{debug_layout, debug_mine, random_layout};
use crate::menu::{Difficulty, Size, mines_for, size_dimensions};

verus! {

/// What a cell holds; fixed once the board is populated.
#[derive(Clone, Copy, Debug, PartialEq, Eq, Structural)]
pub enum TileValue {
    Empty,
    Neighbours(u8),
    Bomb,
}

/// What the player has done to a cell.
#[derive(Clone, Copy, Debug, PartialEq, Eq, Structural)]
pub enum TileState {
    Covered,
    Flagged,
    Uncovered,
}

/// What uncovering cells led to.
#[derive(Clone, Copy, Debug, PartialEq, Eq, Structural)]
pub enum RevealOutcome {
    /// Nothing changed.
    Ignored,
    /// A single numbered cell was uncovered.
    Single,
    /// An empty cell, or the neighbours of a number, started a flood.
    Cascade,
    /// A mine was uncovered.
    Lost,
}

/// Why a board configuration was refused.
#[derive(Clone, Copy, Debug, PartialEq, Eq, Structural)]
pub enum ConfigError {
    /// A dimension is zero.
    NoCells,
    /// The number of cells does not fit in an `isize`.
    TooLarge,
    /// More mines than cells.
    TooManyMines,
}

/// What the cell at `(x, y)` holds on a board with this mine layout.
pub open spec fn cell_value(layout: Seq<bool>, w: int, h: int, x: int, y: int) -> TileValue {
    if marked_at(layout, w, h, x, y) {
        TileValue::Bomb
    } else if adjacent_marked(layout, w, h, x, y) == 0 {
        TileValue::Empty
    } else {
        TileValue::Neighbours(adjacent_marked(layout, w, h, x, y) as u8)
    }
}

/// A minesweeper board: its dimensions, what each cell holds and what the
/// player has done to it, and how many mines remain unflagged.
pub struct Board {
    width: usize,
    height: usize,
    mines: usize,
    debug: bool,
    values: Vec<TileValue>,
    states: Vec<TileState>,
    mines_left: isize,
}

/// The mathematical picture of a board.
pub struct BoardView {
    pub width: int,
    pub height: int,
    pub mines: int,
    /// Laid out with the fixed debugging pattern.
    pub debug: bool,
    /// What each cell holds, cell `(x, y)` at index `x * height + y`.
    pub values: Seq<TileValue>,
    /// What the player has done to each cell, indexed as `values`.
    pub states: Seq<TileState>,
    /// Mines minus flags placed.
    pub remaining: int,
}

impl View for Board {
    type V = BoardView;

    closed spec fn view(&self) -> BoardView {
        BoardView {
            width: self.width as int,
            height: self.height as int,
            mines: self.mines as int,
            debug: self.debug,
            values: self.values@,
            states: self.states@,
            remaining: self.mines_left as int,
        }
    }
}

impl BoardView {
    pub open spec fn cells(self) -> int {
        self.width * self.height
    }

    /// Which cells hold a mine.
    pub open spec fn layout(self) -> Seq<bool> {
        self.values.map_values(|v: TileValue| v == TileValue::Bomb)
    }

    /// The dimensions and mine count describe a board that can be laid out.
    pub open spec fn config_ok(self) -> bool {
        &&& 0 < self.width
        &&& 0 < self.height
        &&& self.cells() <= max_cells()
        &&& 0 <= self.mines <= self.cells()
        &&& self.debug ==> 9 <= self.width && 9 <= self.height
    }

    /// The board is laid out: every non-mine cell holds the number of mines
    /// around it, there are `mines` mines, and the counter of remaining mines
    /// agrees with the flags placed.
    pub open spec fn populated(self) -> bool {
        &&& self.config_ok()
        &&& self.values.len() == self.cells()
        &&& self.states.len() == self.cells()
        &&& forall|i: int|
            0 <= i < self.cells() ==> #[trigger] self.values[i] == cell_value(
                self.layout(),
                self.width,
                self.height,
                col(self.height, i),
                row(self.height, i),
            )
        &&& count_of(self.layout(), true) == self.mines
        &&& self.remaining == self.mines - count_of(self.states, TileState::Flagged)
    }

    /// Cell `i` lies on the board and is covered.
    pub open spec fn covered(self, i: int) -> bool {
        0 <= i < self.cells() && self.states[i] == TileState::Covered
    }

    /// The cells that a flood started from `seeds` uncovers within `k` steps:
    /// the covered seeds, then, step by step, every covered neighbour of an
    /// empty cell reached so far.
    pub open spec fn reach(self, seeds: Set<int>, k: nat) -> Set<int>
        decreases k,
    {
        if k == 0 {
            seeds.filter(|i: int| self.covered(i))
        } else {
            let r = self.reach(seeds, (k - 1) as nat);
            r.union(
                Set::new(
                    |j: int|
                        self.covered(j) && exists|i: int|
                            #![trigger r.contains(i), adjacent(self.height, i, j)]
                            r.contains(i) && self.values[i] == TileValue::Empty && adjacent(
                                self.height,
                                i,
                                j,
                            ),
                ),
            )
        }
    }

    /// Every cell that a flood started from `seeds` uncovers.
    pub open spec fn flood_region(self, seeds: Set<int>) -> Set<int> {
        self.reach(seeds, self.cells() as nat)
    }

    /// The cell states once the flood region of `seeds` is uncovered.
    pub open spec fn after_flood(self, seeds: Set<int>) -> Seq<TileState> {
        Seq::new(
            self.states.len(),
            |i: int|
                if self.flood_region(seeds).contains(i) {
                    TileState::Uncovered
                } else {
                    self.states[i]
                },
        )
    }

    /// Which cells carry a flag.
    pub open spec fn flag_layout(self) -> Seq<bool> {
        self.states.map_values(|s: TileState| s == TileState::Flagged)
    }

    /// The flags around the cell at index `i`.
    pub open spec fn flags_around(self, i: int) -> int {
        adjacent_marked(self.flag_layout(), self.width, self.height, col(self.height, i), row(self.height, i))
    }

    /// A click on the uncovered number at index `i` uncovers its neighbours:
    /// as many flags surround it as its number says.
    pub open spec fn chord_fires(self, i: int) -> bool {
        &&& self.states[i] == TileState::Uncovered
        &&& self.values[i] matches TileValue::Neighbours(n)
        &&& self.flags_around(i) == n
    }

    /// The cells that touch the cell at index `i`.
    pub open spec fn around(self, i: int) -> Set<int> {
        Set::new(|j: int| 0 <= j < self.cells() && adjacent(self.height, i, j))
    }

    /// Every cell that is not uncovered holds a mine.
    pub open spec fn won(self) -> bool {
        self.cells() - count_of(self.states, TileState::Uncovered) == self.mines
    }
}

impl Board {
    pub fn width(&self) -> (r: usize)
        ensures
            r == self@.width,
    {
        self.width
    }

    pub fn height(&self) -> (r: usize)
        ensures
            r == self@.height,
    {
        self.height
    }

    pub fn mines(&self) -> (r: usize)
        ensures
            r == self@.mines,
    {
        self.mines
    }

    pub fn is_debug(&self) -> (r: bool)
        ensures
            r == self@.debug,
    {
        self.debug
    }

    /// Columns and rows.
    pub fn size(&self) -> (r: (usize, usize))
        ensures
            r.0 == self@.width,
            r.1 == self@.height,
    {
        (self.width, self.height)
    }

    /// Mines minus flags placed; negative once more flags than mines stand.
    pub fn mines_left(&self) -> (r: isize)
        ensures
            r == self@.remaining,
    {
        self.mines_left
    }

    /// The cell at column `x`, row `y`, if the board has one there. Column
    /// `x` spans world abscissae `[x, x + 1)` and row `y` world ordinates
    /// `(-y - 1, -y]`, so a world point maps here by truncating its
    /// abscissa and its negated ordinate.
    pub fn get_from_world(&self, x: usize, y: usize) -> (r: Option<(usize, usize)>)
        ensures
            r == if x < self@.width && y < self@.height {
                Some((x, y))
            } else {
                None::<(usize, usize)>
            },
    {
        if x < self.width && y < self.height {
            Some((x, y))
        } else {
            None
        }
    }

    /// What the cell at column `x`, row `y` holds.
    pub fn value_at(&self, x: usize, y: usize) -> (r: TileValue)
        requires
            self@.populated(),
            x < self@.width,
            y < self@.height,
        ensures
            r == self@.values[x * self@.height + y],
    {
        proof {
            lemma_index(self.width as int, self.height as int, x as int, y as int);
        }
        self.values[x * self.height + y]
    }

    /// What the player has done to the cell at column `x`, row `y`.
    pub fn state_at(&self, x: usize, y: usize) -> (r: TileState)
        requires
            self@.populated(),
            x < self@.width,
            y < self@.height,
        ensures
            r == self@.states[x * self@.height + y],
    {
        proof {
            lemma_index(self.width as int, self.height as int, x as int, y as int);
        }
        self.states[x * self.height + y]
    }

    /// Lays the board out with the given mines, every cell covered.
    pub fn populate(&mut self, layout: &Vec<bool>)
        requires
            old(self)@.config_ok(),
            layout@.len() == old(self)@.cells(),
        ensures
            final(self)@.populated(),
            final(self)@.width == old(self)@.width,
            final(self)@.height == old(self)@.height,
            final(self)@.debug == old(self)@.debug,
            final(self)@.layout() == layout@,
            final(self)@.mines == count_of(layout@, true),
            forall|i: int| 0 <= i < final(self)@.cells() ==> #[trigger] final(self)@.states[i] == TileState::Covered,
    {
        let w = self.width;
        let h = self.height;
        let n = w * h;
        let mut values: Vec<TileValue> = Vec::new();
        let mut states: Vec<TileState> = Vec::new();
        let mut mines: usize = 0;
        let mut i: usize = 0;
        while i < n
            invariant
                0 < h,
                n == w * h,
                w * h <= max_cells(),
                layout@.len() == n,
                i <= n,
                values@.len() == i,
                states@.len() == i,
                mines as int == count_of(layout@.subrange(0, i as int), true),
                mines <= i,
                forall|j: int| 0 <= j < i ==> #[trigger] values@[j] == cell_value(
                    layout@,
                    w as int,
                    h as int,
                    col(h as int, j),
                    row(h as int, j),
                ),
                forall|j: int| 0 <= j < i ==> #[trigger] states@[j] == TileState::Covered,
            decreases n - i,
        {
            proof {
                lemma_coords(w as int, h as int, i as int);
                lemma_count_prefix(layout@, true, i as int);
            }
            let v = if layout[i] {
                mines = mines + 1;
                TileValue::Bomb
            } else {
                let m = count_adjacent_marked(layout, w, h, i);
                if m == 0 {
                    TileValue::Empty
                } else {
                    TileValue::Neighbours(m)
                }
            };
            values.push(v);
            states.push(TileState::Covered);
            i = i + 1;
        }
        proof {
            assert(layout@.subrange(0, n as int) =~= layout@);
            assert forall|j: int| 0 <= j < n implies #[trigger] values@[j] == TileValue::Bomb <==> layout@[j] by {
                lemma_coords(w as int, h as int, j);
            }
            assert(values@.map_values(|v: TileValue| v == TileValue::Bomb) =~= layout@);
            assert forall|j: int| 0 <= j < n implies #[trigger] states@[j] != TileState::Flagged by {}
            lemma_count_none(states@, TileState::Flagged);
        }
        self.values = values;
        self.states = states;
        self.mines = mines;
        self.mines_left = mines as isize;
    }
}

proof fn lemma_reach_mono(b: BoardView, seeds: Set<int>, k1: nat, k2: nat)
    requires
        k1 <= k2,
    ensures
        b.reach(seeds, k1).subset_of(b.reach(seeds, k2)),
    decreases k2,
{
    if k1 < k2 {
        lemma_reach_mono(b, seeds, k1, (k2 - 1) as nat);
        assert(b.reach(seeds, (k2 - 1) as nat).subset_of(b.reach(seeds, k2)));
    }
}

/// Some entry of the work list is cell `j`.
spec fn pending(wl: Seq<usize>, j: int) -> bool {
    exists|k: int| 0 <= k < wl.len() && wl[k] as int == j
}

proof fn lemma_pending_pop(wl: Seq<usize>, j: int)
    requires
        wl.len() > 0,
        pending(wl, j),
    ensures
        pending(wl.drop_last(), j) || wl.last() as int == j,
{
    let k = choose|k: int| 0 <= k < wl.len() && wl[k] as int == j;
    if k < wl.len() - 1 {
        assert(wl.drop_last()[k] == wl[k]);
    }
}

proof fn lemma_pending_push(wl: Seq<usize>, a: usize, j: int)
    ensures
        pending(wl, j) ==> pending(wl.push(a), j),
        pending(wl.push(a), a as int),
{
    assert(wl.push(a)[wl.len() as int] == a);
    if pending(wl, j) {
        let k = choose|k: int| 0 <= k < wl.len() && wl[k] as int == j;
        assert(wl.push(a)[k] == wl[k]);
    }
}

/// A cell that a flood has uncovered.
spec fn newly(before: BoardView, after: Seq<TileState>, i: int) -> bool {
    before.covered(i) && after[i] == TileState::Uncovered
}

/// Once nothing is pending, every cell that the flood reaches is uncovered.
proof fn lemma_region_uncovered(before: BoardView, after: Seq<TileState>, seeds: Set<int>, k: nat)
    requires
        after.len() == before.states.len(),
        forall|i: int| seeds.contains(i) && before.covered(i) ==> after[i] == TileState::Uncovered,
        forall|i: int, j: int|
            #![trigger newly(before, after, i), adjacent(before.height, i, j)]
            newly(before, after, i) && before.values[i] == TileValue::Empty && adjacent(before.height, i, j)
                && before.covered(j) ==> after[j] == TileState::Uncovered,
    ensures
        forall|i: int| #[trigger] before.reach(seeds, k).contains(i) ==> newly(before, after, i),
    decreases k,
{
    if k > 0 {
        lemma_region_uncovered(before, after, seeds, (k - 1) as nat);
        let r = before.reach(seeds, (k - 1) as nat);
        assert forall|j: int| #[trigger] before.reach(seeds, k).contains(j) implies newly(before, after, j) by {
            if !r.contains(j) {
                let i = choose|i: int|
                    #![trigger r.contains(i), adjacent(before.height, i, j)]
                    r.contains(i) && before.values[i] == TileValue::Empty && adjacent(before.height, i, j);
                assert(newly(before, after, i));
            }
        }
    }
}

impl Board {
    /// Uncovers every cell of the flood region of `seeds` and reports whether
    /// one of them holds a mine.
    fn flood(&mut self, seeds: Vec<usize>, Ghost(seed_set): Ghost<Set<int>>) -> (lost: bool)
        requires
            old(self)@.populated(),
            forall|k: int| 0 <= k < seeds@.len() ==> seed_set.contains(#[trigger] seeds@[k] as int),
            forall|k: int| 0 <= k < seeds@.len() ==> #[trigger] seeds@[k] < old(self)@.cells(),
            forall|i: int| seed_set.contains(i) && old(self)@.covered(i) ==> pending(seeds@, i),
        ensures
            final(self)@.populated(),
            final(self)@.width == old(self)@.width,
            final(self)@.height == old(self)@.height,
            final(self)@.mines == old(self)@.mines,
            final(self)@.debug == old(self)@.debug,
            final(self)@.remaining == old(self)@.remaining,
            final(self)@.values == old(self)@.values,
            final(self)@.states.len() == old(self)@.states.len(),
            forall|i: int| 0 <= i < old(self)@.cells() ==> #[trigger] final(self)@.states[i] == if old(self)@.flood_region(seed_set).contains(i) {
                TileState::Uncovered
            } else {
                old(self)@.states[i]
            },
            lost == exists|i: int| #[trigger] old(self)@.flood_region(seed_set).contains(i) && old(self)@.values[i] == TileValue::Bomb,
            forall|i: int, j: int|
                #![trigger old(self)@.flood_region(seed_set).contains(i), adjacent(old(self)@.height, i, j)]
                old(self)@.flood_region(seed_set).contains(i) && old(self)@.values[i] == TileValue::Empty
                    && adjacent(old(self)@.height, i, j) && old(self)@.covered(j) ==> old(self)@.flood_region(seed_set).contains(j),
    {
        let ghost before = self@;
        let ghost n = before.cells();
        let w = self.width;
        let h = self.height;
        let mut wl = seeds;
        let mut lost = false;
        let ghost mut cnt: nat = 0;
        while wl.len() > 0
            invariant
                before.populated(),
                n == before.cells(),
                self.width == w,
                self.height == h,
                w == before.width,
                h == before.height,
                self@.mines == before.mines,
                self@.debug == before.debug,
                self@.remaining == before.remaining,
                self@.values == before.values,
                self@.states.len() == n,
                forall|k: int| 0 <= k < wl@.len() ==> #[trigger] wl@[k] < n,
                forall|i: int|
                    0 <= i < n ==> #[trigger] self@.states[i] == before.states[i] || (before.covered(i)
                        && self@.states[i] == TileState::Uncovered && before.reach(seed_set, cnt).contains(i)),
                forall|k: int|
                    0 <= k < wl@.len() && before.covered(#[trigger] wl@[k] as int) ==> before.reach(seed_set, cnt).contains(wl@[k] as int),
                forall|i: int|
                    seed_set.contains(i) && before.covered(i) ==> self@.states[i] == TileState::Uncovered || pending(wl@, i),
                forall|i: int, j: int|
                    #![trigger newly(before, self@.states, i), adjacent(h as int, i, j)]
                    newly(before, self@.states, i) && before.values[i] == TileValue::Empty && adjacent(h as int, i, j)
                        && before.covered(j) ==> self@.states[j] == TileState::Uncovered || pending(wl@, j),
                cnt + count_of(self@.states, TileState::Covered) == count_of(before.states, TileState::Covered),
                count_of(self@.states, TileState::Flagged) == count_of(before.states, TileState::Flagged),
                lost == exists|i: int| #[trigger] newly(before, self@.states, i) && before.values[i] == TileValue::Bomb,
            decreases count_of(self@.states, TileState::Covered), wl@.len(),
        {
            let ghost wl0 = wl@;
            let ghost s_start = self@.states;
            let t = wl.pop().unwrap();
            let ghost wl1 = wl@;
            proof {
                assert(wl@ == wl0.drop_last());
                assert forall|j: int| pending(wl0, j) implies pending(wl@, j) || j == t as int by {
                    lemma_pending_pop(wl0, j);
                }
            }
            if self.states[t] == TileState::Covered {
                let ghost s0 = self@.states;
                proof {
                    assert(wl0[wl0.len() - 1] == t);
                    assert(before.reach(seed_set, cnt).contains(t as int));
                    lemma_reach_mono(before, seed_set, cnt, cnt + 1);
                    lemma_count_update(s0, t as int, TileState::Uncovered, TileState::Covered);
                    lemma_count_update(s0, t as int, TileState::Uncovered, TileState::Flagged);
                }
                self.states.set(t, TileState::Uncovered);
                proof {
                    cnt = cnt + 1;
                }
                if self.values[t] == TileValue::Bomb {
                    lost = true;
                    assert(newly(before, self@.states, t as int));
                }
                if self.values[t] == TileValue::Empty {
                    let mut k: usize = 0;
                    while k < 8
                        invariant
                            before.populated(),
                            n == before.cells(),
                            w == before.width,
                            h == before.height,
                            self.width == w,
                            self.height == h,
                            t < n,
                            k <= 8,
                            self@.values == before.values,
                            self@.states.len() == n,
                            before.reach(seed_set, (cnt - 1) as nat).contains(t as int),
                            before.values[t as int] == TileValue::Empty,
                            cnt > 0,
                            forall|k: int| 0 <= k < wl@.len() ==> #[trigger] wl@[k] < n,
                            forall|i: int|
                                0 <= i < n ==> #[trigger] self@.states[i] == before.states[i] || (before.covered(i)
                                    && self@.states[i] == TileState::Uncovered),
                            forall|k: int|
                                0 <= k < wl@.len() && before.covered(#[trigger] wl@[k] as int) ==> before.reach(seed_set, cnt).contains(wl@[k] as int),
                            forall|j: int| pending(wl1, j) ==> pending(wl@, j),
                            forall|j: int|
                                0 <= j < n && adjacent(h as int, t as int, j) && offset_rank(col(h as int, j) - col(h as int, t as int), row(h as int, j) - row(h as int, t as int)) < k
                                    && before.covered(j) ==> self@.states[j] == TileState::Uncovered || pending(wl@, j),
                        decreases 8 - k,
                    {
                        match neighbour_index(w, h, t, k) {
                            Some(j) => {
                                if self.states[j] == TileState::Covered {
                                    proof {
                                        assert forall|m: int| pending(wl@, m) implies pending(wl@.push(j), m) by {
                                            lemma_pending_push(wl@, j, m);
                                        }
                                        lemma_pending_push(wl@, j, j as int);
                                    }
                                    wl.push(j);
                                }
                            },
                            None => {},
                        }
                        proof {
                            assert forall|j: int|
                                0 <= j < n && adjacent(h as int, t as int, j) && offset_rank(col(h as int, j) - col(h as int, t as int), row(h as int, j) - row(h as int, t as int)) == k
                                    && before.covered(j) implies self@.states[j] == TileState::Uncovered || pending(wl@, j) by {
                                lemma_coords(w as int, h as int, j);
                                lemma_coords(w as int, h as int, t as int);
                            }
                        }
                        k = k + 1;
                    }
                }
            }
            proof {
                if exists|i: int| #[trigger] newly(before, self@.states, i) && before.values[i] == TileValue::Bomb {
                    let i = choose|i: int| #[trigger] newly(before, self@.states, i) && before.values[i] == TileValue::Bomb;
                    if i != t as int {
                        assert(newly(before, s_start, i));
                    }
                }
                if exists|i: int| #[trigger] newly(before, s_start, i) && before.values[i] == TileValue::Bomb {
                    let i = choose|i: int| #[trigger] newly(before, s_start, i) && before.values[i] == TileValue::Bomb;
                    assert(newly(before, self@.states, i));
                }
                assert(forall|j: int| pending(wl1, j) ==> pending(wl@, j));
                assert forall|i: int, j: int|
                    newly(before, self@.states, i) && before.values[i] == TileValue::Empty && adjacent(h as int, i, j)
                        && before.covered(j) implies self@.states[j] == TileState::Uncovered || pending(wl@, j) by {
                    if i != t as int {
                        assert(newly(before, s_start, i));
                        assert(s_start[j] == TileState::Uncovered || pending(wl0, j));
                        if pending(wl0, j) && j != t as int {
                            assert(pending(wl1, j));
                        }
                    } else {
                        lemma_coords(w as int, h as int, j);
                        lemma_coords(w as int, h as int, t as int);
                    }
                }
            }
        }
        proof {
            lemma_count_bound(before.states, TileState::Covered);
            lemma_reach_mono(before, seed_set, cnt, n as nat);
            lemma_region_uncovered(before, self@.states, seed_set, n as nat);
            let region = before.flood_region(seed_set);
            assert forall|i: int| #[trigger] region.contains(i) <==> newly(before, self@.states, i) by {
                if newly(before, self@.states, i) {
                    assert(before.reach(seed_set, cnt).contains(i));
                }
            }
            if lost {
                let i = choose|i: int| #[trigger] newly(before, self@.states, i) && before.values[i] == TileValue::Bomb;
                assert(region.contains(i));
            }
        }
        lost
    }
}

proof fn lemma_reach_none(b: BoardView, seeds: Set<int>, k: nat)
    requires
        forall|i: int| seeds.contains(i) ==> !b.covered(i),
    ensures
        b.reach(seeds, k) =~= Set::empty(),
    decreases k,
{
    if k > 0 {
        lemma_reach_none(b, seeds, (k - 1) as nat);
    }
}

impl Board {
    /// Uncovers the cell at column `x`, row `y` if it is covered; an empty
    /// cell floods its surroundings.
    pub fn uncover(&mut self, x: usize, y: usize) -> (r: RevealOutcome)
        requires
            old(self)@.populated(),
            x < old(self)@.width,
            y < old(self)@.height,
        ensures
            final(self)@.populated(),
            final(self)@.width == old(self)@.width,
            final(self)@.height == old(self)@.height,
            final(self)@.mines == old(self)@.mines,
            final(self)@.debug == old(self)@.debug,
            final(self)@.remaining == old(self)@.remaining,
            final(self)@.values == old(self)@.values,
            final(self)@.states == old(self)@.after_flood(set![x * old(self)@.height + y]),
            forall|i: int, j: int|
                #![trigger old(self)@.flood_region(set![x * old(self)@.height + y]).contains(i), adjacent(old(self)@.height, i, j)]
                old(self)@.flood_region(set![x * old(self)@.height + y]).contains(i) && old(self)@.values[i] == TileValue::Empty
                    && adjacent(old(self)@.height, i, j) && old(self)@.covered(j)
                    ==> old(self)@.flood_region(set![x * old(self)@.height + y]).contains(j),
            r == if !old(self)@.covered(x * old(self)@.height + y) {
                RevealOutcome::Ignored
            } else {
                match old(self)@.values[x * old(self)@.height + y] {
                    TileValue::Bomb => RevealOutcome::Lost,
                    TileValue::Empty => RevealOutcome::Cascade,
                    TileValue::Neighbours(_) => RevealOutcome::Single,
                }
            },
    {
        proof {
            lemma_index(self.width as int, self.height as int, x as int, y as int);
        }
        let i = x * self.height + y;
        let ghost seeds = set![i as int];
        let ghost before = self@;
        if self.states[i] != TileState::Covered {
            proof {
                lemma_reach_none(before, seeds, before.cells() as nat);
                assert(self@.states =~= before.after_flood(seeds));
            }
            return RevealOutcome::Ignored;
        }
        let value = self.values[i];
        let mut seed_list: Vec<usize> = Vec::new();
        seed_list.push(i);
        proof {
            assert(seed_list@[0] == i);
            assert(pending(seed_list@, i as int));
        }
        self.flood(seed_list, Ghost(seeds));
        proof {
            assert(self@.states =~= before.after_flood(seeds));
        }
        match value {
            TileValue::Bomb => RevealOutcome::Lost,
            TileValue::Empty => RevealOutcome::Cascade,
            TileValue::Neighbours(_) => RevealOutcome::Single,
        }
    }

    /// The flags around the cell at index `i`.
    fn count_adjacent_flags(&self, i: usize) -> (r: u8)
        requires
            self@.populated(),
            i < self@.cells(),
        ensures
            r as int == self@.flags_around(i as int),
    {
        let w = self.width;
        let h = self.height;
        let ghost x = col(h as int, i as int);
        let ghost y = row(h as int, i as int);
        let ghost flags = self@.flag_layout();
        let mut n: u8 = 0;
        let mut k: usize = 0;
        while k < 8
            invariant
                self@.populated(),
                w == self@.width,
                h == self@.height,
                flags == self@.flag_layout(),
                i < w * h,
                x == col(h as int, i as int),
                y == row(h as int, i as int),
                k <= 8,
                n <= k,
                n as int == marked_near(flags, w as int, h as int, x, y, k as int),
            decreases 8 - k,
        {
            match neighbour_index(w, h, i, k) {
                Some(j) => {
                    if self.states[j] == TileState::Flagged {
                        n = n + 1;
                    }
                },
                None => {},
            }
            k = k + 1;
        }
        n
    }

    /// On the uncovered number at column `x`, row `y`, surrounded by as many
    /// flags as its number says, uncovers all its neighbours that are not
    /// flagged; otherwise does nothing.
    pub fn chord(&mut self, x: usize, y: usize) -> (r: RevealOutcome)
        requires
            old(self)@.populated(),
            x < old(self)@.width,
            y < old(self)@.height,
        ensures
            final(self)@.populated(),
            final(self)@.width == old(self)@.width,
            final(self)@.height == old(self)@.height,
            final(self)@.mines == old(self)@.mines,
            final(self)@.debug == old(self)@.debug,
            final(self)@.remaining == old(self)@.remaining,
            final(self)@.values == old(self)@.values,
            old(self)@.chord_fires(x * old(self)@.height + y) ==> final(self)@.states == old(self)@.after_flood(
                old(self)@.around(x * old(self)@.height + y),
            ),
            !old(self)@.chord_fires(x * old(self)@.height + y) ==> final(self)@.states == old(self)@.states,
            r == if !old(self)@.chord_fires(x * old(self)@.height + y) {
                RevealOutcome::Ignored
            } else if exists|j: int|
                #[trigger] old(self)@.flood_region(old(self)@.around(x * old(self)@.height + y)).contains(j)
                    && old(self)@.values[j] == TileValue::Bomb {
                RevealOutcome::Lost
            } else {
                RevealOutcome::Cascade
            },
    {
        proof {
            lemma_index(self.width as int, self.height as int, x as int, y as int);
        }
        let w = self.width;
        let h = self.height;
        let i = x * h + y;
        let ghost before = self@;
        let ghost seeds = before.around(i as int);
        if self.states[i] != TileState::Uncovered {
            return RevealOutcome::Ignored;
        }
        let n = match self.values[i] {
            TileValue::Neighbours(n) => n,
            _ => {
                return RevealOutcome::Ignored;
            },
        };
        if self.count_adjacent_flags(i) != n {
            return RevealOutcome::Ignored;
        }
        let mut seed_list: Vec<usize> = Vec::new();
        let mut k: usize = 0;
        while k < 8
            invariant
                before.populated(),
                w == before.width,
                h == before.height,
                i < w * h,
                k <= 8,
                seeds == before.around(i as int),
                forall|m: int| 0 <= m < seed_list@.len() ==> seeds.contains(#[trigger] seed_list@[m] as int),
                forall|m: int| 0 <= m < seed_list@.len() ==> #[trigger] seed_list@[m] < w * h,
                forall|j: int|
                    0 <= j < w * h && adjacent(h as int, i as int, j) && offset_rank(col(h as int, j) - col(h as int, i as int), row(h as int, j) - row(h as int, i as int)) < k
                        ==> pending(seed_list@, j),
            decreases 8 - k,
        {
            match neighbour_index(w, h, i, k) {
                Some(j) => {
                    proof {
                        assert forall|m: int| pending(seed_list@, m) implies pending(seed_list@.push(j), m) by {
                            lemma_pending_push(seed_list@, j, m);
                        }
                        lemma_pending_push(seed_list@, j, j as int);
                    }
                    seed_list.push(j);
                },
                None => {},
            }
            proof {
                assert forall|j: int|
                    0 <= j < w * h && adjacent(h as int, i as int, j) && offset_rank(col(h as int, j) - col(h as int, i as int), row(h as int, j) - row(h as int, i as int)) == k
                        implies pending(seed_list@, j) by {
                    lemma_coords(w as int, h as int, j);
                    lemma_coords(w as int, h as int, i as int);
                }
            }
            k = k + 1;
        }
        let lost = self.flood(seed_list, Ghost(seeds));
        proof {
            assert(self@.states =~= before.after_flood(seeds));
        }
        if lost {
            RevealOutcome::Lost
        } else {
            RevealOutcome::Cascade
        }
    }

    /// A primary click on the cell at column `x`, row `y`: uncovers a covered
    /// cell, chords an uncovered number, and ignores a flag.
    pub fn left_click(&mut self, x: usize, y: usize) -> (r: RevealOutcome)
        requires
            old(self)@.populated(),
            x < old(self)@.width,
            y < old(self)@.height,
        ensures
            final(self)@.populated(),
            final(self)@.width == old(self)@.width,
            final(self)@.height == old(self)@.height,
            final(self)@.mines == old(self)@.mines,
            final(self)@.debug == old(self)@.debug,
            final(self)@.remaining == old(self)@.remaining,
            final(self)@.values == old(self)@.values,
            ({
                let i = x * old(self)@.height + y;
                let b = old(self)@;
                if b.states[i] == TileState::Covered {
                    &&& final(self)@.states == b.after_flood(set![i])
                    &&& r == match b.values[i] {
                        TileValue::Bomb => RevealOutcome::Lost,
                        TileValue::Empty => RevealOutcome::Cascade,
                        TileValue::Neighbours(_) => RevealOutcome::Single,
                    }
                } else if b.chord_fires(i) {
                    &&& final(self)@.states == b.after_flood(b.around(i))
                    &&& r == if exists|j: int| #[trigger] b.flood_region(b.around(i)).contains(j) && b.values[j] == TileValue::Bomb {
                        RevealOutcome::Lost
                    } else {
                        RevealOutcome::Cascade
                    }
                } else {
                    &&& final(self)@.states == b.states
                    &&& r == RevealOutcome::Ignored
                }
            }),
    {
        proof {
            lemma_index(self.width as int, self.height as int, x as int, y as int);
        }
        let i = x * self.height + y;
        if self.states[i] == TileState::Covered {
            self.uncover(x, y)
        } else {
            self.chord(x, y)
        }
    }

    /// A secondary click on the cell at column `x`, row `y`: flags a covered
    /// cell, unflags a flagged one, and ignores an uncovered one; the counter
    /// of remaining mines follows.
    pub fn toggle_flag(&mut self, x: usize, y: usize)
        requires
            old(self)@.populated(),
            x < old(self)@.width,
            y < old(self)@.height,
        ensures
            final(self)@.populated(),
            final(self)@.width == old(self)@.width,
            final(self)@.height == old(self)@.height,
            final(self)@.mines == old(self)@.mines,
            final(self)@.debug == old(self)@.debug,
            final(self)@.values == old(self)@.values,
            ({
                let i = x * old(self)@.height + y;
                let b = old(self)@;
                match b.states[i] {
                    TileState::Covered => {
                        &&& final(self)@.states == b.states.update(i, TileState::Flagged)
                        &&& final(self)@.remaining == b.remaining - 1
                    },
                    TileState::Flagged => {
                        &&& final(self)@.states == b.states.update(i, TileState::Covered)
                        &&& final(self)@.remaining == b.remaining + 1
                    },
                    TileState::Uncovered => {
                        &&& final(self)@.states == b.states
                        &&& final(self)@.remaining == b.remaining
                    },
                }
            }),
    {
        proof {
            lemma_index(self.width as int, self.height as int, x as int, y as int);
            lemma_count_bound(self@.states, TileState::Flagged);
        }
        let i = x * self.height + y;
        let ghost s0 = self@.states;
        match self.states[i] {
            TileState::Covered => {
                proof {
                    lemma_count_update(s0, i as int, TileState::Flagged, TileState::Flagged);
                }
                self.states.set(i, TileState::Flagged);
                self.mines_left = self.mines_left - 1;
            },
            TileState::Flagged => {
                proof {
                    lemma_count_update(s0, i as int, TileState::Covered, TileState::Flagged);
                }
                self.states.set(i, TileState::Covered);
                self.mines_left = self.mines_left + 1;
            },
            TileState::Uncovered => {},
        }
        proof {
            assert(self@.flag_layout().len() == s0.len());
        }
    }

    /// Whether every cell that is not uncovered holds a mine; the count runs
    /// over the board as it stands.
    pub fn is_won(&self) -> (r: bool)
        requires
            self@.populated(),
        ensures
            r == self@.won(),
    {
        let n = self.states.len();
        let mut hidden: usize = 0;
        let mut i: usize = 0;
        while i < n
            invariant
                self@.populated(),
                n == self@.cells(),
                i <= n,
                hidden <= i,
                hidden + count_of(self@.states.subrange(0, i as int), TileState::Uncovered) == i,
            decreases n - i,
        {
            proof {
                lemma_count_prefix(self@.states, TileState::Uncovered, i as int);
            }
            if self.states[i] != TileState::Uncovered {
                hidden = hidden + 1;
            }
            i = i + 1;
        }
        proof {
            assert(self@.states.subrange(0, n as int) =~= self@.states);
        }
        hidden == self.mines
    }

    /// A board of the chosen size with the difficulty's number of mines, not
    /// yet laid out.
    pub fn new(size: Size, difficulty: Difficulty) -> (r: Board)
        ensures
            r@.width == size_dimensions(size).0,
            r@.height == size_dimensions(size).1,
            r@.mines == mines_for(difficulty, r@.cells()),
            r@.debug == (difficulty == Difficulty::Debug),
            r@.config_ok(),
            r@.values.len() == 0,
            r@.states.len() == 0,
    {
        let (width, height) = size.dimensions();
        let mines = difficulty.mine_count(width * height);
        let debug = difficulty.is_debug();
        Board { width, height, mines, debug, values: Vec::new(), states: Vec::new(), mines_left: mines as isize }
    }

    /// A board of `width` columns and `height` rows with `mines` mines, not
    /// yet laid out; refused when it has no cells, too many cells to count
    /// in an `isize`, or more mines than cells.
    pub fn with_config(width: usize, height: usize, mines: usize) -> (r: Result<Board, ConfigError>)
        ensures
            width == 0 || height == 0 ==> r == Err::<Board, ConfigError>(ConfigError::NoCells),
            width > 0 && height > 0 && width * height > max_cells() ==> r == Err::<Board, ConfigError>(ConfigError::TooLarge),
            width > 0 && height > 0 && width * height <= max_cells() && mines > width * height ==> r == Err::<Board, ConfigError>(
                ConfigError::TooManyMines,
            ),
            width > 0 && height > 0 && width * height <= max_cells() && mines <= width * height ==> (r matches Ok(b)
                && b@.width == width && b@.height == height && b@.mines == mines && !b@.debug && b@.config_ok()
                && b@.values.len() == 0 && b@.states.len() == 0),
    {
        if width == 0 || height == 0 {
            return Err(ConfigError::NoCells);
        }
        let cells = match width.checked_mul(height) {
            Some(c) => c,
            None => {
                return Err(ConfigError::TooLarge);
            },
        };
        if cells > isize::MAX as usize {
            return Err(ConfigError::TooLarge);
        }
        if mines > cells {
            return Err(ConfigError::TooManyMines);
        }
        Ok(Board { width, height, mines, debug: false, values: Vec::new(), states: Vec::new(), mines_left: mines as isize })
    }

    /// Lays the mines out, every cell covered: the debugging pattern on a
    /// debugging board, otherwise `mines` mines at distinct cells drawn at
    /// random.
    pub fn initialize(&mut self)
        requires
            old(self)@.config_ok(),
        ensures
            final(self)@.populated(),
            final(self)@.width == old(self)@.width,
            final(self)@.height == old(self)@.height,
            final(self)@.debug == old(self)@.debug,
            forall|i: int| 0 <= i < final(self)@.cells() ==> #[trigger] final(self)@.states[i] == TileState::Covered,
            old(self)@.debug ==> forall|i: int|
                0 <= i < final(self)@.cells() ==> #[trigger] final(self)@.layout()[i] == debug_mine(
                    col(final(self)@.height, i),
                    row(final(self)@.height, i),
                ),
            !old(self)@.debug ==> final(self)@.mines == old(self)@.mines,
            old(self)@.debug ==> final(self)@.mines == 36,
    {
        let layout = if self.debug {
            debug_layout(self.width, self.height)
        } else {
            random_layout(self.width, self.height, self.mines)
        };
        self.populate(&layout);
    }
}

/// On a laid-out board the mines number `mines`; a cell without a mine is
/// empty exactly when no neighbour holds a mine, and otherwise holds the
/// number of its mined neighbours, between one and eight.
pub proof fn lemma_populated_board(b: BoardView)
    requires
        b.populated(),
    ensures
        count_of(b.layout(), true) == b.mines,
        forall|i: int|
            0 <= i < b.cells() && !b.layout()[i] ==> (#[trigger] b.values[i] == TileValue::Empty <==> adjacent_marked(
                b.layout(),
                b.width,
                b.height,
                col(b.height, i),
                row(b.height, i),
            ) == 0),
        forall|i: int|
            0 <= i < b.cells() && #[trigger] b.values[i] is Neighbours ==> 1 <= b.values[i]->Neighbours_0 <= 8
                && b.values[i]->Neighbours_0 == adjacent_marked(
                b.layout(),
                b.width,
                b.height,
                col(b.height, i),
                row(b.height, i),
            ),
{
    assert forall|i: int| 0 <= i < b.cells() implies #[trigger] b.values[i] == TileValue::Bomb <==> b.layout()[i] by {}
    assert forall|i: int| 0 <= i < b.cells() implies #[trigger] b.values[i] == cell_value(b.layout(), b.width, b.height, col(b.height, i), row(b.height, i))
        && 0 <= adjacent_marked(b.layout(), b.width, b.height, col(b.height, i), row(b.height, i)) <= 8 by {
        lemma_marked_near_bound(b.layout(), b.width, b.height, col(b.height, i), row(b.height, i), 8);
        lemma_coords(b.width, b.height, i);
    }
}

proof fn lemma_reach_connected(b: BoardView, seeds: Set<int>, k: nat)
    ensures
        forall|j: int|
            #[trigger] b.reach(seeds, k).contains(j) ==> b.covered(j) && (seeds.contains(j) || exists|i: int|
                #![trigger b.reach(seeds, k).contains(i), adjacent(b.height, i, j)]
                b.reach(seeds, k).contains(i) && b.values[i] == TileValue::Empty && adjacent(b.height, i, j)),
    decreases k,
{
    if k > 0 {
        lemma_reach_connected(b, seeds, (k - 1) as nat);
        let r = b.reach(seeds, (k - 1) as nat);
        assert forall|j: int| #[trigger] b.reach(seeds, k).contains(j) implies b.covered(j) && (seeds.contains(j) || exists|i: int|
            #![trigger b.reach(seeds, k).contains(i), adjacent(b.height, i, j)]
            b.reach(seeds, k).contains(i) && b.values[i] == TileValue::Empty && adjacent(b.height, i, j)) by {
            if !seeds.contains(j) {
                let i = choose|i: int|
                    #![trigger r.contains(i), adjacent(b.height, i, j)]
                    r.contains(i) && b.values[i] == TileValue::Empty && adjacent(b.height, i, j);
                assert(b.reach(seeds, k).contains(i));
            }
        }
    }
}

/// A flood uncovers only covered cells on the board, each at most once, and
/// holds together: every cell it uncovers is a seed or touches an empty cell
/// that it uncovers.
pub proof fn lemma_flood_connected(b: BoardView, seeds: Set<int>)
    ensures
        forall|j: int|
            #[trigger] b.flood_region(seeds).contains(j) ==> b.covered(j) && (seeds.contains(j) || exists|i: int|
                #![trigger b.flood_region(seeds).contains(i), adjacent(b.height, i, j)]
                b.flood_region(seeds).contains(i) && b.values[i] == TileValue::Empty && adjacent(b.height, i, j)),
        forall|j: int| 0 <= j < b.states.len() && b.states[j] != TileState::Covered ==> #[trigger] b.after_flood(seeds)[j] == b.states[j],
        forall|j: int| 0 <= j < b.states.len() && #[trigger] b.after_flood(seeds)[j] != b.states[j] ==> b.states[j] == TileState::Covered
            && b.after_flood(seeds)[j] == TileState::Uncovered,
{
    lemma_reach_connected(b, seeds, b.cells() as nat);
}

proof fn lemma_hidden_count(layout: Seq<bool>, states: Seq<TileState>)
    requires
        layout.len() == states.len(),
        forall|i: int| 0 <= i < layout.len() && #[trigger] layout[i] ==> states[i] != TileState::Uncovered,
    ensures
        count_of(states, TileState::Uncovered) + count_of(layout, true) <= layout.len(),
        count_of(states, TileState::Uncovered) + count_of(layout, true) == layout.len() <==> forall|i: int|
            0 <= i < layout.len() && !#[trigger] layout[i] ==> states[i] == TileState::Uncovered,
    decreases layout.len(),
{
    if layout.len() > 0 {
        let l = layout.drop_last();
        let s = states.drop_last();
        lemma_hidden_count(l, s);
        let last = layout.len() - 1;
        if forall|i: int| 0 <= i < layout.len() && !#[trigger] layout[i] ==> states[i] == TileState::Uncovered {
            assert forall|i: int| 0 <= i < l.len() && !#[trigger] l[i] implies s[i] == TileState::Uncovered by {
                assert(layout[i] == l[i]);
            }
        }
        if forall|i: int| 0 <= i < l.len() && !#[trigger] l[i] ==> s[i] == TileState::Uncovered {
            if count_of(states, TileState::Uncovered) + count_of(layout, true) == layout.len() {
                assert forall|i: int| 0 <= i < layout.len() && !#[trigger] layout[i] implies states[i] == TileState::Uncovered by {
                    if i < last {
                        assert(l[i] == layout[i]);
                    }
                }
            }
        }
    }
}

/// While no mine has been uncovered, the game is won exactly when
/// `width * height - mines` cells are uncovered, and exactly when every cell
/// without a mine is uncovered.
pub proof fn lemma_win_exact(b: BoardView)
    requires
        b.populated(),
        forall|i: int| 0 <= i < b.cells() && #[trigger] b.values[i] == TileValue::Bomb ==> b.states[i] != TileState::Uncovered,
    ensures
        b.won() <==> count_of(b.states, TileState::Uncovered) == b.cells() - b.mines,
        b.won() <==> forall|i: int| 0 <= i < b.cells() && b.values[i] != TileValue::Bomb ==> #[trigger] b.states[i] == TileState::Uncovered,
{
    assert forall|i: int| 0 <= i < b.cells() implies #[trigger] b.layout()[i] == (b.values[i] == TileValue::Bomb) by {}
    lemma_hidden_count(b.layout(), b.states);
    if forall|i: int| 0 <= i < b.cells() && !#[trigger] b.layout()[i] ==> b.states[i] == TileState::Uncovered {
        assert forall|i: int| 0 <= i < b.cells() && b.values[i] != TileValue::Bomb implies #[trigger] b.states[i] == TileState::Uncovered by {
            assert(!b.layout()[i]);
        }
    }
    if forall|i: int| 0 <= i < b.cells() && b.values[i] != TileValue::Bomb ==> #[trigger] b.states[i] == TileState::Uncovered {
        assert forall|i: int| 0 <= i < b.cells() && !#[trigger] b.layout()[i] implies b.states[i] == TileState::Uncovered by {
            assert(b.values[i] != TileValue::Bomb);
        }
    }
}

proof fn lemma_reach_within(b: BoardView, seeds: Set<int>, s: Set<int>, k: nat)
    requires
        forall|i: int| seeds.contains(i) && b.covered(i) ==> s.contains(i),
        forall|i: int, j: int|
            #![trigger s.contains(i), adjacent(b.height, i, j)]
            s.contains(i) && b.values[i] == TileValue::Empty && adjacent(b.height, i, j) && b.covered(j) ==> s.contains(j),
    ensures
        b.reach(seeds, k).subset_of(s),
    decreases k,
{
    if k > 0 {
        lemma_reach_within(b, seeds, s, (k - 1) as nat);
        let r = b.reach(seeds, (k - 1) as nat);
        assert forall|j: int| #[trigger] b.reach(seeds, k).contains(j) implies s.contains(j) by {
            if !r.contains(j) {
                let i = choose|i: int|
                    #![trigger r.contains(i), adjacent(b.height, i, j)]
                    r.contains(i) && b.values[i] == TileValue::Empty && adjacent(b.height, i, j);
                assert(s.contains(i));
            }
        }
    }
}

/// The flood region is the least set of cells that holds every covered seed
/// and, with each empty cell, every covered neighbour: it lies within any
/// such set. (That the region is itself such a set is stated by `uncover`.)
pub proof fn lemma_flood_least(b: BoardView, seeds: Set<int>, s: Set<int>)
    requires
        forall|i: int| seeds.contains(i) && b.covered(i) ==> s.contains(i),
        forall|i: int, j: int|
            #![trigger s.contains(i), adjacent(b.height, i, j)]
            s.contains(i) && b.values[i] == TileValue::Empty && adjacent(b.height, i, j) && b.covered(j) ==> s.contains(j),
    ensures
        b.flood_region(seeds).subset_of(s),
{
    lemma_reach_within(b, seeds, s, b.cells() as nat);
}

} // verus!
