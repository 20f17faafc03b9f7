use vstd::prelude::*;
use vstd::arithmetic::div_mod::{lemma_fundamental_div_mod, lemma_fundamental_div_mod_converse};

verus! {

/// The largest number of cells that a board may have.
pub open spec fn max_cells() -> int {
    isize::MAX as int
}

/// The column of the cell stored at index `i`: column `x`, row `y` is stored
/// at index `x * height + y`.
pub open spec fn col(h: int, i: int) -> int {
    i / h
}

/// The row of the cell stored at index `i`.
pub open spec fn row(h: int, i: int) -> int {
    i % h
}

/// Column `x`, row `y` lies on a `w` by `h` board.
pub open spec fn in_grid(w: int, h: int, x: int, y: int) -> bool {
    0 <= x < w && 0 <= y < h
}

/// The eight neighbour offsets, in the order in which cells are visited.
pub open spec fn offset(k: int) -> (int, int) {
    if k == 0 { (-1, -1) }
    else if k == 1 { (0, -1) }
    else if k == 2 { (1, -1) }
    else if k == 3 { (-1, 0) }
    else if k == 4 { (1, 0) }
    else if k == 5 { (-1, 1) }
    else if k == 6 { (0, 1) }
    else { (1, 1) }
}

/// The position of offset `(dx, dy)` in the visiting order.
pub open spec fn offset_rank(dx: int, dy: int) -> int {
    if dy == -1 { dx + 1 }
    else if dy == 0 { if dx == -1 { 3 } else { 4 } }
    else { dx + 6 }
}

/// Cells `i` and `j` are distinct and touch by a side or a corner.
pub open spec fn adjacent(h: int, i: int, j: int) -> bool {
    &&& i != j
    &&& -1 <= col(h, j) - col(h, i) <= 1
    &&& -1 <= row(h, j) - row(h, i) <= 1
}

/// Whether `layout` marks column `x`, row `y` (a mine, a flag); false off the grid.
pub open spec fn marked_at(layout: Seq<bool>, w: int, h: int, x: int, y: int) -> bool {
    in_grid(w, h, x, y) && layout[x * h + y]
}

/// The marked cells among the first `k` neighbours of `(x, y)`.
pub open spec fn marked_near(layout: Seq<bool>, w: int, h: int, x: int, y: int, k: int) -> int
    decreases k,
{
    if k <= 0 {
        0
    } else {
        marked_near(layout, w, h, x, y, k - 1) + if marked_at(
            layout,
            w,
            h,
            x + offset(k - 1).0,
            y + offset(k - 1).1,
        ) {
            1int
        } else {
            0int
        }
    }
}

/// The marked cells among all eight neighbours of `(x, y)`.
pub open spec fn adjacent_marked(layout: Seq<bool>, w: int, h: int, x: int, y: int) -> int {
    marked_near(layout, w, h, x, y, 8)
}

/// The cell at `(x, y)` is stored at an index below `w * h` from which its
/// column and row are read back.
pub proof fn lemma_index(w: int, h: int, x: int, y: int)
    requires
        in_grid(w, h, x, y),
    ensures
        0 <= x * h + y < w * h,
        col(h, x * h + y) == x,
        row(h, x * h + y) == y,
{
    assert(x * h + y < w * h) by (nonlinear_arith)
        requires
            0 <= x < w,
            0 <= y < h,
    ;
    assert(0 <= x * h) by (nonlinear_arith)
        requires
            0 <= x,
            0 <= h,
    ;
    lemma_fundamental_div_mod_converse(x * h + y, h, x, y);
}

/// Every index below `w * h` is the cell of its column and row.
pub proof fn lemma_coords(w: int, h: int, i: int)
    requires
        0 < h,
        0 <= i < w * h,
    ensures
        in_grid(w, h, col(h, i), row(h, i)),
        i == col(h, i) * h + row(h, i),
{
    lemma_fundamental_div_mod(i, h);
    assert(h * (i / h) == (i / h) * h) by (nonlinear_arith);
    assert(0 <= i / h) by (nonlinear_arith)
        requires
            0 <= i,
            0 < h,
    ;
    assert(i / h < w) by (nonlinear_arith)
        requires
            0 <= i < w * h,
            0 < h,
            i == (i / h) * h + i % h,
            0 <= i % h,
    ;
}

/// The index of neighbour `k` of cell `i` on a `w` by `h` board, if that
/// neighbour lies on the board.
pub fn neighbour_index(w: usize, h: usize, i: usize, k: usize) -> (r: Option<usize>)
    requires
        0 < h,
        w * h <= max_cells(),
        i < w * h,
        k < 8,
    ensures
        match r {
            Some(j) => {
                &&& j < w * h
                &&& in_grid(w as int, h as int, col(h as int, i as int) + offset(k as int).0, row(h as int, i as int) + offset(k as int).1)
                &&& j == (col(h as int, i as int) + offset(k as int).0) * h + (row(h as int, i as int) + offset(k as int).1)
                &&& col(h as int, j as int) == col(h as int, i as int) + offset(k as int).0
                &&& row(h as int, j as int) == row(h as int, i as int) + offset(k as int).1
                &&& adjacent(h as int, i as int, j as int)
                &&& offset_rank(offset(k as int).0, offset(k as int).1) == k
            },
            None => !in_grid(w as int, h as int, col(h as int, i as int) + offset(k as int).0, row(h as int, i as int) + offset(k as int).1),
        },
{
    proof {
        lemma_coords(w as int, h as int, i as int);
    }
    let x = i / h;
    let y = i % h;
    let (nx, ny): (usize, usize) = if k == 0 {
        if x == 0 || y == 0 { return None; }
        (x - 1, y - 1)
    } else if k == 1 {
        if y == 0 { return None; }
        (x, y - 1)
    } else if k == 2 {
        if x + 1 >= w || y == 0 { return None; }
        (x + 1, y - 1)
    } else if k == 3 {
        if x == 0 { return None; }
        (x - 1, y)
    } else if k == 4 {
        if x + 1 >= w { return None; }
        (x + 1, y)
    } else if k == 5 {
        if x == 0 || y + 1 >= h { return None; }
        (x - 1, y + 1)
    } else if k == 6 {
        if y + 1 >= h { return None; }
        (x, y + 1)
    } else {
        if x + 1 >= w || y + 1 >= h { return None; }
        (x + 1, y + 1)
    };
    proof {
        lemma_index(w as int, h as int, nx as int, ny as int);
        assert(nx * h + ny < w * h);
    }
    Some(nx * h + ny)
}

/// How many of the eight neighbours of cell `i` are marked in `layout`.
pub fn count_adjacent_marked(layout: &Vec<bool>, w: usize, h: usize, i: usize) -> (r: u8)
    requires
        0 < h,
        w * h <= max_cells(),
        layout@.len() == w * h,
        i < w * h,
    ensures
        r as int == adjacent_marked(layout@, w as int, h as int, col(h as int, i as int), row(h as int, i as int)),
        r <= 8,
{
    let ghost x = col(h as int, i as int);
    let ghost y = row(h as int, i as int);
    let mut n: u8 = 0;
    let mut k: usize = 0;
    while k < 8
        invariant
            0 < h,
            w * h <= max_cells(),
            layout@.len() == w * h,
            i < w * h,
            x == col(h as int, i as int),
            y == row(h as int, i as int),
            k <= 8,
            n <= k,
            n as int == marked_near(layout@, w as int, h as int, x, y, k as int),
        decreases 8 - k,
    {
        match neighbour_index(w, h, i, k) {
            Some(j) => {
                if layout[j] {
                    n = n + 1;
                }
            },
            None => {},
        }
        k = k + 1;
    }
    n
}

pub proof fn lemma_marked_near_bound(layout: Seq<bool>, w: int, h: int, x: int, y: int, k: int)
    requires
        0 <= k,
    ensures
        0 <= marked_near(layout, w, h, x, y, k) <= k,
    decreases k,
{
    if k > 0 {
        lemma_marked_near_bound(layout, w, h, x, y, k - 1);
    }
}

} // verus!
