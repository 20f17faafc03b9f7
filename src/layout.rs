use vstd::prelude::*;
use vstd::arithmetic::div_mod::{lemma_fundamental_div_mod, lemma_fundamental_div_mod_converse};

use crate::count::{count_of, lemma_count_prefix, lemma_count_update};
use crate::grid::{col, max_cells, offset_rank, row};

verus! {

/// Relies on `rand::random_range`: a value drawn from the thread-local
/// generator within `0..n`. It panics on an empty range, which `n > 0` rules out.
#[verifier::external_body]
fn random_below(n: usize) -> (r: usize)
    requires
        n > 0,
    ensures
        r < n,
{
    rand::random_range(0..n)
}

/// The index of the free cell (one without a mine) that `r` free cells precede.
pub fn nth_free(layout: &Vec<bool>, r: usize) -> (i: usize)
    requires
        r < count_of(layout@, false),
    ensures
        i < layout@.len(),
        !layout@[i as int],
        count_of(layout@.subrange(0, i as int), false) == r,
{
    let n = layout.len();
    let mut seen: usize = 0;
    let mut i: usize = 0;
    while i < n
        invariant
            n == layout@.len(),
            r < count_of(layout@, false),
            i <= n,
            seen as int == count_of(layout@.subrange(0, i as int), false),
            seen <= r,
        decreases n - i,
    {
        proof {
            lemma_count_prefix(layout@, false, i as int);
        }
        if !layout[i] {
            if seen == r {
                return i;
            }
            seen = seen + 1;
        }
        i = i + 1;
    }
    proof {
        assert(layout@.subrange(0, n as int) =~= layout@);
    }
    i
}

/// A layout of `w * h` cells with `mines` mines at distinct cells, each mine
/// drawn uniformly among the cells still free.
pub fn random_layout(w: usize, h: usize, mines: usize) -> (r: Vec<bool>)
    requires
        w * h <= max_cells(),
        mines <= w * h,
    ensures
        r@.len() == w * h,
        count_of(r@, true) == mines,
{
    let n = w * h;
    let mut layout: Vec<bool> = Vec::new();
    let mut i: usize = 0;
    while i < n
        invariant
            n == w * h,
            i <= n,
            layout@.len() == i,
            forall|j: int| 0 <= j < i ==> !#[trigger] layout@[j],
            count_of(layout@, true) == 0,
            count_of(layout@, false) == i,
        decreases n - i,
    {
        proof {
            assert(layout@.push(false).drop_last() =~= layout@);
        }
        layout.push(false);
        i = i + 1;
    }
    let mut chosen: usize = 0;
    while chosen < mines
        invariant
            n == w * h,
            mines <= n,
            chosen <= mines,
            layout@.len() == n,
            count_of(layout@, true) == chosen,
            count_of(layout@, false) == n - chosen,
        decreases mines - chosen,
    {
        let pick = nth_free(&layout, random_below(n - chosen));
        proof {
            lemma_count_update(layout@, pick as int, true, true);
            lemma_count_update(layout@, pick as int, true, false);
        }
        layout.set(pick, true);
        chosen = chosen + 1;
    }
    layout
}

/// The fixed debugging pattern on the nine by nine corner: the block of three
/// by three cells around centre `(1 + 3a, 1 + 3b)` holds mines on the first
/// `3a + b` neighbours of its centre, in visiting order.
pub open spec fn debug_mine(x: int, y: int) -> bool {
    &&& 0 <= x < 9
    &&& 0 <= y < 9
    &&& !(x % 3 == 1 && y % 3 == 1)
    &&& offset_rank(x % 3 - 1, y % 3 - 1) < 3 * (x / 3) + y / 3
}

/// The debugging mines in column `x` among its first `k` rows.
pub open spec fn debug_column(x: int, k: int) -> int
    decreases k,
{
    if k <= 0 {
        0
    } else {
        debug_column(x, k - 1) + if debug_mine(x, k - 1) {
            1int
        } else {
            0int
        }
    }
}

/// The debugging mines in the first `k` columns of a board with `h` rows.
pub open spec fn debug_columns(k: int, h: int) -> int
    decreases k,
{
    if k <= 0 {
        0
    } else {
        debug_columns(k - 1, h) + debug_column(k - 1, h)
    }
}

proof fn lemma_debug_column_rows(x: int, h: int)
    requires
        9 <= h,
    ensures
        debug_column(x, h) == debug_column(x, 9),
    decreases h,
{
    if h > 9 {
        lemma_debug_column_rows(x, h - 1);
    }
}

proof fn lemma_debug_column_empty(x: int, k: int)
    requires
        9 <= x,
    ensures
        debug_column(x, k) == 0,
    decreases k,
{
    if k > 0 {
        lemma_debug_column_empty(x, k - 1);
    }
}

proof fn lemma_debug_columns_rows(k: int, h: int)
    requires
        9 <= h,
    ensures
        debug_columns(k, h) == debug_columns(k, 9),
    decreases k,
{
    if k > 0 {
        lemma_debug_columns_rows(k - 1, h);
        lemma_debug_column_rows(k - 1, h);
    }
}

proof fn lemma_debug_columns_cols(w: int, h: int)
    requires
        9 <= w,
    ensures
        debug_columns(w, h) == debug_columns(9, h),
    decreases w,
{
    if w > 9 {
        lemma_debug_columns_cols(w - 1, h);
        lemma_debug_column_empty(w - 1, h);
    }
}

/// The debugging pattern holds thirty-six mines on any board of at least
/// nine by nine cells.
pub proof fn lemma_debug_count(w: int, h: int)
    requires
        9 <= w,
        9 <= h,
    ensures
        debug_columns(w, h) == 36,
{
    lemma_debug_columns_cols(w, h);
    lemma_debug_columns_rows(9, h);
    reveal_with_fuel(debug_column, 10);
    reveal_with_fuel(debug_columns, 10);
    assert(debug_column(0, 9) == 2);
    assert(debug_column(1, 9) == 1);
    assert(debug_column(2, 9) == 0);
    assert(debug_column(3, 9) == 5);
    assert(debug_column(4, 9) == 3);
    assert(debug_column(5, 9) == 4);
    assert(debug_column(6, 9) == 9);
    assert(debug_column(7, 9) == 5);
    assert(debug_column(8, 9) == 7);
}

/// The debugging layout of a `w` by `h` board.
pub fn debug_layout(w: usize, h: usize) -> (r: Vec<bool>)
    requires
        0 < h,
        w * h <= max_cells(),
    ensures
        r@.len() == w * h,
        forall|i: int| 0 <= i < w * h ==> #[trigger] r@[i] == debug_mine(col(h as int, i), row(h as int, i)),
        9 <= w && 9 <= h ==> count_of(r@, true) == 36,
{
    let n = w * h;
    let mut layout: Vec<bool> = Vec::new();
    let mut i: usize = 0;
    while i < n
        invariant
            0 < h,
            n == w * h,
            i <= n,
            layout@.len() == i,
            forall|j: int| 0 <= j < i ==> #[trigger] layout@[j] == debug_mine(col(h as int, j), row(h as int, j)),
            count_of(layout@, true) == debug_columns(col(h as int, i as int), h as int) + debug_column(
                col(h as int, i as int),
                row(h as int, i as int),
            ),
        decreases n - i,
    {
        let x = i / h;
        let y = i % h;
        proof {
            lemma_fundamental_div_mod(i as int, h as int);
            assert(h * x == x * h) by (nonlinear_arith);
            if y + 1 < h {
                lemma_fundamental_div_mod_converse(i + 1, h as int, x as int, y + 1);
            } else {
                assert(i + 1 == (x + 1) * h + 0) by (nonlinear_arith)
                    requires
                        i == h * x + y,
                        y + 1 == h,
                ;
                lemma_fundamental_div_mod_converse(i + 1, h as int, x + 1, 0);
            }
        }
        let mine = if x < 9 && y < 9 && !(x % 3 == 1 && y % 3 == 1) {
            let dx = x % 3;
            let dy = y % 3;
            let rank: usize = if dy == 0 {
                dx
            } else if dy == 1 {
                if dx == 0 { 3 } else { 4 }
            } else {
                dx + 5
            };
            rank < 3 * (x / 3) + y / 3
        } else {
            false
        };
        proof {
            assert(layout@.push(mine).drop_last() =~= layout@);
        }
        layout.push(mine);
        i = i + 1;
    }
    proof {
        if 9 <= w && 9 <= h {
            lemma_fundamental_div_mod_converse(n as int, h as int, w as int, 0);
            lemma_debug_count(w as int, h as int);
        }
    }
    layout
}

} // verus!
