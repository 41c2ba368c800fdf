use vstd::prelude::*;
use crate::grid::{
    alive_at, generations, in_grid, is_grid, neighbor_count, next_generation, Cell, FULL_HEAT,
    HEAT_STEP,
};

verus! {

/// The live-neighbour count of `(i, j)` on an unbounded plane whose live
/// places are those where `p` holds.
pub open spec fn plane_count(p: spec_fn(int, int) -> bool, i: int, j: int) -> int {
    (if p(i - 1, j - 1) { 1int } else { 0int }) + (if p(i - 1, j) { 1int } else { 0int }) + (if p(
        i - 1,
        j + 1,
    ) { 1int } else { 0int }) + (if p(i, j - 1) { 1int } else { 0int }) + (if p(i, j + 1) {
        1int
    } else {
        0int
    }) + (if p(i + 1, j - 1) { 1int } else { 0int }) + (if p(i + 1, j) { 1int } else { 0int }) + (
    if p(i + 1, j + 1) { 1int } else { 0int })
}

/// The live cells of `g` are exactly the places where `p` holds.
pub open spec fn alive_exactly(g: Seq<Seq<Cell>>, p: spec_fn(int, int) -> bool) -> bool {
    forall|a: int, b: int| #[trigger] in_grid(g, a, b) ==> (g[a][b] is Alive <==> p(a, b))
}

/// Same number of rows, and rows of the same lengths.
pub open spec fn same_shape(g1: Seq<Seq<Cell>>, g2: Seq<Seq<Cell>>) -> bool {
    g1.len() == g2.len() && forall|i: int| 0 <= i < g1.len() ==> #[trigger] g1[i].len() == g2[i].len()
}

/// Whether `(i, j)` has all eight neighbours on the grid.
pub open spec fn interior(g: Seq<Seq<Cell>>, i: int, j: int) -> bool {
    1 <= i && i + 1 < g.len() && 1 <= j && j + 1 < g[i].len()
}

/// A 2 by 2 square whose top left place is `(i, j)`.
pub open spec fn block(i: int, j: int) -> spec_fn(int, int) -> bool {
    |a: int, b: int| i <= a <= i + 1 && j <= b <= j + 1
}

/// Three places in a row centred on `(i, j)`.
pub open spec fn row_of_three(i: int, j: int) -> spec_fn(int, int) -> bool {
    |a: int, b: int| a == i && j - 1 <= b <= j + 1
}

/// Three places in a column centred on `(i, j)`.
pub open spec fn column_of_three(i: int, j: int) -> spec_fn(int, int) -> bool {
    |a: int, b: int| b == j && i - 1 <= a <= i + 1
}

/// The heat of a dead cell that started at `h` and was not born during `k`
/// generations: it drops by two each time while it can, then stays.
pub open spec fn heat_after(h: u8, k: nat) -> u8 {
    if 2 * k <= h {
        (h - 2 * k) as u8
    } else {
        (h % 2) as u8
    }
}

/// A count never exceeds eight.
pub proof fn lemma_neighbor_count_bounds(g: Seq<Seq<Cell>>, i: int, j: int)
    ensures
        0 <= neighbor_count(g, i, j) <= 8,
{
    reveal(neighbor_count);
}

/// Away from the edges, a grid counts as the unbounded plane does for any
/// pattern that agrees with the grid on the grid.
pub proof fn lemma_interior_count_is_unbounded(g: Seq<Seq<Cell>>, p: spec_fn(int, int) -> bool, i: int, j: int)
    requires
        is_grid(g),
        interior(g, i, j),
        alive_exactly(g, p),
    ensures
        neighbor_count(g, i, j) == plane_count(p, i, j),
{
    reveal(neighbor_count);
    assert(g[i - 1].len() == g[i].len() && g[i + 1].len() == g[i].len());
    assert(in_grid(g, i - 1, j - 1) && in_grid(g, i - 1, j) && in_grid(g, i - 1, j + 1));
    assert(in_grid(g, i, j - 1) && in_grid(g, i, j + 1));
    assert(in_grid(g, i + 1, j - 1) && in_grid(g, i + 1, j) && in_grid(g, i + 1, j + 1));
}

/// Moving a pattern to another place, on the same grid or on another one,
/// keeps the count at every place whose neighbours all moved with it.
pub proof fn lemma_count_translation(
    g1: Seq<Seq<Cell>>,
    g2: Seq<Seq<Cell>>,
    di: int,
    dj: int,
    i: int,
    j: int,
)
    requires
        is_grid(g1),
        is_grid(g2),
        interior(g1, i, j),
        forall|a: int, b: int|
            #[trigger] in_grid(g1, a, b) ==> in_grid(g2, a + di, b + dj) && (g2[a + di][b + dj] is Alive
                <==> g1[a][b] is Alive),
    ensures
        neighbor_count(g2, i + di, j + dj) == neighbor_count(g1, i, j),
{
    reveal(neighbor_count);
    assert(g1[i - 1].len() == g1[i].len() && g1[i + 1].len() == g1[i].len());
    assert(in_grid(g1, i - 1, j - 1) && in_grid(g1, i - 1, j) && in_grid(g1, i - 1, j + 1));
    assert(in_grid(g1, i, j - 1) && in_grid(g1, i, j + 1));
    assert(in_grid(g1, i + 1, j - 1) && in_grid(g1, i + 1, j) && in_grid(g1, i + 1, j + 1));
}

/// A generation keeps the shape of the grid.
pub proof fn lemma_next_generation_shape(g: Seq<Seq<Cell>>)
    requires
        is_grid(g),
    ensures
        is_grid(next_generation(g)),
        same_shape(next_generation(g), g),
{
}

/// Any number of generations keeps the shape of the grid.
pub proof fn lemma_generations_shape(g: Seq<Seq<Cell>>, n: nat)
    requires
        is_grid(g),
    ensures
        is_grid(generations(g, n)),
        same_shape(generations(g, n), g),
    decreases n,
{
    if n > 0 {
        lemma_generations_shape(g, (n - 1) as nat);
        lemma_next_generation_shape(generations(g, (n - 1) as nat));
    }
}

/// A live cell with no live neighbour dies, at full heat.
pub proof fn lemma_isolated_cell_dies(g: Seq<Seq<Cell>>, i: int, j: int)
    requires
        in_grid(g, i, j),
        g[i][j] is Alive,
        neighbor_count(g, i, j) == 0,
    ensures
        next_generation(g)[i][j] == Cell::Dead(FULL_HEAT),
{
}

proof fn lemma_block_step(g: Seq<Seq<Cell>>, i: int, j: int)
    requires
        is_grid(g),
        in_grid(g, i, j),
        in_grid(g, i + 1, j + 1),
        alive_exactly(g, block(i, j)),
    ensures
        alive_exactly(next_generation(g), block(i, j)),
{
    reveal(neighbor_count);
    let p = block(i, j);
    let h = next_generation(g);
    assert forall|a: int, b: int| #[trigger] in_grid(h, a, b) implies (h[a][b] is Alive <==> p(a, b)) by {
        assert(in_grid(g, a, b));
        assert forall|x: int, y: int| alive_at(g, x, y) <==> (in_grid(g, x, y) && p(x, y)) by {
            if in_grid(g, x, y) {
                assert(g[x][y] is Alive <==> p(x, y));
            }
        }
        assert(g[a].len() == g[0].len());
        if 0 <= a - 1 {
            assert(g[a - 1].len() == g[0].len());
        }
        if a + 1 < g.len() {
            assert(g[a + 1].len() == g[0].len());
        }
        assert(g[i].len() == g[0].len());
    }
}

/// A block is a still life: after any number of generations its four cells
/// are the only live ones.
pub proof fn lemma_block_is_still(g: Seq<Seq<Cell>>, i: int, j: int, n: nat)
    requires
        is_grid(g),
        in_grid(g, i, j),
        in_grid(g, i + 1, j + 1),
        alive_exactly(g, block(i, j)),
    ensures
        alive_exactly(generations(g, n), block(i, j)),
    decreases n,
{
    if n > 0 {
        let m = (n - 1) as nat;
        lemma_block_is_still(g, i, j, m);
        lemma_generations_shape(g, m);
        let gm = generations(g, m);
        assert(in_grid(gm, i, j) && in_grid(gm, i + 1, j + 1)) by {
            assert(gm[i].len() == g[i].len());
            assert(gm[i + 1].len() == g[i + 1].len());
        }
        lemma_block_step(gm, i, j);
    }
}

proof fn lemma_row_becomes_column(g: Seq<Seq<Cell>>, i: int, j: int)
    requires
        is_grid(g),
        interior(g, i, j),
        alive_exactly(g, row_of_three(i, j)),
    ensures
        alive_exactly(next_generation(g), column_of_three(i, j)),
{
    reveal(neighbor_count);
    let p = row_of_three(i, j);
    let q = column_of_three(i, j);
    let h = next_generation(g);
    assert forall|a: int, b: int| #[trigger] in_grid(h, a, b) implies (h[a][b] is Alive <==> q(a, b)) by {
        assert(in_grid(g, a, b));
        assert forall|x: int, y: int| alive_at(g, x, y) <==> (in_grid(g, x, y) && p(x, y)) by {
            if in_grid(g, x, y) {
                assert(g[x][y] is Alive <==> p(x, y));
            }
        }
        assert(g[a].len() == g[0].len());
        if 0 <= a - 1 {
            assert(g[a - 1].len() == g[0].len());
        }
        if a + 1 < g.len() {
            assert(g[a + 1].len() == g[0].len());
        }
        assert(g[i].len() == g[0].len());
        assert(g[i - 1].len() == g[0].len());
        assert(g[i + 1].len() == g[0].len());
    }
}

proof fn lemma_column_becomes_row(g: Seq<Seq<Cell>>, i: int, j: int)
    requires
        is_grid(g),
        interior(g, i, j),
        alive_exactly(g, column_of_three(i, j)),
    ensures
        alive_exactly(next_generation(g), row_of_three(i, j)),
{
    reveal(neighbor_count);
    let p = column_of_three(i, j);
    let q = row_of_three(i, j);
    let h = next_generation(g);
    assert forall|a: int, b: int| #[trigger] in_grid(h, a, b) implies (h[a][b] is Alive <==> q(a, b)) by {
        assert(in_grid(g, a, b));
        assert forall|x: int, y: int| alive_at(g, x, y) <==> (in_grid(g, x, y) && p(x, y)) by {
            if in_grid(g, x, y) {
                assert(g[x][y] is Alive <==> p(x, y));
            }
        }
        assert(g[a].len() == g[0].len());
        if 0 <= a - 1 {
            assert(g[a - 1].len() == g[0].len());
        }
        if a + 1 < g.len() {
            assert(g[a + 1].len() == g[0].len());
        }
        assert(g[i].len() == g[0].len());
        assert(g[i - 1].len() == g[0].len());
        assert(g[i + 1].len() == g[0].len());
    }
}

/// A blinker away from the edges turns from a row into a column, and back
/// into the same row one generation later.
pub proof fn lemma_blinker_period_two(g: Seq<Seq<Cell>>, i: int, j: int)
    requires
        is_grid(g),
        interior(g, i, j),
        alive_exactly(g, row_of_three(i, j)),
    ensures
        alive_exactly(generations(g, 1), column_of_three(i, j)),
        alive_exactly(generations(g, 2), row_of_three(i, j)),
{
    assert(generations(g, 1) == next_generation(g)) by {
        assert(generations(g, 0) == g);
    }
    assert(generations(g, 2) == next_generation(generations(g, 1)));
    lemma_row_becomes_column(g, i, j);
    lemma_next_generation_shape(g);
    let h = next_generation(g);
    assert(h[i].len() == g[i].len());
    lemma_column_becomes_row(h, i, j);
}

/// A dead cell that is never born cools by two each generation until its heat
/// is below two, and then keeps that heat.
pub proof fn lemma_heat_decay(g: Seq<Seq<Cell>>, i: int, j: int, h: u8, k: nat)
    requires
        is_grid(g),
        in_grid(g, i, j),
        g[i][j] == Cell::Dead(h),
        forall|m: nat| m < k ==> neighbor_count(#[trigger] generations(g, m), i, j) != 3,
    ensures
        generations(g, k)[i][j] == Cell::Dead(heat_after(h, k)),
    decreases k,
{
    if k > 0 {
        let m = (k - 1) as nat;
        lemma_heat_decay(g, i, j, h, m);
        lemma_generations_shape(g, m);
        let gm = generations(g, m);
        assert(neighbor_count(gm, i, j) != 3);
        assert(gm[i].len() == g[i].len());
        assert(generations(g, k) == next_generation(gm));
        assert(HEAT_STEP == 2);
    }
}

} // verus!
