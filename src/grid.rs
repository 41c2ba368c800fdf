use vstd::prelude::*;

verus! {

/// One cell: alive, or dead with the heat of its afterglow.
#[derive(Clone, Copy, Debug, PartialEq, Eq, Structural)]
pub enum Cell {
    Dead(u8),
    Alive,
}

/// The heat a cell has right after it dies.
pub const FULL_HEAT: u8 = 255;

/// How much heat a dead cell loses in one generation.
pub const HEAT_STEP: u8 = 2;

/// What a cell becomes when it is flipped: a dead cell is born, a live one
/// dies at full heat.
pub open spec fn flipped(c: Cell) -> Cell {
    match c {
        Cell::Dead(_) => Cell::Alive,
        Cell::Alive => Cell::Dead(FULL_HEAT),
    }
}

impl Cell {
    pub fn flip(&mut self)
        ensures
            *final(self) == flipped(*old(self)),
    {
        *self = match self {
            Cell::Dead(_) => Cell::Alive,
            Cell::Alive => Cell::Dead(FULL_HEAT),
        };
    }
}

/// A grid: at least one row, and every row as long as the first, which is
/// not empty.
pub open spec fn is_grid(g: Seq<Seq<Cell>>) -> bool {
    &&& g.len() > 0
    &&& g[0].len() > 0
    &&& forall|i: int| 0 <= i < g.len() ==> #[trigger] g[i].len() == g[0].len()
}

pub open spec fn in_grid(g: Seq<Seq<Cell>>, i: int, j: int) -> bool {
    0 <= i < g.len() && 0 <= j < g[i].len()
}

/// Whether `(i, j)` holds a live cell; every place off the grid is dead.
pub open spec fn alive_at(g: Seq<Seq<Cell>>, i: int, j: int) -> bool {
    in_grid(g, i, j) && g[i][j] is Alive
}

pub open spec fn alive_num(g: Seq<Seq<Cell>>, i: int, j: int) -> int {
    if alive_at(g, i, j) {
        1
    } else {
        0
    }
}

/// The number of live cells among the eight around `(i, j)`.
#[verifier::opaque]
pub open spec fn neighbor_count(g: Seq<Seq<Cell>>, i: int, j: int) -> int {
    alive_num(g, i - 1, j - 1) + alive_num(g, i - 1, j) + alive_num(g, i - 1, j + 1)
        + alive_num(g, i, j - 1) + alive_num(g, i, j + 1)
        + alive_num(g, i + 1, j - 1) + alive_num(g, i + 1, j) + alive_num(g, i + 1, j + 1)
}

/// Whether a cell with `n` live neighbours changes between alive and dead.
pub open spec fn must_flip(c: Cell, n: int) -> bool {
    match c {
        Cell::Alive => n < 2 || n > 3,
        Cell::Dead(_) => n == 3,
    }
}

/// A dead cell that is not born cools by one step, as long as it can.
pub open spec fn cooled(c: Cell, n: int) -> Cell {
    match c {
        Cell::Dead(h) => if n != 3 && h >= HEAT_STEP {
            Cell::Dead((h - HEAT_STEP) as u8)
        } else {
            c
        },
        Cell::Alive => c,
    }
}

/// The cell in the next generation, given its live neighbours.
pub open spec fn next_cell(c: Cell, n: int) -> Cell {
    match c {
        Cell::Alive => if n < 2 || n > 3 {
            Cell::Dead(FULL_HEAT)
        } else {
            Cell::Alive
        },
        Cell::Dead(h) => if n == 3 {
            Cell::Alive
        } else if h >= HEAT_STEP {
            Cell::Dead((h - HEAT_STEP) as u8)
        } else {
            Cell::Dead(h)
        },
    }
}

/// The whole grid one generation on: every cell is judged on the grid as it
/// was before the step.
pub open spec fn next_generation(g: Seq<Seq<Cell>>) -> Seq<Seq<Cell>> {
    Seq::new(
        g.len(),
        |i: int| Seq::new(g[i].len(), |j: int| next_cell(g[i][j], neighbor_count(g, i, j))),
    )
}

/// The grid after `n` generations.
pub open spec fn generations(g: Seq<Seq<Cell>>, n: nat) -> Seq<Seq<Cell>>
    decreases n,
{
    if n == 0 {
        g
    } else {
        next_generation(generations(g, (n - 1) as nat))
    }
}

/// `g` with the cell at `(i, j)` replaced, when that place is on the grid.
pub open spec fn with_cell(g: Seq<Seq<Cell>>, i: int, j: int, c: Cell) -> Seq<Seq<Cell>> {
    if in_grid(g, i, j) {
        g.update(i, g[i].update(j, c))
    } else {
        g
    }
}

/// The grid with every dead cell that is not born cooled by one step: what
/// the first pass of a generation leaves.
pub open spec fn cooled_generation(g: Seq<Seq<Cell>>) -> Seq<Seq<Cell>> {
    Seq::new(
        g.len(),
        |i: int| Seq::new(g[i].len(), |j: int| cooled(g[i][j], neighbor_count(g, i, j))),
    )
}

/// Whether `(i, j)` stands among the places of `s`.
pub open spec fn listed(s: Seq<(usize, usize)>, i: int, j: int) -> bool {
    exists|k: int| 0 <= k < s.len() && s[k] == (i as usize, j as usize)
}

/// The grid with the cell at each place of `s` flipped.
pub open spec fn flipped_at(g: Seq<Seq<Cell>>, s: Seq<(usize, usize)>) -> Seq<Seq<Cell>> {
    Seq::new(
        g.len(),
        |i: int|
            Seq::new(
                g[i].len(),
                |j: int|
                    if listed(s, i, j) {
                        flipped(g[i][j])
                    } else {
                        g[i][j]
                    },
            ),
    )
}

/// `(a, b)` comes before `(i, j)` in row-major order.
pub open spec fn before(a: int, b: int, i: int, j: int) -> bool {
    a < i || (a == i && b < j)
}

proof fn lemma_listed_push(s: Seq<(usize, usize)>, x: (usize, usize), a: int, b: int)
    ensures
        listed(s.push(x), a, b) <==> (listed(s, a, b) || x == (a as usize, b as usize)),
{
    if listed(s, a, b) {
        let k = choose|k: int| 0 <= k < s.len() && s[k] == (a as usize, b as usize);
        assert(s.push(x)[k] == s[k]);
    }
    if x == (a as usize, b as usize) {
        assert(s.push(x)[s.len() as int] == x);
    }
    if listed(s.push(x), a, b) {
        let k = choose|k: int| 0 <= k < s.push(x).len() && s.push(x)[k] == (a as usize, b as usize);
        if k < s.len() {
            assert(s[k] == s.push(x)[k]);
        }
    }
}

/// Two grids of one shape whose cells agree on which are alive give every
/// place the same count.
proof fn lemma_same_life_same_count(g1: Seq<Seq<Cell>>, g2: Seq<Seq<Cell>>)
    requires
        g1.len() == g2.len(),
        forall|i: int| 0 <= i < g1.len() ==> #[trigger] g1[i].len() == g2[i].len(),
        forall|i: int, j: int| in_grid(g1, i, j) ==> (g1[i][j] is Alive <==> g2[i][j] is Alive),
    ensures
        forall|i: int, j: int| #[trigger] neighbor_count(g1, i, j) == neighbor_count(g2, i, j),
{
    assert forall|i: int, j: int| alive_at(g1, i, j) == alive_at(g2, i, j) by {
        if 0 <= i < g1.len() {
            assert(g1[i].len() == g2[i].len());
            if in_grid(g1, i, j) {
                assert(g1[i][j] is Alive <==> g2[i][j] is Alive);
            }
        }
    }
    reveal(neighbor_count);
}

/// A grid of cells, `height` rows of `width` each.
pub struct Cells {
    rows: Vec<Vec<Cell>>,
    width: usize,
}

impl View for Cells {
    type V = Seq<Seq<Cell>>;

    closed spec fn view(&self) -> Seq<Seq<Cell>> {
        self.rows@.map_values(|r: Vec<Cell>| r@)
    }
}

impl Cells {
    /// The rows all have the stored width, and both sides fit in an `isize`
    /// with room for the neighbours of the last place.
    pub closed spec fn wf(&self) -> bool {
        &&& 0 < self.rows@.len() < isize::MAX
        &&& 0 < self.width < isize::MAX
        &&& forall|i: int| 0 <= i < self.rows@.len() ==> #[trigger] self.rows@[i]@.len() == self.width
    }

    proof fn lemma_wf_view(&self)
        requires
            self.wf(),
        ensures
            is_grid(self@),
            self@.len() == self.rows@.len(),
            forall|i: int| 0 <= i < self@.len() ==> #[trigger] self@[i] == self.rows@[i]@,
            forall|i: int| 0 <= i < self@.len() ==> #[trigger] self@[i].len() == self.width,
    {
    }

    /// A grid of the given size with every cell dead and cold.
    pub fn new(width: usize, height: usize) -> (r: Cells)
        requires
            0 < width < isize::MAX,
            0 < height < isize::MAX,
        ensures
            r.wf(),
            is_grid(r@),
            r@.len() == height,
            r@[0].len() == width,
            forall|i: int, j: int| in_grid(r@, i, j) ==> r@[i][j] == Cell::Dead(0),
    {
        let mut rows: Vec<Vec<Cell>> = Vec::new();
        let mut i: usize = 0;
        while i < height
            invariant
                i <= height,
                rows@.len() == i,
                forall|a: int| 0 <= a < i ==> #[trigger] rows@[a]@.len() == width,
                forall|a: int, b: int|
                    0 <= a < i && 0 <= b < width ==> rows@[a]@[b] == Cell::Dead(0),
            decreases height - i,
        {
            let row: Vec<Cell> = vec![Cell::Dead(0); width];
            rows.push(row);
            i = i + 1;
        }
        let r = Cells { rows, width };
        proof {
            r.lemma_wf_view();
        }
        r
    }

    /// A grid whose cell at `(i, j)` is alive when `draws[i][j] < density`,
    /// and dead and cold otherwise.
    pub fn seeded(width: usize, height: usize, draws: &Vec<Vec<u8>>, density: u8) -> (r: Cells)
        requires
            0 < width < isize::MAX,
            0 < height < isize::MAX,
            draws@.len() == height,
            forall|i: int| 0 <= i < height ==> (#[trigger] draws@[i])@.len() == width,
        ensures
            r.wf(),
            is_grid(r@),
            r@.len() == height,
            r@[0].len() == width,
            forall|i: int, j: int|
                in_grid(r@, i, j) ==> r@[i][j] == if draws@[i]@[j] < density {
                    Cell::Alive
                } else {
                    Cell::Dead(0)
                },
    {
        let mut rows: Vec<Vec<Cell>> = Vec::new();
        let mut i: usize = 0;
        while i < height
            invariant
                i <= height,
                rows@.len() == i,
                draws@.len() == height,
                forall|a: int| 0 <= a < height ==> (#[trigger] draws@[a])@.len() == width,
                forall|a: int| 0 <= a < i ==> #[trigger] rows@[a]@.len() == width,
                forall|a: int, b: int|
                    0 <= a < i && 0 <= b < width ==> rows@[a]@[b] == if draws@[a]@[b] < density {
                        Cell::Alive
                    } else {
                        Cell::Dead(0)
                    },
            decreases height - i,
        {
            let mut row: Vec<Cell> = Vec::new();
            let mut j: usize = 0;
            while j < width
                invariant
                    i < height,
                    j <= width,
                    row@.len() == j,
                    draws@.len() == height,
                    forall|a: int| 0 <= a < height ==> (#[trigger] draws@[a])@.len() == width,
                    forall|b: int|
                        0 <= b < j ==> row@[b] == if draws@[i as int]@[b] < density {
                            Cell::Alive
                        } else {
                            Cell::Dead(0)
                        },
                decreases width - j,
            {
                if draws[i][j] < density {
                    row.push(Cell::Alive);
                } else {
                    row.push(Cell::Dead(0));
                }
                j = j + 1;
            }
            rows.push(row);
            i = i + 1;
        }
        let r = Cells { rows, width };
        proof {
            r.lemma_wf_view();
        }
        r
    }

    pub fn width(&self) -> (r: usize)
        requires
            self.wf(),
        ensures
            r == self@[0].len(),
            r < isize::MAX,
    {
        proof {
            self.lemma_wf_view();
        }
        self.width
    }

    pub fn height(&self) -> (r: usize)
        requires
            self.wf(),
        ensures
            r == self@.len(),
            r < isize::MAX,
    {
        proof {
            self.lemma_wf_view();
        }
        self.rows.len()
    }

    /// The cell at `(i, j)`, or `None` off the grid.
    pub fn cell(&self, i: isize, j: isize) -> (r: Option<Cell>)
        requires
            self.wf(),
        ensures
            r == if in_grid(self@, i as int, j as int) {
                Some(self@[i as int][j as int])
            } else {
                None
            },
    {
        proof {
            self.lemma_wf_view();
        }
        if i < 0 || j < 0 {
            return None;
        }
        let iu = i as usize;
        let ju = j as usize;
        if iu < self.rows.len() && ju < self.width {
            Some(self.rows[iu][ju])
        } else {
            None
        }
    }

    /// 1 if the cell at `(i, j)` is alive, else 0; places off the grid are
    /// dead.
    pub fn is_alive_usize(&self, i: isize, j: isize) -> (r: usize)
        requires
            self.wf(),
        ensures
            r == alive_num(self@, i as int, j as int),
    {
        match self.cell(i, j) {
            Some(Cell::Alive) => 1,
            _ => 0,
        }
    }

    /// Whether the cell at `(i, j)` is alive; places off the grid are dead.
    pub fn is_alive(&self, i: isize, j: isize) -> (r: bool)
        requires
            self.wf(),
        ensures
            r == alive_at(self@, i as int, j as int),
    {
        self.is_alive_usize(i, j) == 1
    }

    /// Brings the cell at `(i, j)` to life; off the grid nothing happens.
    pub fn make_alive(&mut self, i: isize, j: isize)
        requires
            old(self).wf(),
        ensures
            final(self).wf(),
            final(self)@ == with_cell(old(self)@, i as int, j as int, Cell::Alive),
    {
        match self.cell(i, j) {
            Some(Cell::Dead(_)) => self.set_cell(i as usize, j as usize, Cell::Alive),
            _ => {
                proof {
                    if in_grid(self@, i as int, j as int) {
                        assert(self@[i as int].update(j as int, Cell::Alive) =~= self@[i as int]);
                        assert(self@.update(i as int, self@[i as int]) =~= self@);
                    }
                }
            },
        }
    }

    /// Kills the cell at `(i, j)` with no afterglow; a dead cell keeps its
    /// heat, and off the grid nothing happens.
    pub fn make_dead(&mut self, i: isize, j: isize)
        requires
            old(self).wf(),
        ensures
            final(self).wf(),
            final(self)@ == if alive_at(old(self)@, i as int, j as int) {
                with_cell(old(self)@, i as int, j as int, Cell::Dead(0))
            } else {
                old(self)@
            },
    {
        match self.cell(i, j) {
            Some(Cell::Alive) => self.set_cell(i as usize, j as usize, Cell::Dead(0)),
            _ => {},
        }
    }

    /// The number of live cells among the eight around `(i, j)`.
    pub fn alive_neighbors(&self, i: isize, j: isize) -> (r: usize)
        requires
            self.wf(),
            isize::MIN < i < isize::MAX,
            isize::MIN < j < isize::MAX,
        ensures
            r == neighbor_count(self@, i as int, j as int),
            r <= 8,
    {
        reveal(neighbor_count);
        let mut count: usize = 0;
        count += self.is_alive_usize(i - 1, j - 1);
        count += self.is_alive_usize(i - 1, j);
        count += self.is_alive_usize(i - 1, j + 1);
        count += self.is_alive_usize(i, j - 1);
        count += self.is_alive_usize(i, j + 1);
        count += self.is_alive_usize(i + 1, j - 1);
        count += self.is_alive_usize(i + 1, j);
        count += self.is_alive_usize(i + 1, j + 1);
        count
    }

    /// Every cell dead and cold.
    pub fn clear(&mut self)
        requires
            old(self).wf(),
        ensures
            final(self).wf(),
            final(self)@.len() == old(self)@.len(),
            forall|i: int| 0 <= i < final(self)@.len() ==> #[trigger] final(self)@[i].len() == old(self)@[i].len(),
            forall|i: int, j: int| in_grid(final(self)@, i, j) ==> final(self)@[i][j] == Cell::Dead(0),
    {
        proof {
            self.lemma_wf_view();
        }
        let height = self.rows.len();
        let width = self.width;
        let mut i: usize = 0;
        while i < height
            invariant
                self.wf(),
                self@.len() == height,
                height == old(self)@.len(),
                forall|a: int| 0 <= a < height ==> #[trigger] self@[a].len() == width,
                i <= height,
                forall|a: int| 0 <= a < height ==> #[trigger] old(self)@[a].len() == width,
                forall|a: int, b: int| 0 <= a < i && 0 <= b < width ==> self@[a][b] == Cell::Dead(0),
            decreases height - i,
        {
            let mut j: usize = 0;
            while j < width
                invariant
                    self.wf(),
                    self@.len() == height,
                    forall|a: int| 0 <= a < height ==> #[trigger] self@[a].len() == width,
                    i < height,
                    j <= width,
                    forall|a: int, b: int|
                        (0 <= a < i && 0 <= b < width) || (a == i && 0 <= b < j) ==> self@[a][b]
                            == Cell::Dead(0),
                decreases width - j,
            {
                proof {
                    self.lemma_wf_view();
                }
                self.set_cell(i, j, Cell::Dead(0));
                j = j + 1;
            }
            i = i + 1;
        }
        proof {
            self.lemma_wf_view();
        }
    }

    /// First pass of a generation: cools the dead cells that are not born and
    /// lists, in row-major order, the places whose cell must flip. Whether a
    /// cell is alive does not change, so every count is the one of the grid
    /// before the pass.
    fn cool_and_list_flips(&mut self) -> (flips: Vec<(usize, usize)>)
        requires
            old(self).wf(),
        ensures
            final(self).wf(),
            final(self)@ == cooled_generation(old(self)@),
            flips@.no_duplicates(),
            forall|k: int| 0 <= k < flips@.len() ==> in_grid(old(self)@, #[trigger] flips@[k].0 as int, flips@[k].1 as int),
            forall|a: int, b: int|
                in_grid(old(self)@, a, b) ==> (listed(flips@, a, b) <==> must_flip(
                    old(self)@[a][b],
                    neighbor_count(old(self)@, a, b),
                )),
    {
        let ghost g0 = self@;
        proof {
            self.lemma_wf_view();
        }
        let height = self.rows.len();
        let width = self.width;
        let mut flips: Vec<(usize, usize)> = Vec::new();
        let mut i: usize = 0;
        while i < height
            invariant
                self.wf(),
                self@.len() == height,
                g0.len() == height,
                height < isize::MAX,
                width < isize::MAX,
                i <= height,
                is_grid(g0),
                forall|a: int| 0 <= a < height ==> #[trigger] self@[a].len() == width,
                forall|a: int| 0 <= a < height ==> #[trigger] g0[a].len() == width,
                forall|a: int, b: int|
                    in_grid(g0, a, b) ==> #[trigger] self@[a][b] == if before(a, b, i as int, 0) {
                        cooled(g0[a][b], neighbor_count(g0, a, b))
                    } else {
                        g0[a][b]
                    },
                flips@.no_duplicates(),
                forall|k: int|
                    0 <= k < flips@.len() ==> in_grid(g0, #[trigger] flips@[k].0 as int, flips@[k].1 as int)
                        && before(flips@[k].0 as int, flips@[k].1 as int, i as int, 0),
                forall|a: int, b: int|
                    in_grid(g0, a, b) && before(a, b, i as int, 0) ==> (listed(flips@, a, b)
                        <==> must_flip(g0[a][b], neighbor_count(g0, a, b))),
            decreases height - i,
        {
            let mut j: usize = 0;
            while j < width
                invariant
                    self.wf(),
                    self@.len() == height,
                    g0.len() == height,
                    height < isize::MAX,
                    width < isize::MAX,
                    i < height,
                    j <= width,
                    is_grid(g0),
                    forall|a: int| 0 <= a < height ==> #[trigger] self@[a].len() == width,
                    forall|a: int| 0 <= a < height ==> #[trigger] g0[a].len() == width,
                    forall|a: int, b: int|
                        in_grid(g0, a, b) ==> #[trigger] self@[a][b] == if before(a, b, i as int, j as int) {
                            cooled(g0[a][b], neighbor_count(g0, a, b))
                        } else {
                            g0[a][b]
                        },
                    flips@.no_duplicates(),
                    forall|k: int|
                        0 <= k < flips@.len() ==> in_grid(g0, #[trigger] flips@[k].0 as int, flips@[k].1 as int)
                            && before(flips@[k].0 as int, flips@[k].1 as int, i as int, j as int),
                    forall|a: int, b: int|
                        in_grid(g0, a, b) && before(a, b, i as int, j as int) ==> (listed(flips@, a, b)
                            <==> must_flip(g0[a][b], neighbor_count(g0, a, b))),
                decreases width - j,
            {
                proof {
                    self.lemma_wf_view();
                    assert forall|a: int, b: int| in_grid(self@, a, b) implies (self@[a][b] is Alive
                        <==> g0[a][b] is Alive) by {
                        assert(in_grid(g0, a, b));
                    }
                    lemma_same_life_same_count(self@, g0);
                    assert(!listed(flips@, i as int, j as int)) by {
                        if listed(flips@, i as int, j as int) {
                            let k = choose|k: int| 0 <= k < flips@.len() && flips@[k] == (i, j);
                            assert(before(flips@[k].0 as int, flips@[k].1 as int, i as int, j as int));
                        }
                    }
                }
                let n = self.alive_neighbors(i as isize, j as isize);
                proof {
                    assert(in_grid(g0, i as int, j as int));
                    assert(self@[i as int][j as int] == g0[i as int][j as int]);
                }
                let c = self.rows[i][j];
                let ghost fl0 = flips@;
                let ghost s0 = self@;
                let flip = match c {
                    Cell::Dead(h) => {
                        if n == 3 {
                            true
                        } else {
                            if h >= HEAT_STEP {
                                self.set_cell(i, j, Cell::Dead(h - HEAT_STEP));
                            }
                            false
                        }
                    },
                    Cell::Alive => n < 2 || n > 3,
                };
                assert(flip == must_flip(c, n as int));
                assert(self@ =~~= s0.update(i as int, s0[i as int].update(j as int, cooled(c, n as int))));
                if flip {
                    proof {
                        assert forall|k: int| 0 <= k < fl0.len() implies fl0[k] != (i, j) by {
                            assert(before(fl0[k].0 as int, fl0[k].1 as int, i as int, j as int));
                        }
                        assert forall|a: int, b: int| in_grid(g0, a, b) implies listed(fl0.push((i, j)), a, b)
                            == (listed(fl0, a, b) || (a == i && b == j)) by {
                            lemma_listed_push(fl0, (i, j), a, b);
                        }
                    }
                    flips.push((i, j));
                }
                proof {
                    assert forall|a: int, b: int| in_grid(g0, a, b) implies #[trigger] self@[a][b] == if before(
                        a,
                        b,
                        i as int,
                        j as int + 1,
                    ) {
                        cooled(g0[a][b], neighbor_count(g0, a, b))
                    } else {
                        g0[a][b]
                    } by {
                        assert(s0[a][b] == if before(a, b, i as int, j as int) {
                            cooled(g0[a][b], neighbor_count(g0, a, b))
                        } else {
                            g0[a][b]
                        });
                    }
                }
                j = j + 1;
            }
            i = i + 1;
        }
        proof {
            self.lemma_wf_view();
            assert forall|a: int| 0 <= a < height implies #[trigger] self@[a] =~= cooled_generation(g0)[a] by {
                assert forall|b: int| 0 <= b < width implies self@[a][b] == cooled_generation(g0)[a][b] by {
                    assert(in_grid(g0, a, b));
                }
            }
            assert(self@ =~= cooled_generation(g0));
        }
        flips
    }

    /// Second pass of a generation: flips the cell at each listed place.
    fn apply_flips(&mut self, flips: &Vec<(usize, usize)>)
        requires
            old(self).wf(),
            flips@.no_duplicates(),
            forall|k: int| 0 <= k < flips@.len() ==> in_grid(old(self)@, #[trigger] flips@[k].0 as int, flips@[k].1 as int),
        ensures
            final(self).wf(),
            final(self)@ == flipped_at(old(self)@, flips@),
    {
        let ghost g0 = self@;
        proof {
            assert(flipped_at(g0, flips@.subrange(0, 0)) =~~= g0);
        }
        let mut k: usize = 0;
        while k < flips.len()
            invariant
                self.wf(),
                0 <= k <= flips@.len(),
                flips@.no_duplicates(),
                forall|m: int| 0 <= m < flips@.len() ==> in_grid(g0, #[trigger] flips@[m].0 as int, flips@[m].1 as int),
                self@ == flipped_at(g0, flips@.subrange(0, k as int)),
                self@.len() == g0.len(),
                forall|a: int| 0 <= a < g0.len() ==> #[trigger] self@[a].len() == g0[a].len(),
            decreases flips@.len() - k,
        {
            let (a, b) = flips[k];
            proof {
                self.lemma_wf_view();
                assert((a, b) == flips@[k as int]);
                assert(in_grid(g0, flips@[k as int].0 as int, flips@[k as int].1 as int));
                assert(self@[a as int].len() == g0[a as int].len());
                assert(self@[a as int] == self.rows@[a as int]@);
            }
            let mut c = self.rows[a][b];
            c.flip();
            self.set_cell(a, b, c);
            proof {
                let s0 = flips@.subrange(0, k as int);
                let s1 = flips@.subrange(0, k as int + 1);
                assert(s1 =~= s0.push((a, b)));
                assert(!listed(s0, a as int, b as int)) by {
                    if listed(s0, a as int, b as int) {
                        let m = choose|m: int| 0 <= m < s0.len() && s0[m] == (a, b);
                        assert(flips@[m] == flips@[k as int]);
                    }
                }
                assert forall|x: int, y: int| in_grid(g0, x, y) implies listed(s1, x, y) == (listed(s0, x, y)
                    || (x == a && y == b)) by {
                    lemma_listed_push(s0, (a, b), x, y);
                }
                assert(self@ =~~= flipped_at(g0, s1));
            }
            k = k + 1;
        }
        proof {
            assert(flips@.subrange(0, flips@.len() as int) =~= flips@);
        }
    }

    /// One generation: every cell is judged on the grid as it was before the
    /// step. Cells listed to flip change only after the whole grid was read.
    pub fn tick(&mut self)
        requires
            old(self).wf(),
        ensures
            final(self).wf(),
            final(self)@ == next_generation(old(self)@),
    {
        let ghost g0 = self@;
        let flips = self.cool_and_list_flips();
        self.apply_flips(&flips);
        proof {
            assert(self@ =~~= next_generation(g0));
        }
    }

    fn set_cell(&mut self, i: usize, j: usize, c: Cell)
        requires
            old(self).wf(),
            in_grid(old(self)@, i as int, j as int),
        ensures
            final(self).wf(),
            final(self)@ == old(self)@.update(i as int, old(self)@[i as int].update(j as int, c)),
    {
        proof {
            self.lemma_wf_view();
        }
        self.rows[i][j] = c;
        proof {
            self.lemma_wf_view();
            assert(self@ =~= old(self)@.update(i as int, old(self)@[i as int].update(j as int, c)));
        }
    }
}

} // verus!
