use vstd::prelude::*;
use crate::color::{MixedRgba, Rgba};
use crate::grid::Cell;
use crate::world::World;

verus! {

/// The colour a cell is drawn in: white when alive, else its heat on the
/// gradient.
pub open spec fn cell_color(c: Cell, heat_color: MixedRgba) -> Rgba {
    match c {
        Cell::Alive => Rgba(0xff, 0xff, 0xff, 0xff),
        Cell::Dead(h) => heat_color.mixed(h),
    }
}

/// Whether the four bytes of pixel `p` in `frame` hold `c`.
pub open spec fn pixel_is(frame: Seq<u8>, p: int, c: Rgba) -> bool {
    &&& frame[4 * p] == c.0
    &&& frame[4 * p + 1] == c.1
    &&& frame[4 * p + 2] == c.2
    &&& frame[4 * p + 3] == c.3
}

/// Draws the world into `frame`, four bytes per cell, row by row: pixel `p`
/// shows the cell in row `p / w` and column `p % w`.
pub fn draw(world: &World, frame: &mut [u8])
    requires
        world.wf(),
        old(frame)@.len() == 4 * world.size.w * world.size.h,
    ensures
        final(frame)@.len() == old(frame)@.len(),
        forall|p: int|
            0 <= p < world.size.w * world.size.h ==> pixel_is(
                final(frame)@,
                p,
                cell_color(#[trigger] world.cells@[p / world.size.w as int][p % world.size.w as int], world.heat_color),
            ),
{
    let w = world.cells.width();
    let h = world.cells.height();
    let ghost g = world.cells@;
    let len = frame.len();
    let n = len / 4;
    assert(n == w * h && 4 * n == frame@.len()) by (nonlinear_arith)
        requires
            n == len / 4,
            len == frame@.len(),
            frame@.len() == 4 * w * h,
    ;
    let mut p: usize = 0;
    while p < n
        invariant
            world.wf(),
            g == world.cells@,
            w == world.size.w,
            h == world.size.h,
            n == w * h,
            frame@.len() == 4 * n,
            frame@.len() == old(frame)@.len(),
            4 * n <= usize::MAX,
            w < isize::MAX,
            h < isize::MAX,
            p <= n,
            forall|q: int|
                0 <= q < p ==> pixel_is(
                    frame@,
                    q,
                    cell_color(#[trigger] g[q / w as int][q % w as int], world.heat_color),
                ),
        decreases n - p,
    {
        let x = p % w;
        let y = p / w;
        assert(y < h && x < w) by (nonlinear_arith)
            requires
                y == p / w,
                x == p % w,
                p < w * h,
                w > 0,
        ;
        assert(g[y as int].len() == w);
        let color = if world.cells.is_alive(y as isize, x as isize) {
            Rgba::white()
        } else {
            match world.cells.cell(y as isize, x as isize) {
                Some(Cell::Dead(c)) => world.heat_color.as_rgba(c),
                _ => Rgba::white(),
            }
        };
        assert(color == cell_color(g[y as int][x as int], world.heat_color));
        let bytes = color.as_slice();
        assert(4 * p + 3 < 4 * n);
        let ghost f0 = frame@;
        frame[4 * p] = bytes[0];
        frame[4 * p + 1] = bytes[1];
        frame[4 * p + 2] = bytes[2];
        frame[4 * p + 3] = bytes[3];
        proof {
            assert forall|q: int| 0 <= q < p + 1 implies pixel_is(
                frame@,
                q,
                cell_color(#[trigger] g[q / w as int][q % w as int], world.heat_color),
            ) by {
                if q < p {
                    assert(pixel_is(f0, q, cell_color(g[q / w as int][q % w as int], world.heat_color)));
                }
            }
        }
        p = p + 1;
    }
}

} // verus!
