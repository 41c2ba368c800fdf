use vstd::prelude::*;
use crate::color::{MixedRgba, Rgba};
use crate::grid::{is_grid, next_generation, Cell, Cells, in_grid};
use rand::Rng;

verus! {

/// A width and a height.
#[derive(Clone, Copy, Debug, PartialEq, Eq)]
pub struct Size<T> {
    pub w: T,
    pub h: T,
}

impl<T> Size<T> {
    pub fn new(w: T, h: T) -> (r: Self)
        ensures
            r.w == w,
            r.h == h,
    {
        Self { w, h }
    }
}

/// Whether generations advance.
#[derive(Clone, Copy, Debug, PartialEq, Eq, Structural)]
pub enum WorldState {
    Running,
    Paused,
}

/// One second, in nanoseconds: the unit of every time in a world.
pub const SECOND: u64 = 1_000_000_000;

pub const HALF_SECOND: u64 = 500_000_000;

pub const TWENTIETH_SECOND: u64 = 50_000_000;

pub const MILLISECOND: u64 = 1_000_000;

/// A new world seeds each cell alive with this chance out of 256.
pub const SEED_DENSITY: u8 = 32;

/// The grid with its clock: times are nanoseconds on the caller's clock.
pub struct World {
    /// When the last generation was taken, or the world last polled while
    /// paused.
    pub last_tick: u64,
    /// How long a generation lasts.
    pub tick_len: u64,
    pub state: WorldState,
    pub size: Size<usize>,
    pub cells: Cells,
    /// The gradient that dead cells are drawn with, from cold to hot.
    pub heat_color: MixedRgba,
}

/// The time from `since` to `now`, or zero if `now` is earlier.
pub open spec fn elapsed(since: u64, now: u64) -> int {
    if now >= since {
        now - since
    } else {
        0
    }
}

/// One step of the tick length up: a second above one second, half a second
/// above half a second, a twentieth below.
pub open spec fn slower_tick(t: u64) -> u64 {
    let step = if t > SECOND {
        SECOND
    } else if t > HALF_SECOND {
        HALF_SECOND
    } else {
        TWENTIETH_SECOND
    };
    if t + step > u64::MAX {
        u64::MAX
    } else {
        (t + step) as u64
    }
}

/// One step of the tick length down, by the same tiers, with a millisecond
/// below a twentieth; a tick of a millisecond or less stays.
pub open spec fn faster_tick(t: u64) -> u64 {
    if t > SECOND {
        (t - SECOND) as u64
    } else if t > HALF_SECOND {
        (t - HALF_SECOND) as u64
    } else if t > TWENTIETH_SECOND {
        (t - TWENTIETH_SECOND) as u64
    } else if t > MILLISECOND {
        (t - MILLISECOND) as u64
    } else {
        t
    }
}

/// Relies on rand::thread_rng and rand::Rng::gen::<u8>: some byte, no matter
/// which.
#[verifier::external_body]
fn random_byte() -> u8 {
    rand::thread_rng().gen::<u8>()
}

impl World {
    pub open spec fn wf(&self) -> bool {
        &&& self.cells.wf()
        &&& is_grid(self.cells@)
        &&& self.cells@.len() == self.size.h
        &&& self.cells@[0].len() == self.size.w
    }

    /// Whether an update at `now` takes a generation.
    pub open spec fn steps_at(&self, now: u64) -> bool {
        self.state == WorldState::Running && elapsed(self.last_tick, now) >= self.tick_len
    }

    /// `after` is what an update of `before` at `now` leaves: a paused world
    /// only restarts its clock; a running one takes one generation once a
    /// whole tick has passed, and else stays as it is.
    pub open spec fn updated(before: World, now: u64, after: World) -> bool {
        &&& after.state == before.state
        &&& after.tick_len == before.tick_len
        &&& after.size == before.size
        &&& after.heat_color == before.heat_color
        &&& after.last_tick == if before.state == WorldState::Paused || before.steps_at(now) {
            now
        } else {
            before.last_tick
        }
        &&& after.cells@ == if before.steps_at(now) {
            next_generation(before.cells@)
        } else {
            before.cells@
        }
    }

    /// A paused world of the given size whose cells are each alive with the
    /// chance `density` out of 256, and else dead and cold; its clock starts at
    /// zero and its heat is drawn in black.
    pub fn with_density(size: Size<usize>, tick_len: u64, density: u8) -> (r: World)
        requires
            0 < size.w < isize::MAX,
            0 < size.h < isize::MAX,
        ensures
            r.wf(),
            r.size == size,
            r.tick_len == tick_len,
            r.last_tick == 0,
            r.state == WorldState::Paused,
            r.heat_color == MixedRgba(Rgba(0, 0, 0, 0xff), Rgba(0, 0, 0, 0xff)),
            forall|i: int, j: int|
                in_grid(r.cells@, i, j) ==> r.cells@[i][j] == Cell::Alive || r.cells@[i][j] == Cell::Dead(0),
            density == 0 ==> forall|i: int, j: int| in_grid(r.cells@, i, j) ==> r.cells@[i][j] == Cell::Dead(0),
    {
        let mut draws: Vec<Vec<u8>> = Vec::new();
        let mut i: usize = 0;
        while i < size.h
            invariant
                i <= size.h,
                draws@.len() == i,
                forall|a: int| 0 <= a < i ==> (#[trigger] draws@[a])@.len() == size.w,
            decreases size.h - i,
        {
            let mut row: Vec<u8> = Vec::new();
            let mut j: usize = 0;
            while j < size.w
                invariant
                    j <= size.w,
                    row@.len() == j,
                decreases size.w - j,
            {
                row.push(random_byte());
                j = j + 1;
            }
            draws.push(row);
            i = i + 1;
        }
        World {
            last_tick: 0,
            tick_len,
            state: WorldState::Paused,
            size,
            cells: Cells::seeded(size.w, size.h, &draws, density),
            heat_color: MixedRgba(Rgba::black(), Rgba::black()),
        }
    }

    /// A paused world whose cells are each alive with the chance
    /// `SEED_DENSITY` out of 256.
    pub fn new(size: Size<usize>, tick_len: u64) -> (r: World)
        requires
            0 < size.w < isize::MAX,
            0 < size.h < isize::MAX,
        ensures
            r.wf(),
            r.size == size,
            r.tick_len == tick_len,
            r.last_tick == 0,
            r.state == WorldState::Paused,
            r.heat_color == MixedRgba(Rgba(0, 0, 0, 0xff), Rgba(0, 0, 0, 0xff)),
            forall|i: int, j: int|
                in_grid(r.cells@, i, j) ==> r.cells@[i][j] == Cell::Alive || r.cells@[i][j] == Cell::Dead(0),
    {
        World::with_density(size, tick_len, SEED_DENSITY)
    }

    /// Polls the world at `now`: while paused only the clock restarts; while
    /// running, one generation is taken once a whole tick has passed since the
    /// last, however much more has passed.
    pub fn update(&mut self, now: u64)
        requires
            old(self).wf(),
        ensures
            final(self).wf(),
            World::updated(*old(self), now, *final(self)),
    {
        if let WorldState::Paused = self.state {
            self.last_tick = now;
            return;
        }
        let elapsed: u64 = if now >= self.last_tick {
            now - self.last_tick
        } else {
            0
        };
        if elapsed < self.tick_len {
            return;
        }
        self.last_tick = now;
        self.cells.tick();
        proof {
            crate::dynamics::lemma_next_generation_shape(old(self).cells@);
        }
    }

    pub fn toggle_running(&mut self)
        ensures
            final(self).state == if old(self).state == WorldState::Paused {
                WorldState::Running
            } else {
                WorldState::Paused
            },
            final(self).last_tick == old(self).last_tick,
            final(self).tick_len == old(self).tick_len,
            final(self).size == old(self).size,
            final(self).cells == old(self).cells,
            final(self).heat_color == old(self).heat_color,
    {
        if let WorldState::Paused = self.state {
            self.run();
        } else {
            self.pause();
        }
    }

    pub fn pause(&mut self)
        ensures
            *final(self) == (World { state: WorldState::Paused, ..*old(self) }),
    {
        self.state = WorldState::Paused;
    }

    pub fn run(&mut self)
        ensures
            *final(self) == (World { state: WorldState::Running, ..*old(self) }),
    {
        self.state = WorldState::Running;
    }

    /// Lengthens the tick by one step of `slower_tick`.
    pub fn slow_down(&mut self)
        ensures
            *final(self) == (World { tick_len: slower_tick(old(self).tick_len), ..*old(self) }),
    {
        let step: u64 = if self.tick_len > SECOND {
            SECOND
        } else if self.tick_len > HALF_SECOND {
            HALF_SECOND
        } else {
            TWENTIETH_SECOND
        };
        self.tick_len = self.tick_len.saturating_add(step);
    }

    /// Shortens the tick by one step of `faster_tick`; it stays above zero if
    /// it was.
    pub fn speed_up(&mut self)
        ensures
            *final(self) == (World { tick_len: faster_tick(old(self).tick_len), ..*old(self) }),
            old(self).tick_len > 0 ==> final(self).tick_len > 0,
    {
        if self.tick_len > SECOND {
            self.tick_len = self.tick_len - SECOND;
        } else if self.tick_len > HALF_SECOND {
            self.tick_len = self.tick_len - HALF_SECOND;
        } else if self.tick_len > TWENTIETH_SECOND {
            self.tick_len = self.tick_len - TWENTIETH_SECOND;
        } else if self.tick_len > MILLISECOND {
            self.tick_len = self.tick_len - MILLISECOND;
        }
    }
}

/// Two updates less than a tick apart take at most one generation between
/// them, and when the first takes one the second does not.
pub proof fn lemma_rapid_updates_step_once(w0: World, w1: World, w2: World, t1: u64, t2: u64)
    requires
        World::updated(w0, t1, w1),
        World::updated(w1, t2, w2),
        t1 <= t2,
        t2 - t1 < w0.tick_len,
    ensures
        w2.cells@ == w0.cells@ || w2.cells@ == next_generation(w0.cells@),
        w0.steps_at(t1) ==> !w1.steps_at(t2),
{
}

} // verus!
