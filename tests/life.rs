use game_of_life::font::format_font;
use game_of_life::world::{HALF_SECOND, MILLISECOND, SECOND, TWENTIETH_SECOND};
use game_of_life::{draw, Cell, Cells, MixedRgba, Rgba, Size, World, WorldState};

fn grid_with(width: usize, height: usize, alive: &[(isize, isize)]) -> Cells {
    let mut cells = Cells::new(width, height);
    for &(i, j) in alive {
        cells.make_alive(i, j);
    }
    cells
}

fn alive_places(cells: &Cells) -> Vec<(isize, isize)> {
    let mut out = Vec::new();
    for i in 0..cells.height() as isize {
        for j in 0..cells.width() as isize {
            if cells.is_alive(i, j) {
                out.push((i, j));
            }
        }
    }
    out
}

#[test]
fn new_grid_is_dead_and_cold() {
    let cells = Cells::new(4, 3);
    assert_eq!(cells.width(), 4);
    assert_eq!(cells.height(), 3);
    for i in 0..3 {
        for j in 0..4 {
            assert_eq!(cells.cell(i, j), Some(Cell::Dead(0)));
        }
    }
}

#[test]
fn off_grid_is_dead_and_edits_there_do_nothing() {
    let mut cells = grid_with(3, 3, &[(0, 0)]);
    assert!(!cells.is_alive(-1, 0));
    assert!(!cells.is_alive(0, 3));
    assert_eq!(cells.is_alive_usize(3, 3), 0);
    assert_eq!(cells.cell(-1, -1), None);
    cells.make_alive(5, 5);
    cells.make_alive(-1, 2);
    cells.make_dead(-3, 0);
    assert_eq!(alive_places(&cells), vec![(0, 0)]);
}

#[test]
fn make_alive_and_make_dead_are_idempotent() {
    let mut cells = Cells::new(3, 3);
    cells.make_alive(1, 1);
    cells.make_alive(1, 1);
    assert!(cells.is_alive(1, 1));
    cells.make_dead(1, 1);
    assert_eq!(cells.cell(1, 1), Some(Cell::Dead(0)));
    cells.make_dead(1, 1);
    assert_eq!(cells.cell(1, 1), Some(Cell::Dead(0)));
}

#[test]
fn make_dead_keeps_heat_of_a_dead_cell() {
    let mut cells = grid_with(3, 3, &[(1, 1)]);
    cells.tick();
    assert_eq!(cells.cell(1, 1), Some(Cell::Dead(255)));
    cells.make_dead(1, 1);
    assert_eq!(cells.cell(1, 1), Some(Cell::Dead(255)));
}

#[test]
fn neighbor_counts_at_corners_edges_and_inside() {
    let all: Vec<(isize, isize)> = (0..3).flat_map(|i| (0..3).map(move |j| (i, j))).collect();
    let cells = grid_with(3, 3, &all);
    assert_eq!(cells.alive_neighbors(1, 1), 8);
    assert_eq!(cells.alive_neighbors(0, 0), 3);
    assert_eq!(cells.alive_neighbors(0, 1), 5);
    assert_eq!(cells.alive_neighbors(2, 2), 3);
    assert_eq!(cells.alive_neighbors(-1, -1), 1);
    assert_eq!(cells.alive_neighbors(10, 10), 0);
}

#[test]
fn neighbor_count_is_the_same_after_translation() {
    let pattern = [(0, 0), (0, 1), (1, 0), (2, 2)];
    let a = grid_with(8, 8, &pattern.map(|(i, j)| (i + 1, j + 1)));
    let b = grid_with(8, 8, &pattern.map(|(i, j)| (i + 4, j + 3)));
    for i in 0..4 {
        for j in 0..4 {
            assert_eq!(a.alive_neighbors(i + 1, j + 1), b.alive_neighbors(i + 4, j + 3));
        }
    }
    assert_eq!(a.alive_neighbors(2, 2), 4);
}

#[test]
fn lone_center_dies_at_full_heat() {
    let mut cells = grid_with(3, 3, &[(1, 1)]);
    cells.tick();
    assert_eq!(cells.cell(1, 1), Some(Cell::Dead(255)));
    for i in 0..3 {
        for j in 0..3 {
            if (i, j) != (1, 1) {
                assert_eq!(cells.cell(i, j), Some(Cell::Dead(0)));
            }
        }
    }
    assert!(alive_places(&cells).is_empty());
}

#[test]
fn dead_cell_with_three_neighbours_is_born() {
    let mut cells = grid_with(3, 3, &[(0, 0), (0, 2), (2, 0)]);
    cells.tick();
    assert!(cells.is_alive(1, 1));
    assert_eq!(cells.cell(0, 0), Some(Cell::Dead(255)));
}

#[test]
fn overcrowded_cell_dies() {
    let mut cells = grid_with(3, 3, &[(0, 0), (0, 1), (0, 2), (1, 0), (1, 1)]);
    cells.tick();
    assert_eq!(cells.cell(1, 1), Some(Cell::Dead(255)));
    assert!(cells.is_alive(0, 0));
}

#[test]
fn block_is_still() {
    let block = vec![(2, 2), (2, 3), (3, 2), (3, 3)];
    let mut cells = grid_with(6, 6, &block);
    for _ in 0..10 {
        cells.tick();
        assert_eq!(alive_places(&cells), block);
    }
}

#[test]
fn blinker_has_period_two() {
    let row = vec![(2, 1), (2, 2), (2, 3)];
    let column = vec![(1, 2), (2, 2), (3, 2)];
    let mut cells = grid_with(5, 5, &row);
    cells.tick();
    assert_eq!(alive_places(&cells), column);
    cells.tick();
    assert_eq!(alive_places(&cells), row);
}

#[test]
fn heat_falls_by_two_then_stays() {
    let mut cells = grid_with(3, 3, &[(1, 1)]);
    cells.tick();
    assert_eq!(cells.cell(1, 1), Some(Cell::Dead(255)));
    cells.tick();
    assert_eq!(cells.cell(1, 1), Some(Cell::Dead(253)));
    for _ in 0..126 {
        cells.tick();
    }
    assert_eq!(cells.cell(1, 1), Some(Cell::Dead(1)));
    cells.tick();
    cells.tick();
    assert_eq!(cells.cell(1, 1), Some(Cell::Dead(1)));
}

#[test]
fn flip_turns_alive_and_dead() {
    let mut c = Cell::Dead(7);
    c.flip();
    assert_eq!(c, Cell::Alive);
    c.flip();
    assert_eq!(c, Cell::Dead(255));
}

#[test]
fn clear_kills_everything_with_no_heat() {
    let mut cells = grid_with(4, 4, &[(0, 0), (1, 1), (1, 2), (2, 1), (3, 3)]);
    cells.tick();
    cells.clear();
    for i in 0..4 {
        for j in 0..4 {
            assert!(!cells.is_alive(i, j));
            assert_eq!(cells.cell(i, j), Some(Cell::Dead(0)));
        }
    }
}

#[test]
fn seeded_grid_follows_the_draws() {
    let draws = vec![vec![0, 31, 32], vec![255, 10, 100]];
    let cells = Cells::seeded(3, 2, &draws, 32);
    assert_eq!(alive_places(&cells), vec![(0, 0), (0, 1), (1, 1)]);
    assert_eq!(cells.cell(0, 2), Some(Cell::Dead(0)));
}

#[test]
fn gradient_ends_are_exact() {
    let g = MixedRgba(Rgba(10, 200, 0, 255), Rgba(250, 20, 0, 0));
    assert_eq!(g.as_rgba(0), g.0);
    assert_eq!(g.as_rgba(255), g.1);
    let p = MixedRgba::preset(2).unwrap();
    assert_eq!(p.as_rgba(0), p.0);
    assert_eq!(p.as_rgba(255), p.1);
}

#[test]
fn gradient_in_between() {
    let g = MixedRgba(Rgba(0, 200, 7, 255), Rgba(255, 100, 7, 0));
    assert_eq!(g.as_rgba(128), Rgba(128, 150, 7, 127));
    assert_eq!(g.as_rgba(51), Rgba(51, 180, 7, 204));
}

#[test]
fn colour_bytes_and_alpha() {
    assert_eq!(Rgba::pink().as_slice(), [0xff, 0x69, 0xb4, 0xff]);
    assert_eq!(Rgba::blue().with_alpha(0), Rgba(0x00, 0x33, 0xff, 0x00));
    assert_eq!(Rgba::white(), Rgba(255, 255, 255, 255));
    assert_eq!(Rgba::transparent().as_slice(), [0, 0, 0, 0]);
}

#[test]
fn presets() {
    assert_eq!(MixedRgba::preset(0), Some(MixedRgba(Rgba::black(), Rgba::black())));
    assert_eq!(
        MixedRgba::preset(1),
        Some(MixedRgba(Rgba(0x00, 0x33, 0xff, 0x00), Rgba(0x22, 0xdd, 0xff, 0xff)))
    );
    assert_eq!(
        MixedRgba::preset(6),
        Some(MixedRgba(Rgba(0x00, 0x80, 0x80, 0x00), Rgba(0x00, 0xff, 0x00, 0xff)))
    );
    assert_eq!(MixedRgba::preset(7), None);
}

#[test]
fn size_new() {
    let s = Size::new(3, 4);
    assert_eq!((s.w, s.h), (3, 4));
}

fn empty_world(w: usize, h: usize, tick_len: u64) -> World {
    World::with_density(Size::new(w, h), tick_len, 0)
}

#[test]
fn new_world_is_paused_and_seeded() {
    let world = World::new(Size::new(5, 4), SECOND);
    assert_eq!(world.state, WorldState::Paused);
    assert_eq!(world.last_tick, 0);
    assert_eq!(world.cells.height(), 4);
    assert_eq!(world.cells.width(), 5);
    for i in 0..4 {
        for j in 0..5 {
            let c = world.cells.cell(i, j).unwrap();
            assert!(c == Cell::Alive || c == Cell::Dead(0));
        }
    }
    let empty = empty_world(5, 4, SECOND);
    assert!(alive_places(&empty.cells).is_empty());
}

#[test]
fn paused_world_only_restarts_its_clock() {
    let mut world = empty_world(5, 5, 10);
    world.cells.make_alive(2, 2);
    world.update(100);
    assert_eq!(world.last_tick, 100);
    assert!(world.cells.is_alive(2, 2));
}

#[test]
fn rapid_updates_take_one_generation() {
    let mut world = empty_world(5, 5, 10);
    for j in 1..4 {
        world.cells.make_alive(2, j);
    }
    world.run();
    world.update(5);
    assert_eq!(alive_places(&world.cells), vec![(2, 1), (2, 2), (2, 3)]);
    world.update(10);
    assert_eq!(world.last_tick, 10);
    assert_eq!(alive_places(&world.cells), vec![(1, 2), (2, 2), (3, 2)]);
    world.update(19);
    assert_eq!(alive_places(&world.cells), vec![(1, 2), (2, 2), (3, 2)]);
    world.update(500);
    assert_eq!(alive_places(&world.cells), vec![(2, 1), (2, 2), (2, 3)]);
    assert_eq!(world.last_tick, 500);
}

#[test]
fn toggle_pause_and_run() {
    let mut world = empty_world(2, 2, 10);
    world.toggle_running();
    assert_eq!(world.state, WorldState::Running);
    world.toggle_running();
    assert_eq!(world.state, WorldState::Paused);
    world.run();
    assert_eq!(world.state, WorldState::Running);
    world.pause();
    assert_eq!(world.state, WorldState::Paused);
}

#[test]
fn tick_length_steps() {
    let mut world = empty_world(2, 2, 2 * SECOND);
    world.slow_down();
    assert_eq!(world.tick_len, 3 * SECOND);
    world.speed_up();
    world.speed_up();
    assert_eq!(world.tick_len, SECOND);
    world.speed_up();
    assert_eq!(world.tick_len, HALF_SECOND);
    world.slow_down();
    assert_eq!(world.tick_len, HALF_SECOND + TWENTIETH_SECOND);
    world.tick_len = TWENTIETH_SECOND + MILLISECOND;
    world.speed_up();
    assert_eq!(world.tick_len, MILLISECOND);
    world.speed_up();
    assert_eq!(world.tick_len, MILLISECOND);
    world.tick_len = u64::MAX - 1;
    world.slow_down();
    assert_eq!(world.tick_len, u64::MAX);
}

#[test]
fn draw_writes_alive_white_and_dead_by_heat() {
    let mut world = empty_world(2, 2, 10);
    world.heat_color = MixedRgba(Rgba(0, 0, 0, 0), Rgba(255, 0, 100, 255));
    world.cells.make_alive(0, 1);
    let mut frame = vec![9u8; 16];
    draw(&world, &mut frame);
    assert_eq!(&frame[0..4], &[0, 0, 0, 0]);
    assert_eq!(&frame[4..8], &[255, 255, 255, 255]);
    assert_eq!(&frame[8..16], &[0, 0, 0, 0, 0, 0, 0, 0]);
    world.cells.tick();
    draw(&world, &mut frame);
    assert_eq!(&frame[4..8], &[255, 0, 100, 255]);
}

#[test]
fn font_text_to_pixels() {
    assert_eq!(format_font(b".#..x."), vec![0, 1, 0, 0, 1, 0]);
    assert!(format_font(b"").is_empty());
}
