use game_of_life::{Cell, CellChange, Fill, World, WorldError};

fn grid(width: usize, height: usize, wrap_around: bool) -> World {
    let (world, _) = World::new(width, height, 10, 10, wrap_around).unwrap();
    world
}

fn seed(world: &mut World, alive: &[(usize, usize)]) {
    for &(x, y) in alive {
        world.set_cell(x, y, Cell::Alive).unwrap();
    }
}

fn alive_cells(world: &World) -> Vec<(usize, usize)> {
    let mut out = Vec::new();
    for y in 0..world.height() {
        for x in 0..world.width() {
            if world.get_cell(x, y).unwrap().is_alive() {
                out.push((x, y));
            }
        }
    }
    out
}

fn change(x: usize, y: usize, cell: Cell) -> CellChange {
    CellChange { x, y, cell }
}

#[test]
fn new_grid_is_dead_with_one_full_frame() {
    let (world, frame) = World::new(4, 3, 10, 8, false).unwrap();
    assert_eq!(world.width(), 4);
    assert_eq!(world.height(), 3);
    assert!(!world.wrap_around());
    assert!(alive_cells(&world).is_empty());
    assert_eq!(frame.pixel_width, 39);
    assert_eq!(frame.pixel_height, 23);
    assert_eq!(frame.column_lines, vec![10, 20, 30]);
    assert_eq!(frame.row_lines, vec![8, 16]);
    assert_eq!(frame.fills.len(), 12);
    assert_eq!(
        frame.fills[6],
        Fill { left: 20, top: 8, width: 9, height: 7, cell: Cell::Dead }
    );
    assert!(frame.fills.iter().all(|f| f.cell == Cell::Dead));
}

#[test]
fn new_rejects_zero_dimensions() {
    assert_eq!(World::new(0, 3, 10, 10, false).err(), Some(WorldError::InvalidDimension));
    assert_eq!(World::new(3, 0, 10, 10, false).err(), Some(WorldError::InvalidDimension));
    assert_eq!(World::new(3, 3, 0, 10, true).err(), Some(WorldError::InvalidDimension));
    assert_eq!(World::new(3, 3, 10, 0, true).err(), Some(WorldError::InvalidDimension));
}

#[test]
fn cell_state_encoding() {
    assert_eq!(Cell::Dead.get_state(), 0);
    assert_eq!(Cell::Alive.get_state(), 1);
    assert!(Cell::Alive.is_alive() && !Cell::Alive.is_dead());
    assert!(Cell::Dead.is_dead() && !Cell::Dead.is_alive());
    assert_eq!(Cell::Dead.flip(), Cell::Alive);
    assert_eq!(Cell::Alive.flip(), Cell::Dead);
}

#[test]
fn life_rule_for_every_count() {
    for n in 0u8..=8 {
        let survive = if n == 2 || n == 3 { None } else { Some(Cell::Dead) };
        assert_eq!(Cell::Alive.transition(n), survive);
        let birth = if n == 3 { Some(Cell::Alive) } else { None };
        assert_eq!(Cell::Dead.transition(n), birth);
    }
}

#[test]
fn bounded_corners_count_three_neighbours() {
    let mut world = grid(3, 3, false);
    for y in 0..3 {
        for x in 0..3 {
            world.set_cell(x, y, Cell::Alive).unwrap();
        }
    }
    let changes = world.update();
    // Corners see three live neighbours and survive; the rest are crowded out.
    assert_eq!(alive_cells(&world), vec![(0, 0), (2, 0), (0, 2), (2, 2)]);
    assert_eq!(
        changes,
        vec![
            change(1, 0, Cell::Dead),
            change(0, 1, Cell::Dead),
            change(1, 1, Cell::Dead),
            change(2, 1, Cell::Dead),
            change(1, 2, Cell::Dead),
        ]
    );
}

#[test]
fn torus_counts_eight_neighbours_everywhere() {
    let mut world = grid(3, 3, true);
    for y in 0..3 {
        for x in 0..3 {
            world.set_cell(x, y, Cell::Alive).unwrap();
        }
    }
    let changes = world.update();
    assert!(alive_cells(&world).is_empty());
    assert_eq!(changes.len(), 9);
}

#[test]
fn blinker_across_the_seam() {
    let mut world = grid(5, 5, true);
    seed(&mut world, &[(4, 2), (0, 2), (1, 2)]);
    let changes = world.update();
    assert_eq!(alive_cells(&world), vec![(0, 1), (0, 2), (0, 3)]);
    assert_eq!(
        changes,
        vec![
            change(0, 1, Cell::Alive),
            change(1, 2, Cell::Dead),
            change(4, 2, Cell::Dead),
            change(0, 3, Cell::Alive),
        ]
    );

    let mut bounded = grid(5, 5, false);
    seed(&mut bounded, &[(4, 2), (0, 2), (1, 2)]);
    let changes = bounded.update();
    assert!(alive_cells(&bounded).is_empty());
    assert_eq!(changes.len(), 3);
}

#[test]
fn wrap_around_can_be_switched() {
    let mut world = grid(5, 5, false);
    seed(&mut world, &[(4, 2), (0, 2), (1, 2)]);
    world.set_wrap_around(true);
    assert!(world.wrap_around());
    world.update();
    assert_eq!(alive_cells(&world), vec![(0, 1), (0, 2), (0, 3)]);
}

#[test]
fn empty_grid_is_stable() {
    let mut world = grid(6, 4, false);
    assert!(world.update().is_empty());
    assert!(alive_cells(&world).is_empty());
    let mut torus = grid(6, 4, true);
    assert!(torus.update().is_empty());
}

#[test]
fn block_is_stable() {
    let block = [(1, 1), (2, 1), (1, 2), (2, 2)];
    let mut world = grid(4, 4, false);
    seed(&mut world, &block);
    assert!(world.update().is_empty());
    assert!(world.update().is_empty());
    assert_eq!(alive_cells(&world), block.to_vec());
}

#[test]
fn resize_round_trip_keeps_content() {
    let mut world = grid(3, 2, false);
    seed(&mut world, &[(0, 0), (2, 0), (1, 1)]);
    let frame = world.set_width(5).unwrap();
    assert_eq!(frame.pixel_width, 49);
    assert_eq!(frame.fills.len(), 10);
    let frame = world.set_height(4).unwrap();
    assert_eq!(frame.pixel_height, 39);
    assert_eq!(frame.row_lines, vec![10, 20, 30]);
    assert_eq!((world.width(), world.height()), (5, 4));
    assert_eq!(alive_cells(&world), vec![(0, 0), (2, 0), (1, 1)]);
    world.set_width(3).unwrap();
    world.set_height(2).unwrap();
    assert_eq!((world.width(), world.height()), (3, 2));
    assert_eq!(alive_cells(&world), vec![(0, 0), (2, 0), (1, 1)]);
}

#[test]
fn shrinking_drops_cells_outside() {
    let mut world = grid(4, 4, false);
    seed(&mut world, &[(0, 0), (3, 0), (1, 3), (1, 1)]);
    world.set_width(2).unwrap();
    assert_eq!(alive_cells(&world), vec![(0, 0), (1, 1), (1, 3)]);
    world.set_height(2).unwrap();
    assert_eq!(alive_cells(&world), vec![(0, 0), (1, 1)]);
    world.set_width(4).unwrap();
    world.set_height(4).unwrap();
    assert_eq!(alive_cells(&world), vec![(0, 0), (1, 1)]);
}

#[test]
fn zero_size_is_refused_and_grid_kept() {
    let mut world = grid(3, 3, false);
    seed(&mut world, &[(1, 1)]);
    assert_eq!(world.set_width(0).err(), Some(WorldError::InvalidDimension));
    assert_eq!(world.set_height(0).err(), Some(WorldError::InvalidDimension));
    assert_eq!((world.width(), world.height()), (3, 3));
    assert_eq!(alive_cells(&world), vec![(1, 1)]);
}

#[test]
fn vertical_blinker_oscillates() {
    let mut world = grid(3, 3, false);
    seed(&mut world, &[(1, 0), (1, 1), (1, 2)]);
    world.update();
    assert_eq!(alive_cells(&world), vec![(0, 1), (1, 1), (2, 1)]);
    assert_eq!(world.get_cell(1, 0), Some(Cell::Dead));
    assert_eq!(world.get_cell(1, 2), Some(Cell::Dead));
    world.update();
    assert_eq!(alive_cells(&world), vec![(1, 0), (1, 1), (1, 2)]);
}

#[test]
fn lonely_cell_dies_with_one_change() {
    let mut world = grid(5, 5, false);
    seed(&mut world, &[(2, 3)]);
    let changes = world.update();
    assert_eq!(changes, vec![change(2, 3, Cell::Dead)]);
    assert!(alive_cells(&world).is_empty());
}

#[test]
fn toggle_twice_restores_with_two_changes() {
    let mut world = grid(4, 3, false);
    let first = world.toggle_cell(3, 2).unwrap();
    assert_eq!(first, change(3, 2, Cell::Alive));
    assert_eq!(world.get_cell(3, 2), Some(Cell::Alive));
    let second = world.toggle_cell(3, 2).unwrap();
    assert_eq!(second, change(3, 2, Cell::Dead));
    assert!(alive_cells(&world).is_empty());
}

#[test]
fn coordinates_outside_are_refused() {
    let mut world = grid(4, 3, false);
    assert_eq!(world.toggle_cell(4, 0).err(), Some(WorldError::OutOfRangeCoordinate));
    assert_eq!(world.toggle_cell(0, 3).err(), Some(WorldError::OutOfRangeCoordinate));
    assert_eq!(
        world.set_cell(9, 9, Cell::Alive).err(),
        Some(WorldError::OutOfRangeCoordinate)
    );
    assert_eq!(world.get_cell(4, 0), None);
    assert!(alive_cells(&world).is_empty());
}

#[test]
fn cell_fill_geometry() {
    let (world, _) = World::new(4, 3, 8, 6, false).unwrap();
    assert_eq!(
        world.cell_fill(2, 1, Cell::Alive),
        Fill { left: 16, top: 6, width: 7, height: 5, cell: Cell::Alive }
    );
}

#[test]
fn frame_reflects_current_cells() {
    let mut world = grid(2, 2, false);
    seed(&mut world, &[(1, 0)]);
    let frame = world.frame();
    let cells: Vec<Cell> = frame.fills.iter().map(|f| f.cell).collect();
    assert_eq!(cells, vec![Cell::Dead, Cell::Alive, Cell::Dead, Cell::Dead]);
    assert_eq!(frame.fills[1].left, 10);
    assert_eq!(frame.fills[2].top, 10);
}
