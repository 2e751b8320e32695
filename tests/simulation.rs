use doubletet::components::{Active, Block, Color, Dimensions, DropSpeed, Position};
use doubletet::resources::{
    init_actions, init_clock, init_keys, init_kill_program, Actions, Clock, KeysPressed,
    KillProgram,
};
use doubletet::settings::{Settings, SUBPIXELS_PER_PIXEL};
use doubletet::world::{init_game_map, CreateError, Entity, World};

const PX: u64 = SUBPIXELS_PER_PIXEL;
const MS: u64 = 1_000_000;

fn settings_with(cells_high: u16, drop_speed: u64) -> Settings {
    Settings { cells_high, drop_speed, ..Settings::standard() }
}

fn active_block_at(x_px: u64, y_px: u64, speed: u64) -> Block {
    Block {
        position: Position { x: x_px * PX, y: y_px * PX },
        dimensions: Dimensions { width: 30 * PX, height: 30 * PX },
        color: Color::standard(),
        drop_speed: DropSpeed(speed),
        active: Active(true),
        offsets: None,
    }
}

fn keys(left: bool, right: bool, escape: bool) -> KeysPressed {
    KeysPressed { left, right, space: false, escape }
}

fn active_count(w: &World) -> usize {
    let mut n = 0;
    for i in 0..w.entity_count() {
        if w.block(Entity(i)).unwrap().active.0 {
            n += 1;
        }
    }
    n
}

#[test]
fn standard_settings_give_thirty_pixel_cells() {
    let st = Settings::standard();
    assert_eq!(st.cell_width(), 30 * PX);
    assert_eq!(st.cell_height(), 30 * PX);
    assert_eq!(st.width_subpixels(), 300 * PX);
    assert_eq!(st.height_subpixels(), 600 * PX);
}

#[test]
fn init_resources_are_empty() {
    assert_eq!(init_keys(), keys(false, false, false));
    assert_eq!(
        init_actions(),
        Actions { move_left: false, move_right: false, spawn_block: false }
    );
    assert_eq!(init_kill_program(), KillProgram(false));
    assert_eq!(
        init_clock(7),
        Clock { start: 7, last_player_move: 7, last_drop: 7, last_spawn: 7 }
    );
    let map = init_game_map(&Settings::standard());
    assert_eq!(map.cells.len(), 200);
    assert!(map.cells.iter().all(|c| !*c));
}

#[test]
fn new_world_is_empty() {
    let w = World::new(Settings::standard(), 5);
    assert_eq!(w.entity_count(), 0);
    assert_eq!(w.pending_count(), 0);
    assert!(!w.kill_program());
    assert_eq!(w.clock().last_drop, 5);
    assert!(!w.is_occupied(0, 0));
    assert!(!w.is_occupied(10, 0));
}

#[test]
fn initial_block_is_active_at_origin() {
    let mut w = World::new(Settings::standard(), 0);
    assert_eq!(w.spawn_initial_block(), Ok(Entity(0)));
    let b = w.block(Entity(0)).unwrap();
    assert_eq!(b.position, Position { x: 0, y: 0 });
    assert_eq!(b.dimensions, Dimensions { width: 30 * PX, height: 30 * PX });
    assert_eq!(b.drop_speed, DropSpeed(200));
    assert!(b.active.0);
    assert!(b.offsets.is_some());
    assert_eq!(w.block(Entity(1)).map(|b| b.active.0), None);
}

#[test]
fn second_active_block_is_refused() {
    let mut w = World::new(Settings::standard(), 0);
    w.spawn_initial_block().unwrap();
    assert_eq!(w.spawn_initial_block(), Err(CreateError::SecondActive));
    assert_eq!(
        w.create_entity(active_block_at(30, 0, 200)),
        Err(CreateError::SecondActive)
    );
    assert_eq!(
        w.create_entity_lazily(active_block_at(30, 0, 200)),
        Err(CreateError::SecondActive)
    );
    assert_eq!(w.entity_count(), 1);
    assert_eq!(w.pending_count(), 0);
    let mut landed = active_block_at(60, 570, 0);
    landed.active = Active(false);
    assert_eq!(w.create_entity(landed), Ok(Entity(1)));
    assert_eq!(active_count(&w), 1);
}

#[test]
fn block_outside_window_is_refused() {
    let mut w = World::new(Settings::standard(), 0);
    assert_eq!(
        w.create_entity(active_block_at(271, 0, 200)),
        Err(CreateError::OutsideWindow)
    );
    assert_eq!(
        w.create_entity(active_block_at(0, 571, 200)),
        Err(CreateError::OutsideWindow)
    );
    assert_eq!(
        w.create_entity_lazily(active_block_at(0, 600, 200)),
        Err(CreateError::OutsideWindow)
    );
    assert_eq!(w.create_entity(active_block_at(270, 570, 200)), Ok(Entity(0)));
}

#[test]
fn lazy_creation_waits_for_maintain() {
    let mut w = World::new(Settings::standard(), 0);
    assert_eq!(w.create_entity_lazily(active_block_at(0, 0, 200)), Ok(()));
    assert_eq!(w.entity_count(), 0);
    assert_eq!(w.pending_count(), 1);
    assert_eq!(
        w.create_entity_lazily(active_block_at(30, 0, 200)),
        Err(CreateError::SecondActive)
    );
    w.maintain();
    assert_eq!(w.entity_count(), 1);
    assert_eq!(w.pending_count(), 0);
}

#[test]
fn dropper_moves_by_speed_times_elapsed_time() {
    let mut w = World::new(Settings::standard(), 0);
    w.spawn_initial_block().unwrap();
    w.dropper(100 * MS);
    let b = w.block(Entity(0)).unwrap();
    assert_eq!(b.position.y, 20 * PX);
    assert!(b.active.0);
    assert_eq!(w.clock().last_drop, 100 * MS);
    assert!(!w.actions().spawn_block);
}

#[test]
fn dropper_without_active_block_changes_nothing() {
    let mut w = World::new(Settings::standard(), 0);
    let mut landed = active_block_at(0, 570, 200);
    landed.active = Active(false);
    w.create_entity(landed).unwrap();
    w.dropper(100 * MS);
    assert_eq!(w.clock().last_drop, 0);
    assert_eq!(w.block(Entity(0)).unwrap().position.y, 570 * PX);
    assert!(!w.actions().spawn_block);
}

#[test]
fn dropper_clamps_one_pixel_above_floor() {
    let mut w = World::new(Settings::standard(), 0);
    w.create_entity(active_block_at(0, 569, 200)).unwrap();
    w.dropper(100 * MS);
    let b = w.block(Entity(0)).unwrap();
    assert_eq!(b.position.y, 570 * PX);
    assert!(!b.active.0);
    assert!(w.actions().spawn_block);
}

#[test]
fn dropper_wraps_round_window_height() {
    let mut w = World::new(Settings::standard(), 0);
    w.create_entity(active_block_at(0, 569, 200)).unwrap();
    // 569 + 31 pixels is the window height, which wraps to the top.
    w.dropper(155 * MS);
    let b = w.block(Entity(0)).unwrap();
    assert_eq!(b.position.y, 0);
    assert!(b.active.0);
    assert!(!w.actions().spawn_block);
}

#[test]
fn movement_right_wraps_to_first_column() {
    let mut w = World::new(Settings::standard(), 0);
    w.create_entity(active_block_at(270, 0, 0)).unwrap();
    w.set_keys(keys(false, true, false));
    w.movement(60 * MS);
    assert_eq!(w.block(Entity(0)).unwrap().position.x, 0);
    assert_eq!(w.clock().last_player_move, 60 * MS);
    assert!(!w.actions().move_right);
}

#[test]
fn movement_left_wraps_to_last_column() {
    let mut w = World::new(Settings::standard(), 0);
    w.create_entity(active_block_at(0, 0, 0)).unwrap();
    w.set_keys(keys(true, false, false));
    w.movement(60 * MS);
    assert_eq!(w.block(Entity(0)).unwrap().position.x, 270 * PX);
    w.set_keys(keys(true, false, false));
    w.movement(120 * MS);
    assert_eq!(w.block(Entity(0)).unwrap().position.x, 240 * PX);
}

#[test]
fn movement_right_goes_before_left() {
    let mut w = World::new(Settings::standard(), 0);
    w.create_entity(active_block_at(60, 0, 0)).unwrap();
    w.set_keys(keys(true, true, false));
    w.movement(60 * MS);
    assert_eq!(w.block(Entity(0)).unwrap().position.x, 90 * PX);
    assert!(!w.actions().move_left);
    assert!(!w.actions().move_right);
}

#[test]
fn movement_leaves_landed_blocks() {
    let mut w = World::new(Settings::standard(), 0);
    let mut landed = active_block_at(60, 570, 0);
    landed.active = Active(false);
    w.create_entity(landed).unwrap();
    w.set_keys(keys(false, true, false));
    w.movement(60 * MS);
    assert_eq!(w.block(Entity(0)).unwrap().position.x, 60 * PX);
    assert_eq!(w.clock().last_player_move, 0);
    assert!(!w.actions().move_right);
}

#[test]
fn move_requests_within_debounce_move_once() {
    let mut w = World::new(Settings::standard(), 0);
    w.create_entity(active_block_at(0, 0, 0)).unwrap();
    w.set_keys(keys(false, true, false));
    w.tick(60 * MS);
    assert_eq!(w.block(Entity(0)).unwrap().position.x, 30 * PX);
    w.set_keys(keys(false, true, false));
    w.tick(90 * MS);
    assert_eq!(w.block(Entity(0)).unwrap().position.x, 30 * PX);
    assert!(!w.actions().move_right);
    w.set_keys(keys(false, true, false));
    w.tick(120 * MS);
    assert_eq!(w.block(Entity(0)).unwrap().position.x, 60 * PX);
}

#[test]
fn move_request_before_debounce_is_dropped() {
    let mut w = World::new(Settings::standard(), 0);
    w.create_entity(active_block_at(0, 0, 0)).unwrap();
    w.set_keys(keys(false, true, false));
    w.tick(50 * MS);
    assert_eq!(w.block(Entity(0)).unwrap().position.x, 0);
    assert!(!w.actions().move_right);
    w.tick(60 * MS);
    assert_eq!(w.block(Entity(0)).unwrap().position.x, 0);
}

#[test]
fn ender_twice_keeps_program_killed() {
    let mut w = World::new(Settings::standard(), 0);
    w.ender();
    assert!(!w.kill_program());
    w.set_keys(keys(false, false, true));
    w.ender();
    assert!(w.kill_program());
    w.ender();
    assert!(w.kill_program());
    w.set_keys(keys(false, false, false));
    w.tick(10 * MS);
    assert!(w.kill_program());
}

#[test]
fn spawn_waits_for_debounce() {
    let mut w = World::new(settings_with(20, 2000), 0);
    w.spawn_initial_block().unwrap();
    // 0.27 s at 2000 px/s is 540 px, past the floor at 570 px: no.
    // 0.29 s gives 580 px, which lands.
    w.tick(290 * MS);
    let b = w.block(Entity(0)).unwrap();
    assert_eq!(b.position.y, 570 * PX);
    assert!(!b.active.0);
    assert!(w.actions().spawn_block);
    assert_eq!(w.entity_count(), 1);
    w.tick(500 * MS);
    assert!(w.actions().spawn_block);
    assert_eq!(w.entity_count(), 1);
    w.tick(501 * MS);
    assert!(!w.actions().spawn_block);
    assert_eq!(w.entity_count(), 2);
    assert_eq!(w.clock().last_spawn, 501 * MS);
    let nb = w.block(Entity(1)).unwrap();
    assert_eq!(nb.position, Position { x: 0, y: 0 });
    assert!(nb.active.0);
    assert_eq!(nb.drop_speed, DropSpeed(2000));
    assert_eq!(nb.offsets, None);
}

#[test]
fn spawner_queues_until_maintain() {
    let mut w = World::new(Settings::standard(), 0);
    w.create_entity(active_block_at(0, 569, 200)).unwrap();
    w.dropper(100 * MS);
    assert!(w.actions().spawn_block);
    w.spawner(600 * MS);
    assert_eq!(w.pending_count(), 1);
    assert_eq!(w.entity_count(), 1);
    assert!(!w.actions().spawn_block);
    w.maintain();
    assert_eq!(w.entity_count(), 2);
}

#[test]
fn landing_then_spawn_end_to_end() {
    let mut w = World::new(settings_with(10, 100), 0);
    w.spawn_initial_block().unwrap();
    w.dropper(5_400 * MS);
    let old = w.block(Entity(0)).unwrap();
    assert!(!old.active.0);
    assert_eq!(old.position.y, 540 * PX);
    assert!(w.actions().spawn_block);
    w.tick(5_901 * MS);
    assert_eq!(w.entity_count(), 2);
    let old = w.block(Entity(0)).unwrap();
    assert!(!old.active.0);
    assert_eq!(old.position.y, 540 * PX);
    let new = w.block(Entity(1)).unwrap();
    assert!(new.active.0);
    assert_eq!(new.position, Position { x: 0, y: 0 });
    assert_eq!(active_count(&w), 1);
}

#[test]
fn landing_and_spawn_in_one_tick() {
    let mut w = World::new(settings_with(10, 100), 0);
    w.spawn_initial_block().unwrap();
    w.tick(5_400 * MS);
    assert_eq!(w.entity_count(), 2);
    assert_eq!(w.block(Entity(0)).unwrap().position.y, 540 * PX);
    assert!(!w.block(Entity(0)).unwrap().active.0);
    assert!(w.block(Entity(1)).unwrap().active.0);
    assert!(!w.actions().spawn_block);
}

#[test]
fn mapper_marks_cells_of_landed_piece() {
    let mut w = World::new(Settings::standard(), 0);
    w.spawn_initial_block().unwrap();
    w.set_keys(keys(false, true, false));
    w.tick(60 * MS);
    assert_eq!(w.block(Entity(0)).unwrap().position.x, 30 * PX);
    // 12 px after the first tick, then 2.84 s at 200 px/s reach 580 px.
    w.tick(2_900 * MS);
    assert!(!w.block(Entity(0)).unwrap().active.0);
    assert!(w.is_occupied(1, 19));
    assert!(w.is_occupied(2, 19));
    assert!(w.is_occupied(1, 18));
    assert!(w.is_occupied(1, 17));
    assert!(!w.is_occupied(0, 19));
    assert!(!w.is_occupied(1, 16));
    assert!(!w.is_occupied(2, 18));
}

#[test]
fn mapper_marks_anchor_cell_and_skips_cells_off_grid() {
    let mut w = World::new(Settings::standard(), 0);
    let mut b = active_block_at(270, 570, 0);
    b.active = Active(false);
    b.offsets = Some(doubletet::components::BlockOffsets([
        doubletet::components::Offset { x: 0, y: 0 },
        doubletet::components::Offset { x: 1, y: 0 },
        doubletet::components::Offset { x: 0, y: 1 },
        doubletet::components::Offset { x: -1, y: 0 },
    ]));
    w.create_entity(b).unwrap();
    let mut single = active_block_at(0, 540, 0);
    single.active = Active(false);
    w.create_entity(single).unwrap();
    w.mapper();
    assert!(w.is_occupied(9, 19));
    assert!(w.is_occupied(8, 19));
    assert!(w.is_occupied(0, 18));
    assert!(!w.is_occupied(0, 19));
    assert!(!w.is_occupied(9, 18));
}

#[test]
fn at_most_one_block_active_over_a_run() {
    let mut w = World::new(settings_with(20, 1000), 0);
    w.spawn_initial_block().unwrap();
    let mut now = 0;
    for step in 0..400u64 {
        now += 25 * MS;
        w.set_keys(keys(step % 3 == 0, step % 5 == 0, false));
        w.tick(now);
        assert!(active_count(&w) <= 1);
        assert_eq!(w.pending_count(), 0);
        for i in 0..w.entity_count() {
            let b = w.block(Entity(i)).unwrap();
            assert!(b.position.x <= 270 * PX);
            assert!(b.position.y <= 570 * PX);
        }
    }
    assert!(w.entity_count() > 1);
}
