use crossterm::event::KeyCode;
use tetris::bricks::{Brick, BrickCollection, I_BRICK_POINTS, O_BRICK_POINTS, S_BRICK_POINTS, Z_BRICK_POINTS};
use tetris::game_panel::{GamePanel, LiveBrick, MoveDownResult, PutNewOneResult};
use tetris::gaming_screen::{GamingScreenCore, NextResult};
use tetris::geometry::{Movement, Point, Size};
use tetris::settings::{AppSettings, KeyboardControl};

const TEST_SIZE: Size = Size { width: 10, height: 20 };

fn test_app_settings() -> AppSettings {
    AppSettings {
        gaming_region: Size { height: 20, width: 10 },
        info_region: Size { height: 20, width: 20 },
        total_region: Size { height: 20, width: 30 },
        welcome_region: Size { height: 22, width: 52 },
        gaming_blocks_size: TEST_SIZE,
        keyboard_control: KeyboardControl {
            exit: KeyCode::Esc,
            change: KeyCode::Up,
            down: KeyCode::Down,
            pause: KeyCode::Char(' '),
            start: KeyCode::Enter,
            left: KeyCode::Left,
            right: KeyCode::Right,
        },
    }
}

fn cell(panel: &GamePanel, x: usize, y: usize) -> bool {
    panel.blocks.blocks[y][x]
}

fn occupied(panel: &GamePanel) -> Vec<(usize, usize)> {
    let mut cells = Vec::new();
    for (y, row) in panel.blocks.blocks.iter().enumerate() {
        for (x, flag) in row.iter().enumerate() {
            if *flag {
                cells.push((x, y));
            }
        }
    }
    cells
}

#[test]
fn put_new_one() {
    let settings = test_app_settings();
    let mut panel = GamePanel::new(TEST_SIZE, &settings);
    let new_brick = Brick::new(Z_BRICK_POINTS);

    // act
    panel.put_new_one(&new_brick);
    let brick = panel.current_brick.as_ref().unwrap();
    assert_eq!(brick.brick, new_brick);
    assert_eq!(brick.position, Point::new(TEST_SIZE.width / 2 - 2, 0));
}

#[test]
fn test_put_brick() {
    let settings = test_app_settings();
    let mut panel = GamePanel::new(TEST_SIZE, &settings);
    let new_brick = Brick::new(Z_BRICK_POINTS);
    let live_brick = LiveBrick { brick: new_brick, position: Point { x: 0, y: 0 } };
    assert_eq!(panel.test_put_brick(&live_brick).is_ok(), true);

    // fill all blank with tags
    panel.set_region(Point::new(0, 0), TEST_SIZE, true);

    assert_eq!(panel.test_put_brick(&live_brick).is_ok(), false);
}

#[test]
fn move_down_success() {
    let settings = test_app_settings();
    let mut panel = GamePanel::new(TEST_SIZE, &settings);
    let new_brick = Brick::new(Z_BRICK_POINTS);
    let result = panel.put_new_one(&new_brick);
    let current_brick = &panel.current_brick.unwrap();
    let _old_brick_points = current_brick.get_projected_brick();
    let old_position = current_brick.position.clone();
    assert_eq!(result, PutNewOneResult::Success);

    // act
    let down_result = panel.move_down();

    assert_eq!(down_result, MoveDownResult::Success);
    let current_brick = &panel.current_brick.unwrap();
    let _new_brick_points = current_brick.get_projected_brick();
    assert_eq!(current_brick.brick, new_brick);
    assert_eq!(current_brick.position.y, old_position.y + 1);
    assert_eq!(current_brick.position.x, old_position.x);
}

#[test]
fn move_down_need_new_one() {
    let settings = test_app_settings();
    let mut panel = GamePanel::new(TEST_SIZE, &settings);
    let new_brick = Brick::new(Z_BRICK_POINTS);
    let result = panel.put_new_one(&new_brick);
    let current_brick = &panel.current_brick.unwrap();
    let _old_position = current_brick.position.clone();
    assert_eq!(result, PutNewOneResult::Success);

    let fill_size = Size { height: TEST_SIZE.height - 2, width: TEST_SIZE.width };
    panel.set_region(Point::new(0, 2), fill_size, true);

    // act
    let down_result = panel.move_down();
    assert_eq!(down_result, MoveDownResult::NeedNewOne);
    assert_eq!(panel.current_brick.is_none(), true);
}

#[test]
fn try_clean_lines() {
    let settings = test_app_settings();
    let mut panel = GamePanel::new(TEST_SIZE, &settings);
    // fill all blank with tags
    panel.set_region(Point::new(0, 0), TEST_SIZE, true);

    // act
    let result = panel.try_clean_lines();
    assert_eq!(result.is_ok(), true);
    let lines_result = result.unwrap();
    assert_eq!(lines_result.clear_lines.len() as u16, TEST_SIZE.height);

    assert_eq!(panel.blocks.blocks.len() as u16, TEST_SIZE.height);
    // all clear
    for vec in panel.blocks.blocks.iter() {
        assert_eq!(vec.iter().all(|x| !*x), true);
    }
}

#[test]
fn next() {
    let settings = test_app_settings();
    let collection = BrickCollection::new();
    let next_brick = collection.get_rand_one();
    let mut core = GamingScreenCore {
        manager: GamePanel::new(settings.gaming_blocks_size, &settings),
        brick_collection: collection,
        next_brick: Some(next_brick),
    };

    let result = core.next();
    match result {
        NextResult::NewBrickPutIn(_) => assert!(true),
        _ => assert!(false),
    }

    let panel = &core.manager;
    let brick = &panel.current_brick.unwrap();
    assert_eq!(brick.position.y, 0);
    assert_ne!(brick.position.x, 0);
}

#[test]
fn spawn_s_piece_on_ten_by_twenty() {
    let settings = test_app_settings();
    let mut panel = GamePanel::new(TEST_SIZE, &settings);
    let s = Brick::new(S_BRICK_POINTS);
    assert_eq!(panel.put_new_one(&s), PutNewOneResult::Success);
    let live = panel.current_brick.unwrap();
    assert_eq!(live.position, Point::new(3, 0));
    assert_eq!(occupied(&panel), vec![(4, 0), (5, 0), (3, 1), (4, 1)]);
}

#[test]
fn spawn_on_occupied_top_is_game_over_and_changes_nothing() {
    let settings = test_app_settings();
    let mut panel = GamePanel::new(TEST_SIZE, &settings);
    panel.set_region(Point::new(3, 0), Size { width: 4, height: 2 }, true);
    let before = panel.blocks.blocks.clone();
    let result = panel.put_new_one(&Brick::new(O_BRICK_POINTS));
    assert_eq!(result, PutNewOneResult::GameOver);
    assert_eq!(panel.blocks.blocks, before);
    assert!(panel.current_brick.is_none());
}

#[test]
fn spawn_with_one_blocked_cell_is_game_over() {
    let settings = test_app_settings();
    let mut panel = GamePanel::new(TEST_SIZE, &settings);
    panel.set_region(Point::new(4, 1), Size { width: 1, height: 1 }, true);
    let before = panel.blocks.blocks.clone();
    assert_eq!(panel.put_new_one(&Brick::new(O_BRICK_POINTS)), PutNewOneResult::GameOver);
    assert_eq!(panel.blocks.blocks, before);
}

#[test]
fn tick_down_onto_filled_board_locks_piece_in_place() {
    let settings = test_app_settings();
    let mut panel = GamePanel::new(TEST_SIZE, &settings);
    assert_eq!(panel.put_new_one(&Brick::new(Z_BRICK_POINTS)), PutNewOneResult::Success);
    panel.set_region(Point::new(0, 2), Size { width: 10, height: 18 }, true);
    assert_eq!(panel.move_down(), MoveDownResult::NeedNewOne);
    assert!(panel.current_brick.is_none());
    assert!(cell(&panel, 3, 0) && cell(&panel, 4, 0) && cell(&panel, 4, 1) && cell(&panel, 5, 1));
    assert!(!cell(&panel, 5, 0) && !cell(&panel, 3, 1));
}

#[test]
fn move_down_shifts_marked_cells() {
    let settings = test_app_settings();
    let mut panel = GamePanel::new(TEST_SIZE, &settings);
    panel.put_new_one(&Brick::new(O_BRICK_POINTS));
    assert_eq!(panel.move_down(), MoveDownResult::Success);
    assert_eq!(occupied(&panel), vec![(3, 1), (4, 1), (3, 2), (4, 2)]);
}

#[test]
fn move_left_at_wall_changes_nothing() {
    let settings = test_app_settings();
    let mut panel = GamePanel::new(TEST_SIZE, &settings);
    panel.put_new_one(&Brick::new(O_BRICK_POINTS));
    for _ in 0..3 {
        panel.move_current_brick_to_left();
    }
    assert_eq!(panel.current_brick.unwrap().position, Point::new(0, 0));
    let before = panel.blocks.blocks.clone();
    assert!(panel.move_current_brick(Movement { x: -1, y: 0 }).is_err());
    panel.move_current_brick_to_left();
    assert_eq!(panel.blocks.blocks, before);
    assert_eq!(panel.current_brick.unwrap().position, Point::new(0, 0));
}

#[test]
fn move_right_at_wall_changes_nothing() {
    let settings = test_app_settings();
    let mut panel = GamePanel::new(TEST_SIZE, &settings);
    panel.put_new_one(&Brick::new(O_BRICK_POINTS));
    for _ in 0..10 {
        panel.move_current_brick_to_right();
    }
    assert_eq!(panel.current_brick.unwrap().position, Point::new(8, 0));
    assert_eq!(occupied(&panel), vec![(8, 0), (9, 0), (8, 1), (9, 1)]);
}

#[test]
fn move_into_occupied_cell_changes_nothing() {
    let settings = test_app_settings();
    let mut panel = GamePanel::new(TEST_SIZE, &settings);
    panel.set_region(Point::new(5, 0), Size { width: 1, height: 1 }, true);
    panel.put_new_one(&Brick::new(O_BRICK_POINTS));
    let before = panel.blocks.blocks.clone();
    assert!(panel.move_current_brick(Movement { x: 1, y: 0 }).is_err());
    assert_eq!(panel.blocks.blocks, before);
    assert_eq!(panel.current_brick.unwrap().position, Point::new(3, 0));
}

#[test]
fn move_without_piece_is_rejected() {
    let settings = test_app_settings();
    let mut panel = GamePanel::new(TEST_SIZE, &settings);
    assert!(panel.move_current_brick(Movement { x: 0, y: 1 }).is_err());
    assert_eq!(panel.move_down(), MoveDownResult::NeedNewOne);
}

#[test]
fn rotate_in_free_space_turns_piece() {
    let settings = test_app_settings();
    let mut panel = GamePanel::new(TEST_SIZE, &settings);
    panel.put_new_one(&Brick::new(I_BRICK_POINTS));
    panel.rotate_current_brick();
    let live = panel.current_brick.unwrap();
    assert_eq!(live.position, Point::new(3, 0));
    assert_eq!(occupied(&panel), vec![(3, 0), (3, 1), (3, 2), (3, 3)]);
}

#[test]
fn rotate_when_blocked_changes_nothing() {
    let settings = test_app_settings();
    let mut panel = GamePanel::new(TEST_SIZE, &settings);
    panel.set_region(Point::new(3, 2), Size { width: 1, height: 1 }, true);
    let bar = Brick::new(I_BRICK_POINTS);
    panel.put_new_one(&bar);
    let before = panel.blocks.blocks.clone();
    panel.rotate_current_brick();
    assert_eq!(panel.blocks.blocks, before);
    assert_eq!(panel.current_brick.unwrap().brick, bar);
}

#[test]
fn hard_drop_rests_on_floor_or_stack() {
    let settings = test_app_settings();
    let mut panel = GamePanel::new(TEST_SIZE, &settings);
    panel.put_new_one(&Brick::new(O_BRICK_POINTS));
    panel.move_current_brick_to_bottom();
    assert_eq!(panel.current_brick.unwrap().position, Point::new(3, 18));
    assert_eq!(occupied(&panel), vec![(3, 18), (4, 18), (3, 19), (4, 19)]);

    panel.put_new_one(&Brick::new(O_BRICK_POINTS));
    panel.move_current_brick_to_bottom();
    assert_eq!(panel.current_brick.unwrap().position, Point::new(3, 16));
}

#[test]
fn hard_drop_without_piece_changes_nothing() {
    let settings = test_app_settings();
    let mut panel = GamePanel::new(TEST_SIZE, &settings);
    panel.move_current_brick_to_bottom();
    assert!(panel.current_brick.is_none());
    assert!(occupied(&panel).is_empty());
}

#[test]
fn reset_clears_board_and_piece() {
    let settings = test_app_settings();
    let mut panel = GamePanel::new(TEST_SIZE, &settings);
    panel.set_region(Point::new(0, 10), Size { width: 10, height: 10 }, true);
    panel.put_new_one(&Brick::new(Z_BRICK_POINTS));
    panel.reset();
    assert!(panel.current_brick.is_none());
    assert!(occupied(&panel).is_empty());
    assert_eq!(panel.blocks.blocks.len(), 20);
}

#[test]
fn lock_and_spawn_reports_cleared_rows() {
    let settings = test_app_settings();
    let collection = BrickCollection::new();
    let mut panel = GamePanel::new(TEST_SIZE, &settings);
    panel.set_region(Point::new(0, 18), Size { width: 10, height: 2 }, true);
    let waiting = Brick::new(O_BRICK_POINTS);
    let drawn = Brick::new(Z_BRICK_POINTS);
    let mut core = GamingScreenCore { manager: panel, brick_collection: collection, next_brick: Some(waiting) };
    assert_eq!(core.lock_and_spawn(drawn), NextResult::LineClear(2, drawn));
    assert_eq!(core.next_brick, Some(drawn));
    assert_eq!(core.manager.current_brick.unwrap().brick, waiting);
    assert_eq!(occupied(&core.manager), vec![(3, 0), (4, 0), (3, 1), (4, 1)]);
}

#[test]
fn lock_and_spawn_without_full_rows_puts_piece_in() {
    let settings = test_app_settings();
    let collection = BrickCollection::new();
    let panel = GamePanel::new(TEST_SIZE, &settings);
    let waiting = Brick::new(I_BRICK_POINTS);
    let drawn = Brick::new(S_BRICK_POINTS);
    let mut core = GamingScreenCore { manager: panel, brick_collection: collection, next_brick: Some(waiting) };
    assert_eq!(core.lock_and_spawn(drawn), NextResult::NewBrickPutIn(drawn));
    assert_eq!(occupied(&core.manager), vec![(3, 0), (4, 0), (5, 0), (6, 0)]);
}

#[test]
fn lock_and_spawn_on_blocked_top_is_game_over() {
    let settings = test_app_settings();
    let collection = BrickCollection::new();
    let mut panel = GamePanel::new(TEST_SIZE, &settings);
    panel.set_region(Point::new(3, 0), Size { width: 2, height: 1 }, true);
    let waiting = Brick::new(O_BRICK_POINTS);
    let mut core = GamingScreenCore { manager: panel, brick_collection: collection, next_brick: Some(waiting) };
    assert_eq!(core.lock_and_spawn(Brick::new(Z_BRICK_POINTS)), NextResult::GameOver);
    assert_eq!(core.next_brick, Some(waiting));
    assert!(core.manager.current_brick.is_none());
}

#[test]
fn core_moves_and_reset() {
    let settings = test_app_settings();
    let collection = BrickCollection::new();
    let mut core = GamingScreenCore {
        manager: GamePanel::new(TEST_SIZE, &settings),
        brick_collection: collection,
        next_brick: Some(Brick::new(O_BRICK_POINTS)),
    };
    core.next();
    core.move_left();
    assert_eq!(core.manager.current_brick.unwrap().position, Point::new(2, 0));
    core.move_right();
    core.move_right();
    assert_eq!(core.manager.current_brick.unwrap().position, Point::new(4, 0));
    core.rotate();
    core.move_bottom();
    assert_eq!(core.manager.current_brick.unwrap().position, Point::new(4, 18));
    core.reset();
    assert!(core.manager.current_brick.is_none());
    assert!(core.next_brick.is_some());
    assert!(occupied(&core.manager).is_empty());
}
