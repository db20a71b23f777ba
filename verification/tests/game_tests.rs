use rand::rngs::StdRng;
use rand::SeedableRng;
use sudokube::cube::{iter_surface_coords, CubeCoord, Difficulty};
use sudokube::digits::{CoordSet, DigitMap};
use sudokube::economy::{adjust_digit_remaining, buy_item, consume_item, recompute_digit_remaining, Inventory};
use sudokube::game_state::{GameState, MoveRecord};
use sudokube::grid::CubeGrid;
use sudokube::shop::{random_hint, target_hint, HintOutcome, ItemType};
use sudokube::wfc::WfcGenerator;

fn new_game(seed: u64) -> (GameState, DigitMap) {
    let mut rng = StdRng::seed_from_u64(seed);
    let mut generator = WfcGenerator::new();
    let solution = generator.generate(&mut rng).unwrap();
    let mut given = CoordSet::new();
    for c in iter_surface_coords() {
        if (c.x + c.y + c.z) % 2 == 0 {
            given.insert(c);
        }
    }
    let grid = CubeGrid::from_solution(solution, &given);
    (GameState::new(grid, solution, Difficulty::Medium), solution)
}

fn open_cell(game: &GameState) -> CubeCoord {
    for c in iter_surface_coords() {
        if !game.grid.get(&c).unwrap().given {
            return c;
        }
    }
    panic!("no open cell");
}

#[test]
fn setting_and_undoing_a_value() {
    let (mut game, _) = new_game(1);
    let c = open_cell(&game);
    game.set_value(c, Some(4));
    assert_eq!(game.grid.get(&c).unwrap().user_value, Some(4));
    assert_eq!(game.history_index, 1);
    assert_eq!(game.history[0], MoveRecord { coord: c, old: None });
    game.set_value(c, Some(4));
    assert_eq!(game.history_index, 1);
    game.undo();
    assert_eq!(game.grid.get(&c).unwrap().user_value, None);
    assert_eq!(game.history_index, 0);
    game.undo();
    assert_eq!(game.history_index, 0);
}

#[test]
fn given_cells_do_not_change() {
    let (mut game, _) = new_game(2);
    let g = CubeCoord { x: 0, y: 0, z: 0 };
    let before = game.grid.get(&g).unwrap().user_value;
    assert!(game.grid.get(&g).unwrap().given);
    game.set_value(g, Some(9));
    assert_eq!(game.grid.get(&g).unwrap().user_value, before);
    assert_eq!(game.history_index, 0);
}

#[test]
fn a_new_move_drops_the_undone_ones() {
    let (mut game, _) = new_game(3);
    let c = open_cell(&game);
    game.set_value(c, Some(1));
    game.set_value(c, Some(2));
    game.undo();
    assert_eq!(game.history.len(), 2);
    game.set_value(c, Some(3));
    assert_eq!(game.history.len(), 2);
    assert_eq!(game.history[1], MoveRecord { coord: c, old: Some(1) });
}

#[test]
fn hint_fills_the_selected_cell() {
    let (mut game, solution) = new_game(4);
    let c = open_cell(&game);
    game.hint();
    assert_eq!(game.history_index, 0);
    game.selected = Some(c);
    game.hint();
    assert_eq!(game.grid.get(&c).unwrap().user_value, solution.get(&c));
}

#[test]
fn giving_up_fills_everything_and_completion_is_reported_once() {
    let (mut game, _) = new_game(5);
    assert!(!game.check_completion());
    game.give_up();
    assert!(game.completed);
    assert!(game.grid.is_complete());
    assert!(game.grid.is_filled_correctly());
    assert!(!game.check_completion());
}

#[test]
fn completing_the_board_is_reported() {
    let (mut game, solution) = new_game(6);
    for c in iter_surface_coords() {
        let v = solution.get(&c);
        game.set_value(c, v);
    }
    assert!(game.check_completion());
    assert!(game.completed);
    assert!(!game.check_completion());
}

#[test]
fn random_and_target_hints() {
    let (mut game, solution) = new_game(7);
    match random_hint(&mut game, None, 12345) {
        HintOutcome::Filled(c) => assert_eq!(game.grid.get(&c).unwrap().user_value, solution.get(&c)),
        other => panic!("unexpected {:?}", other),
    }
    let g = CubeCoord { x: 0, y: 0, z: 0 };
    assert_eq!(target_hint(&mut game, g), HintOutcome::NotEmpty);
    assert_eq!(target_hint(&mut game, CubeCoord { x: 4, y: 4, z: 4 }), HintOutcome::NoEmpty);
    let c = open_cell(&game);
    if game.grid.get(&c).unwrap().user_value.is_none() {
        assert_eq!(target_hint(&mut game, c), HintOutcome::Filled(c));
    }
    game.give_up();
    assert_eq!(random_hint(&mut game, None, 1), HintOutcome::NoEmpty);
}

#[test]
fn digit_counts_follow_the_moves() {
    let (mut game, _) = new_game(8);
    let mut remaining = recompute_digit_remaining(&game.grid, 54);
    let c = open_cell(&game);
    let old = game.grid.get(&c).unwrap().user_value;
    game.set_value(c, Some(6));
    adjust_digit_remaining(&mut remaining, c.x, c.y, c.z, old, Some(6));
    assert_eq!(remaining, recompute_digit_remaining(&game.grid, 54));
    let empty = CubeGrid::empty();
    assert_eq!(recompute_digit_remaining(&empty, 54), [54; 9]);
}

#[test]
fn corner_digits_count_three_times() {
    let mut remaining = [54; 9];
    adjust_digit_remaining(&mut remaining, 0, 0, 0, None, Some(1));
    assert_eq!(remaining[0], 51);
    adjust_digit_remaining(&mut remaining, 0, 0, 4, Some(1), Some(2));
    assert_eq!(remaining[0], 53);
    assert_eq!(remaining[1], 52);
    adjust_digit_remaining(&mut remaining, 8, 4, 4, None, Some(0));
    assert_eq!(remaining, [53, 52, 54, 54, 54, 54, 54, 54, 54]);
}

#[test]
fn buying_and_using_items() {
    let mut gold = 25;
    let mut inv = Inventory::new();
    assert!(buy_item(&mut gold, &mut inv, ItemType::Snake3));
    assert_eq!(gold, 10);
    assert_eq!(inv.count(ItemType::Snake3), 1);
    assert!(!buy_item(&mut gold, &mut inv, ItemType::Face));
    assert_eq!(gold, 10);
    assert!(consume_item(false, &mut inv, ItemType::Snake3));
    assert_eq!(inv.count(ItemType::Snake3), 0);
    assert!(!consume_item(false, &mut inv, ItemType::Snake3));
    assert!(consume_item(true, &mut inv, ItemType::Target));
    assert_eq!(inv.count(ItemType::Target), 0);
}
