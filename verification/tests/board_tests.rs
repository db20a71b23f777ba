use rand::rngs::StdRng;
use rand::SeedableRng;
use sudokube::board::{cell_line, cell_look, is_wrong, separator_line, CellLook};
use sudokube::cube::{Difficulty, Face};
use sudokube::digits::{CoordSet, DigitMap};
use sudokube::game_state::GameState;
use sudokube::grid::CubeGrid;
use sudokube::play::PlayState;
use sudokube::shop::{SnakeOutcome, SnakeState};
use sudokube::wfc::WfcGenerator;

fn open_game() -> GameState {
    let mut rng = StdRng::seed_from_u64(9);
    let solution: DigitMap = WfcGenerator::new().generate(&mut rng).unwrap();
    let grid = CubeGrid::from_solution(solution, &CoordSet::new());
    GameState::new(grid, solution, Difficulty::Medium)
}

#[test]
fn separators_draw_the_frame() {
    assert_eq!(separator_line(1, true, false, true), "╔═╤═╤═╦═╤═╤═╦═╤═╤═╗");
    assert_eq!(separator_line(1, false, true, true), "╚═╧═╧═╩═╧═╧═╩═╧═╧═╝");
    assert_eq!(separator_line(2, false, false, false), "╟──┼──┼──╫──┼──┼──╫──┼──┼──╢");
    assert_eq!(separator_line(1, false, false, true), "╟═╪═╪═╬═╪═╪═╬═╪═╪═╢");
    assert_eq!(separator_line(0, true, false, false), "╔╤╤╦╤╤╦╤╤╗");
}

#[test]
fn cell_lines_centre_their_mark() {
    assert_eq!(cell_line(CellLook::Filled, Some(7), 5, true), "  7  ");
    assert_eq!(cell_line(CellLook::Filled, Some(7), 5, false), "     ");
    assert_eq!(cell_line(CellLook::Empty, None, 3, true), "   ");
    assert_eq!(cell_line(CellLook::Wall, None, 3, true), "▓▓▓");
    assert_eq!(cell_line(CellLook::SnakeHead, None, 4, true), " ◉  ");
    assert_eq!(cell_line(CellLook::SnakeBody, None, 1, false), " ");
    assert_eq!(cell_line(CellLook::Fruit, Some(3), 3, true), " ● ");
}

#[test]
fn the_cursor_and_the_guide_shape_the_looks() {
    let mut game = open_game();
    let mut play = PlayState::start(&game.grid, 40, 0);
    let centre = Face::Front.to_cube(4, 4);
    let answer = game.solution.get(&centre).unwrap();
    let wrong = if answer == 9 { 1 } else { answer + 1 };
    assert!(is_wrong(&game, centre, wrong));
    assert!(!is_wrong(&game, centre, answer));
    assert_eq!(cell_look(&game, &play, 4, 4, true, true, true), CellLook::SelectedLit);
    assert_eq!(cell_look(&game, &play, 4, 4, true, true, false), CellLook::SelectedDim);
    assert_eq!(cell_look(&game, &play, 4, 4, true, false, false), CellLook::SelectedLit);
    game.grid.get_mut(&centre).unwrap().user_value = Some(wrong);
    assert_eq!(cell_look(&game, &play, 4, 4, true, true, true), CellLook::SelectedWrong);
    // same row as the cursor
    assert_eq!(cell_look(&game, &play, 0, 4, true, true, true), CellLook::Group);
    // same box
    assert_eq!(cell_look(&game, &play, 3, 3, true, true, true), CellLook::Group);
    // far away and empty
    assert_eq!(cell_look(&game, &play, 0, 0, true, true, true), CellLook::Empty);
    let far = Face::Front.to_cube(0, 0);
    game.grid.get_mut(&far).unwrap().user_value = Some(wrong);
    assert_eq!(cell_look(&game, &play, 0, 0, true, true, true), CellLook::SameDigit);
    play.guidance = false;
    let quiet = &play;
    let far_answer = game.solution.get(&far).unwrap();
    let expected = if far_answer == wrong { CellLook::Filled } else { CellLook::Wrong };
    assert_eq!(cell_look(&game, quiet, 0, 0, true, true, true), expected);
    assert_eq!(cell_look(&game, quiet, 0, 4, true, true, true), CellLook::Empty);
}

#[test]
fn the_snake_game_has_its_own_looks() {
    let game = open_game();
    let mut play = PlayState::start(&game.grid, 40, 0);
    play.snake = Some(SnakeState {
        body: vec![(Face::Front, 4, 4), (Face::Front, 3, 4)],
        dir: (1, 0),
        fruits: vec![(Face::Front, 6, 6)],
        walls: vec![(Face::Front, 0, 0)],
        outcome: SnakeOutcome::Running,
        score: 0,
        total_fruits: 1,
    });
    assert_eq!(cell_look(&game, &play, 4, 4, true, true, true), CellLook::SnakeHead);
    assert_eq!(cell_look(&game, &play, 4, 4, false, true, true), CellLook::SnakeEmpty);
    assert_eq!(cell_look(&game, &play, 3, 4, false, true, true), CellLook::SnakeBody);
    assert_eq!(cell_look(&game, &play, 6, 6, true, true, true), CellLook::Fruit);
    assert_eq!(cell_look(&game, &play, 6, 6, false, true, true), CellLook::SnakeEmpty);
    assert_eq!(cell_look(&game, &play, 0, 0, false, true, true), CellLook::Wall);
    assert_eq!(cell_look(&game, &play, 8, 8, true, true, true), CellLook::SnakeEmpty);
}
