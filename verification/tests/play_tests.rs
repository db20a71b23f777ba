use rand::rngs::StdRng;
use rand::SeedableRng;
use sudokube::cube::{iter_surface_coords, CubeCoord, Difficulty, Face};
use sudokube::digits::{CoordSet, DigitMap};
use sudokube::game_state::GameState;
use sudokube::grid::CubeGrid;
use sudokube::keymap::Action;
use sudokube::play::{
    apply_pager_action, click_log, handle_game_key, handle_game_mouse, on_surface_board, press_button, snake_step, use_tool,
    ClickTarget, Leave, MouseInput, Notice, PlayRules, PlayState,
};
use sudokube::render::{ButtonId, PagerAction, RenderMode};
use sudokube::shop::{ItemType, SnakeOutcome, SnakeState};
use sudokube::wfc::WfcGenerator;

fn solved_board(seed: u64) -> DigitMap {
    let mut rng = StdRng::seed_from_u64(seed);
    let mut generator = WfcGenerator::new();
    generator.generate(&mut rng).unwrap()
}

/// A game where only the cell `open` is not given.
fn game_with_one_open(open: CubeCoord) -> GameState {
    let solution = solved_board(3);
    let mut given = CoordSet::new();
    for c in iter_surface_coords() {
        if c != open {
            given.insert(c);
        }
    }
    let grid = CubeGrid::from_solution(solution, &given);
    GameState::new(grid, solution, Difficulty::Easy)
}

/// A game with nothing given.
fn open_game() -> GameState {
    let solution = solved_board(4);
    let grid = CubeGrid::from_solution(solution, &CoordSet::new());
    GameState::new(grid, solution, Difficulty::Hard)
}

fn rules() -> PlayRules {
    PlayRules { debug: false, guide_owned: true, guide_enabled: true, standard_cell_width: 7 }
}

fn play_for(game: &GameState) -> PlayState {
    PlayState::start(&game.grid, 40, 100)
}

#[test]
fn a_new_screen_starts_on_the_front_face() {
    let game = open_game();
    let play = play_for(&game);
    assert_eq!(play.current_face, Face::Front);
    assert_eq!(play.cursor, (4, 4));
    assert_eq!(play.render_mode, RenderMode::Standard);
    assert_eq!(play.digit_remaining, [40; 9]);
    assert!(on_surface_board(&game.grid));
}

#[test]
fn placing_the_last_digit_wins() {
    let open = Face::Front.to_cube(4, 4);
    let mut game = game_with_one_open(open);
    let mut play = play_for(&game);
    let answer = game.solution.get(&open).unwrap();
    let wrong = if answer == 9 { 1 } else { answer + 1 };
    let before = play.digit_remaining;
    let r = handle_game_key(&mut game, &mut play, rules(), Some(Action::Number(wrong)));
    assert!(!r.victory);
    assert_eq!(game.grid.get(&open).unwrap().user_value, Some(wrong));
    assert_eq!(game.selected, Some(open));
    // the centre of a face weighs 1
    assert_eq!(play.digit_remaining[(wrong - 1) as usize], before[(wrong - 1) as usize] - 1);
    let r = handle_game_key(&mut game, &mut play, rules(), Some(Action::Number(answer)));
    assert!(r.victory);
    assert!(game.completed);
    assert_eq!(play.digit_remaining[(wrong - 1) as usize], before[(wrong - 1) as usize]);
    assert_eq!(play.digit_remaining[(answer - 1) as usize], before[(answer - 1) as usize] - 1);
}

#[test]
fn erasing_gives_the_digit_back() {
    let mut game = open_game();
    let mut play = play_for(&game);
    play.cursor = (0, 0);
    handle_game_key(&mut game, &mut play, rules(), Some(Action::Number(5)));
    let corner = Face::Front.to_cube(0, 0);
    assert_eq!(game.grid.get(&corner).unwrap().user_value, Some(5));
    assert_eq!(play.digit_remaining[4], 40 - 3);
    handle_game_key(&mut game, &mut play, rules(), Some(Action::Erase));
    assert_eq!(game.grid.get(&corner).unwrap().user_value, None);
    assert_eq!(play.digit_remaining[4], 40);
    assert_eq!(game.history_index, 2);
}

#[test]
fn draft_marks_toggle_and_clear() {
    let mut game = open_game();
    let mut play = play_for(&game);
    play.draft_mode = true;
    let c = Face::Front.to_cube(4, 4);
    handle_game_key(&mut game, &mut play, rules(), Some(Action::Number(3)));
    handle_game_key(&mut game, &mut play, rules(), Some(Action::Number(7)));
    assert_eq!(game.grid.get(&c).unwrap().draft.len(), 2);
    handle_game_key(&mut game, &mut play, rules(), Some(Action::Number(3)));
    assert_eq!(game.grid.get(&c).unwrap().draft.len(), 1);
    assert_eq!(game.grid.get(&c).unwrap().user_value, None);
    handle_game_key(&mut game, &mut play, rules(), Some(Action::Erase));
    assert!(game.grid.get(&c).unwrap().draft.is_empty());
    play.draft_mode = false;
    handle_game_key(&mut game, &mut play, rules(), Some(Action::Number(2)));
    assert_eq!(game.grid.get(&c).unwrap().user_value, Some(2));
}

#[test]
fn given_cells_are_skipped() {
    let open = Face::Front.to_cube(4, 4);
    let mut game = game_with_one_open(open);
    let mut play = play_for(&game);
    play.cursor = (0, 0);
    let before = game.grid.get(&Face::Front.to_cube(0, 0)).unwrap().user_value;
    let counts = play.digit_remaining;
    let r = handle_game_key(&mut game, &mut play, rules(), Some(Action::Number(1)));
    assert_eq!(r.notice, Notice::Silent);
    assert_eq!(game.grid.get(&Face::Front.to_cube(0, 0)).unwrap().user_value, before);
    assert_eq!(game.selected, None);
    assert_eq!(play.digit_remaining, counts);
}

#[test]
fn cursor_keys_cross_edges() {
    let mut game = open_game();
    let mut play = play_for(&game);
    play.cursor = (8, 4);
    handle_game_key(&mut game, &mut play, rules(), Some(Action::CursorRight));
    assert_eq!(play.current_face, Face::Right);
    assert_eq!(play.cursor, (4, 8));
    assert_eq!(game.selected, Some(Face::Right.to_cube(4, 8)));
    handle_game_key(&mut game, &mut play, rules(), Some(Action::FaceTop));
    assert_eq!(play.current_face, Face::Top);
}

#[test]
fn mode_guide_and_draft_switches() {
    let mut game = open_game();
    let mut play = play_for(&game);
    play.draft_mode = true;
    let r = handle_game_key(&mut game, &mut play, rules(), Some(Action::ToggleMode));
    assert_eq!(play.render_mode, RenderMode::Scrollbar);
    assert_eq!(r.notice, Notice::Mode(RenderMode::Scrollbar));
    // Scrollbar cells are one line high: draft mode ends
    assert!(!play.draft_mode);
    let r = handle_game_key(&mut game, &mut play, rules(), Some(Action::ToggleGuidance));
    assert_eq!(r.guide_enabled, Some(false));
    assert_eq!(r.notice, Notice::GuideOff);
    assert!(!play.guidance);
    let locked = PlayRules { guide_owned: false, ..rules() };
    let r = handle_game_key(&mut game, &mut play, locked, Some(Action::ToggleGuidance));
    assert_eq!(r.notice, Notice::GuideLocked);
    let r = press_button(&mut game, &mut play, rules(), ButtonId::ToggleDraft, 0);
    assert_eq!(r.notice, Notice::DraftTooSmall);
}

#[test]
fn quit_and_new_game_leave() {
    let mut game = open_game();
    let mut play = play_for(&game);
    let r = handle_game_key(&mut game, &mut play, rules(), Some(Action::Quit));
    assert_eq!(r.leave, Leave::BackToMenu);
    let r = handle_game_key(&mut game, &mut play, rules(), Some(Action::NewGame));
    assert_eq!(r.leave, Leave::NewGame(Difficulty::Hard));
}

#[test]
fn button_pages_turn() {
    let mut game = open_game();
    let mut play = play_for(&game);
    handle_game_key(&mut game, &mut play, rules(), Some(Action::BtnPageNext));
    handle_game_key(&mut game, &mut play, rules(), Some(Action::BtnPageNext));
    assert_eq!(play.btn_page, 2);
    handle_game_key(&mut game, &mut play, rules(), Some(Action::BtnPagePrev));
    assert_eq!(play.btn_page, 1);
    apply_pager_action(&mut play, Some(2), PagerAction::Next);
    assert_eq!(play.btn_page, 1);
    apply_pager_action(&mut play, Some(2), PagerAction::Prev);
    assert_eq!(play.btn_page, 0);
    apply_pager_action(&mut play, Some(2), PagerAction::Prev);
    assert_eq!(play.btn_page, 0);
}

#[test]
fn the_shop_takes_keys_while_focused() {
    let mut game = open_game();
    let mut play = play_for(&game);
    handle_game_key(&mut game, &mut play, rules(), Some(Action::ShopFocus));
    assert!(play.shop_focused);
    handle_game_key(&mut game, &mut play, rules(), Some(Action::ShopUp));
    assert_eq!(play.shop_selected, 4);
    assert_eq!(play.shop_page, 1);
    handle_game_key(&mut game, &mut play, rules(), Some(Action::ShopDown));
    assert_eq!(play.shop_selected, 0);
    let r = handle_game_key(&mut game, &mut play, rules(), Some(Action::ShopBuy));
    assert_eq!(r.notice, Notice::Bought(ItemType::Cube));
    assert!(r.save_gold);
    assert_eq!(play.gold, 100 - ItemType::Cube.price());
    assert_eq!(play.inventory.count(ItemType::Cube), 1);
    play.gold = 0;
    let r = handle_game_key(&mut game, &mut play, rules(), Some(Action::ShopBuy));
    assert_eq!(r.notice, Notice::NoGold);
    handle_game_key(&mut game, &mut play, rules(), Some(Action::Cancel));
    assert!(!play.shop_focused);
}

#[test]
fn tools_need_an_item_unless_debugging() {
    let mut game = open_game();
    let mut play = play_for(&game);
    let r = use_tool(&mut game, &mut play, rules(), ItemType::Target, 0);
    assert_eq!(r.notice, Notice::NoTool);
    play.inventory.counts[4] = 1;
    let c = Face::Front.to_cube(4, 4);
    let r = use_tool(&mut game, &mut play, rules(), ItemType::Target, 0);
    assert_eq!(r.notice, Notice::ToolDone(ItemType::Target));
    assert_eq!(play.inventory.count(ItemType::Target), 0);
    assert_eq!(game.grid.get(&c).unwrap().user_value, game.solution.get(&c));
    let r = use_tool(&mut game, &mut play, PlayRules { debug: true, ..rules() }, ItemType::Target, 0);
    assert_eq!(r.notice, Notice::NotEmpty);
    let r = press_button(&mut game, &mut play, rules(), ButtonId::ToolCube, 7);
    assert_eq!(r.notice, Notice::NoTool);
}

#[test]
fn the_cube_hint_fills_and_shows_a_cell() {
    let open = Face::Top.to_cube(4, 4);
    let mut game = game_with_one_open(open);
    let mut play = play_for(&game);
    play.inventory.counts[0] = 1;
    let r = use_tool(&mut game, &mut play, rules(), ItemType::Cube, 12345);
    assert_eq!(r.notice, Notice::ToolDone(ItemType::Cube));
    assert!(r.victory);
    assert_eq!(play.current_face, Face::Top);
    assert_eq!(play.cursor, (4, 4));
}

#[test]
fn a_snake_tool_starts_the_game_and_keys_steer_it() {
    let mut game = open_game();
    let mut play = play_for(&game);
    play.inventory.counts[1] = 1;
    let r = use_tool(&mut game, &mut play, rules(), ItemType::Snake3, 99);
    assert_eq!(r.notice, Notice::SnakeStarted);
    assert!(play.snake.is_some());
    // heading right: turning left is refused, up is taken
    handle_game_key(&mut game, &mut play, rules(), Some(Action::SnakeLeft));
    assert_eq!(play.snake.as_ref().unwrap().dir, (1, 0));
    handle_game_key(&mut game, &mut play, rules(), Some(Action::SnakeUp));
    assert_eq!(play.snake.as_ref().unwrap().dir, (0, -1));
    let r = handle_game_key(&mut game, &mut play, rules(), Some(Action::SnakeQuit));
    assert_eq!(r.notice, Notice::SnakeEnded(SnakeOutcome::Running));
    assert!(play.snake.is_none());
}

#[test]
fn the_snake_eats_into_the_board() {
    let mut game = open_game();
    let mut play = play_for(&game);
    let head = (Face::Front, 4u8, 4u8);
    play.snake = Some(SnakeState {
        body: vec![head, (Face::Front, 3, 4)],
        dir: (1, 0),
        fruits: vec![(Face::Front, 5, 4), (Face::Front, 7, 7)],
        walls: vec![],
        outcome: SnakeOutcome::Running,
        score: 0,
        total_fruits: 2,
    });
    let r = snake_step(&mut game, &mut play, false);
    assert!(!r.victory);
    let c = Face::Front.to_cube(5, 4);
    assert_eq!(game.grid.get(&c).unwrap().user_value, game.solution.get(&c));
    assert_eq!(play.cursor, (5, 4));
    assert_eq!(play.snake.as_ref().unwrap().score, 1);
}

#[test]
fn debug_keys_need_debug_mode() {
    let mut game = open_game();
    let mut play = play_for(&game);
    let r = handle_game_key(&mut game, &mut play, rules(), Some(Action::DebugGoldUp));
    assert_eq!(play.gold, 100);
    assert!(!r.save_gold);
    let debug = PlayRules { debug: true, ..rules() };
    let r = handle_game_key(&mut game, &mut play, debug, Some(Action::DebugGoldUp));
    assert_eq!(play.gold, 200);
    assert_eq!(r.notice, Notice::Gold(200));
    play.gold = 30;
    handle_game_key(&mut game, &mut play, debug, Some(Action::DebugGoldDown));
    assert_eq!(play.gold, 0);
    let r = handle_game_key(&mut game, &mut play, debug, Some(Action::DebugHintFace));
    assert_eq!(r.notice, Notice::DebugFilled(81));
    let r = handle_game_key(&mut game, &mut play, debug, Some(Action::DebugWin));
    assert!(r.victory);
    assert!(game.completed);
}

#[test]
fn the_mouse_hovers_clicks_and_scrolls() {
    let mut game = open_game();
    let mut play = play_for(&game);
    handle_game_mouse(&mut game, &mut play, rules(), MouseInput::Moved(Some(ButtonId::Hint)), None, 0);
    assert_eq!(play.hover_button, Some(ButtonId::Hint));
    let click = ClickTarget { shop_item: None, pager: None, button: None, cell: Some((2, 3)) };
    handle_game_mouse(&mut game, &mut play, rules(), MouseInput::Click(click), None, 0);
    assert_eq!(play.cursor, (2, 3));
    assert_eq!(game.selected, Some(Face::Front.to_cube(2, 3)));
    handle_game_mouse(&mut game, &mut play, rules(), MouseInput::Scroll(true, false), None, 0);
    assert_eq!(play.current_face, Face::Top);
    handle_game_mouse(&mut game, &mut play, rules(), MouseInput::Scroll(true, true), None, 0);
    assert_eq!(play.current_face, Face::Front);
    let click = ClickTarget { shop_item: None, pager: None, button: Some(ButtonId::Number(6)), cell: None };
    handle_game_mouse(&mut game, &mut play, rules(), MouseInput::Click(click), None, 0);
    assert_eq!(game.grid.get(&Face::Front.to_cube(2, 3)).unwrap().user_value, Some(6));
    let click = ClickTarget { shop_item: Some(2), pager: None, button: None, cell: None };
    let r = handle_game_mouse(&mut game, &mut play, rules(), MouseInput::Click(click), None, 0);
    assert_eq!(r.notice, Notice::Bought(ItemType::Face));
    assert!(play.shop_focused);
}

#[test]
fn clicks_are_logged() {
    assert_eq!(click_log(ButtonId::Number(7), (2, 4)), "Placed 7 at R5C3");
    assert_eq!(click_log(ButtonId::Undo, (0, 0)), "Undo");
    assert_eq!(click_log(ButtonId::ToolSnake5, (0, 0)), "Tool🐍5");
}
