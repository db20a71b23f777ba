use rand::rngs::StdRng;
use rand::SeedableRng;
use sudokube::codec::GameRecord;
use sudokube::cube::{iter_surface_coords, Difficulty, Face};
use sudokube::digits::DigitMap;
use sudokube::keymap::{Action, InputKey, Key, Keymap, ModKey};
use sudokube::layout::{menu_layout, Area};
use sudokube::menu::{
    handle_menu_key, handle_menu_mouse, menu_item_at, record_progress, victory_label_key, victory_tally, MenuChoice,
    MenuItem, MenuState,
};
use sudokube::session::{continue_game, new_game};
use sudokube::settings::{
    handle_keymap_edit_key, handle_settings_key, handle_settings_mouse, setting_keys, AppSettings, FieldPart,
    KeymapEditOutcome, KeymapEditState, SettingsMouse, SettingsOutcome, SettingsState,
};
use sudokube::types::AppScreen;

fn none() -> ModKey {
    ModKey { shift: false, alt: false, ctrl: false }
}

#[test]
fn settings_keys_move_switch_and_close() {
    let mut s = AppSettings::defaults_for("en".to_string());
    let mut st = SettingsState::from_settings(&s);
    let mut screen = AppScreen::Settings;
    assert_eq!(handle_settings_key(&mut st, &mut s, &mut screen, Some(Action::SettingsUp)), SettingsOutcome::Stay);
    assert_eq!(st.selected, 0);
    // the cell width goes from 7 to the next option
    let r = handle_settings_key(&mut st, &mut s, &mut screen, Some(Action::SettingsRight));
    assert_eq!(r, SettingsOutcome::Changed);
    assert_eq!(st.fields[0].option_index, 3);
    assert_eq!(s.standard_cell_width.to_string(), st.fields[0].value);
    let r = handle_settings_key(&mut st, &mut s, &mut screen, Some(Action::SettingsLeft));
    assert_eq!(r, SettingsOutcome::Changed);
    assert_eq!(s.standard_cell_width, 7);
    // the guide field is locked before the guide is bought
    st.selected = 10;
    assert_eq!(st.fields[10].label, "Guide");
    let before = st.fields[10].option_index;
    let r = handle_settings_key(&mut st, &mut s, &mut screen, Some(Action::SettingsRight));
    assert_eq!(r, SettingsOutcome::Stay);
    assert_eq!(st.fields[10].option_index, before);
    // the key binding field opens its screen
    st.selected = 20;
    assert_eq!(st.fields[20].label, "Keymap");
    let r = handle_settings_key(&mut st, &mut s, &mut screen, Some(Action::Confirm));
    assert_eq!(r, SettingsOutcome::OpenKeymap);
    assert_eq!(screen, AppScreen::KeymapConfig);
    screen = AppScreen::Settings;
    st.selected = 1;
    st.visible = true;
    let r = handle_settings_key(&mut st, &mut s, &mut screen, Some(Action::Cancel));
    assert_eq!(r, SettingsOutcome::Closed);
    assert!(!st.visible);
    assert_eq!(screen, AppScreen::Menu);
}

#[test]
fn settings_mouse_hovers_clicks_and_closes() {
    let mut s = AppSettings::defaults_for("en".to_string());
    let mut st = SettingsState::from_settings(&s);
    let mut screen = AppScreen::Game;
    handle_settings_mouse(&mut st, &mut s, &mut screen, SettingsMouse::Moved(Some((2, FieldPart::LeftArrow))));
    assert_eq!(st.hover_field, Some(2));
    let r = handle_settings_mouse(&mut st, &mut s, &mut screen, SettingsMouse::Click(Some((1, FieldPart::RightArrow)), true));
    assert_eq!(r, SettingsOutcome::Changed);
    assert_eq!(st.selected, 1);
    assert_eq!(s.bg_color, st.fields[1].value);
    handle_settings_mouse(&mut st, &mut s, &mut screen, SettingsMouse::ScrollDown);
    assert_eq!(st.selected, 2);
    st.visible = true;
    let r = handle_settings_mouse(&mut st, &mut s, &mut screen, SettingsMouse::Click(None, false));
    assert_eq!(r, SettingsOutcome::Closed);
    assert!(!st.visible);
    assert_eq!(screen, AppScreen::Game);
}

#[test]
fn settings_are_stored_and_read_back() {
    let mut s = AppSettings::defaults_for("en".to_string());
    s.standard_cell_width = 9;
    s.bg_color = "blue".to_string();
    let keys = setting_keys();
    assert_eq!(keys.len(), 21);
    assert_eq!(keys[0], "standard_cell_width");
    assert_eq!(keys[20], "guide_enabled");
    let values = s.stored_values();
    assert_eq!(values[0], "9");
    let stored: Vec<Option<String>> = values.into_iter().map(Some).collect();
    let back = AppSettings::from_stored(&stored, AppSettings::defaults_for("zh".to_string()));
    assert_eq!(back.standard_cell_width, 9);
    assert_eq!(back.bg_color, "blue");
    assert_eq!(back.language, "en");
    let mut partial: Vec<Option<String>> = vec![None; 21];
    partial[0] = Some("wide".to_string());
    let back = AppSettings::from_stored(&partial, AppSettings::defaults_for("zh".to_string()));
    assert_eq!(back.standard_cell_width, 7);
    assert_eq!(back.language, "zh");
}

#[test]
fn the_keymap_screen_rebinds() {
    let mut keymap = Keymap::default();
    let mut edit = KeymapEditState {
        actions: keymap.all_actions(),
        selected: 0,
        scroll: 0,
        awaiting_key: false,
        rebinding_index: None,
    };
    let first = edit.actions[0];
    let r = handle_keymap_edit_key(&mut edit, &mut keymap, InputKey::Enter, none(), Some(Action::Confirm));
    assert_eq!(r, KeymapEditOutcome::Stay);
    assert!(edit.awaiting_key);
    let r = handle_keymap_edit_key(&mut edit, &mut keymap, InputKey::F(9), none(), None);
    assert_eq!(r, KeymapEditOutcome::Rebound);
    assert!(!edit.awaiting_key);
    assert!(keymap.find_binding(first).iter().any(|b| b.key == Key::F(9)));
    let r = handle_keymap_edit_key(&mut edit, &mut keymap, InputKey::Esc, none(), Some(Action::Cancel));
    assert_eq!(r, KeymapEditOutcome::Closed);
}

#[test]
fn the_menu_lists_unfinished_games() {
    let stored = vec![(4i64, false), (5i64, true), (6i64, false)];
    let mut menu = MenuState::new(&stored);
    assert_eq!(menu.items.len(), 8);
    assert_eq!(menu.items[6], MenuItem::Continue(4));
    assert_eq!(menu.items[7], MenuItem::Continue(6));
    assert_eq!(handle_menu_key(&mut menu, Some(Action::MenuSelect), false), MenuChoice::NewGame(Difficulty::Easy));
    assert_eq!(handle_menu_key(&mut menu, Some(Action::MenuDelete), false), MenuChoice::Stay);
    menu.selected = 6;
    assert_eq!(handle_menu_key(&mut menu, Some(Action::MenuDelete), false), MenuChoice::ConfirmDelete(4));
    assert_eq!(handle_menu_key(&mut menu, Some(Action::MenuDelete), true), MenuChoice::Delete(4));
    assert_eq!(handle_menu_key(&mut menu, Some(Action::MenuExport), false), MenuChoice::ExportGame(4));
    handle_menu_key(&mut menu, Some(Action::MenuDown), false);
    handle_menu_key(&mut menu, Some(Action::MenuDown), false);
    assert_eq!(menu.selected, 7);
    assert_eq!(handle_menu_key(&mut menu, Some(Action::Quit), false), MenuChoice::Quit);
    // 8 items: 24 lines in all, centred on 40 lines from the top
    assert_eq!(menu_item_at(&menu, 19, 0, 40), Some(0));
    assert_eq!(menu_item_at(&menu, 23, 0, 40), Some(3));
    assert_eq!(menu_item_at(&menu, 30, 0, 40), None);
    assert_eq!(handle_menu_mouse(&mut menu, Some(3), true), MenuChoice::OpenSettings);
    assert_eq!(menu.selected, 3);
}

#[test]
fn games_start_and_continue() {
    let mut rng = StdRng::seed_from_u64(11);
    let game = new_game(Difficulty::Easy, &mut rng).unwrap();
    assert_eq!(game.selected, Some(Face::Front.to_cube(4, 4)));
    assert_eq!(game.difficulty, Difficulty::Easy);
    let solution: DigitMap = game.solution;
    let coords = iter_surface_coords();
    let mut given = DigitMap::new();
    let mut puzzle = DigitMap::new();
    for (i, c) in coords.iter().enumerate() {
        if i % 3 == 0 {
            given.insert(*c, solution.get(c).unwrap());
        } else if i % 3 == 1 {
            puzzle.insert(*c, 1);
        }
    }
    let mut record = GameRecord {
        id: 17,
        started_at: "2024-05-01 10:00:00".to_string(),
        finished_at: None,
        elapsed_seconds: 300,
        difficulty: "困难".to_string(),
        completed: false,
        answer: solution,
        puzzle,
        given,
    };
    let g = continue_game(&record);
    assert_eq!(g.difficulty, Difficulty::Hard);
    assert_eq!(g.id, Some(17));
    assert_eq!(g.elapsed_seconds, 300);
    let c0 = coords[0];
    let c1 = coords[1];
    let c2 = coords[2];
    assert!(g.grid.get(&c0).unwrap().given);
    assert_eq!(g.grid.get(&c1).unwrap().user_value, Some(1));
    assert_eq!(g.grid.get(&c2).unwrap().user_value, None);
    record.difficulty = "简单".to_string();
    let g = continue_game(&record);
    assert_eq!(g.difficulty, Difficulty::Easy);
    record.difficulty = "normal".to_string();
    let g = continue_game(&record);
    assert_eq!(g.difficulty, Difficulty::Medium);
}

fn stored(id: i64, difficulty: &str) -> GameRecord {
    GameRecord {
        id,
        started_at: "2024-05-01 10:00:00".to_string(),
        finished_at: None,
        elapsed_seconds: 0,
        difficulty: difficulty.to_string(),
        completed: true,
        answer: DigitMap::new(),
        puzzle: DigitMap::new(),
        given: DigitMap::new(),
    }
}

#[test]
fn menu_lays_out_logo_box_and_side_bar() {
    let area = Area { x: 0, y: 0, width: 120, height: 40 };
    let m = menu_layout(area, &vec![10, 30, 12], 10, 68, 3);
    // total height 10 + 1 + 3 + 5 = 19, centred in 40
    assert_eq!(m.logo_y, 10);
    assert_eq!(m.logo_x, 26);
    assert_eq!(m.box_y, 21);
    // widest text 30 + 4, then 4 more
    assert_eq!(m.box_w, 38);
    assert!(m.has_sidebar);
    // 38 + 2 + 28 = 68 wide, centred
    assert_eq!(m.box_x, 26);
    assert_eq!(m.sidebar_x, 66);
    assert_eq!(m.list_rows, 3);
    assert_eq!(m.sidebar_h, 9);
    let narrow = menu_layout(Area { x: 0, y: 0, width: 40, height: 20 }, &vec![10], 10, 68, 40);
    assert!(!narrow.has_sidebar);
    assert_eq!(narrow.box_w, 18);
    assert_eq!(narrow.box_x, 11);
    assert_eq!(narrow.logo_x, 0);
    let tiny = menu_layout(Area { x: 0, y: 0, width: 10, height: 5 }, &vec![], 10, 68, 0);
    assert_eq!(tiny.box_w, 10);
    assert_eq!(tiny.list_rows, 0);
}

#[test]
fn stored_games_report_progress_and_victories() {
    let coords = iter_surface_coords();
    let mut r = stored(3, "中等");
    for c in coords.iter().take(10) {
        r.answer.insert(*c, 5);
    }
    r.puzzle.insert(coords[0], 5);
    r.puzzle.insert(coords[1], 0);
    r.puzzle.insert(coords[2], 7);
    // 10 answers and one empty player value; two filled
    assert_eq!(record_progress(&r), (9, 11));
    assert_eq!(record_progress(&stored(1, "x")), (0, 0));
    let wins = vec![stored(1, "简单"), stored(2, "easy"), r, stored(4, "hard"), stored(5, "odd")];
    assert_eq!(victory_tally(&wins), (2, 1, 1));
    assert_eq!(victory_label_key("困难"), "game.diff_hard");
    assert_eq!(victory_label_key("easy"), "game.diff_easy");
    assert_eq!(victory_label_key("odd"), "game.diff_medium");
}
