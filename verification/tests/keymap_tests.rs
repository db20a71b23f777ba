use sudokube::keymap::{Action, ActionGroup, InputKey, Key, KeyBinding, Keymap, ModKey};
use sudokube::types::AppScreen;

fn none() -> ModKey {
    ModKey { shift: false, alt: false, ctrl: false }
}

fn alt() -> ModKey {
    ModKey { shift: false, alt: true, ctrl: false }
}

#[test]
fn names_and_groups() {
    assert_eq!(Action::MenuDelete.display_name(), "Delete Game");
    assert_eq!(Action::Number(7).display_name(), "Number 7");
    assert_eq!(Action::Number(0).display_name(), "Number ?");
    assert_eq!(Action::BtnPagePrev.display_name(), "Btn Page ←");
    assert_eq!(Action::Number(3).group(), ActionGroup::Gameplay);
    assert_eq!(Action::SnakeQuit.group(), ActionGroup::Snake);
    assert_eq!(Action::ImportChar.group(), ActionGroup::Import);
}

#[test]
fn labels_of_bindings() {
    let b = KeyBinding::with_mods(Action::DebugHintFace, Key::Char('h'), alt());
    assert_eq!(b.display_label(), "Alt+H");
    let f = KeyBinding::new(Action::Hint, Key::F(12));
    assert_eq!(f.display_label(), "F12");
    let m = KeyBinding::with_mods(Action::Undo, Key::Up, ModKey { shift: true, alt: false, ctrl: true });
    assert_eq!(m.display_label(), "Ctrl+Shift+↑");
    assert_eq!(KeyBinding::new(Action::Erase, Key::Backspace).display_label(), "Bksp");
    assert_eq!(KeyBinding::new(Action::Erase, Key::Char('[')).display_label(), "[");
}

#[test]
fn matching_ignores_case_and_shift() {
    let b = KeyBinding::new(Action::Hint, Key::Char('h'));
    assert!(b.matches(InputKey::Char('H'), ModKey { shift: true, alt: false, ctrl: false }));
    assert!(b.matches(InputKey::Char('h'), none()));
    assert!(!b.matches(InputKey::Char('h'), alt()));
    assert!(!b.matches(InputKey::Char('j'), none()));
    let space = KeyBinding::new(Action::Confirm, Key::Space);
    assert!(space.matches(InputKey::Char(' '), none()));
    assert!(!space.matches(InputKey::Other, none()));
    assert_eq!(Key::from_input(InputKey::Other), Key::Space);
    assert_eq!(Key::from_input(InputKey::F(2)), Key::F(2));
}

#[test]
fn resolving_keys_by_screen() {
    let km = Keymap::default();
    assert_eq!(km.resolve(AppScreen::Game, false, InputKey::Char('w'), none()), Some(Action::CursorUp));
    assert_eq!(km.resolve(AppScreen::Menu, false, InputKey::Char('w'), none()), Some(Action::MenuUp));
    assert_eq!(km.resolve(AppScreen::Menu, false, InputKey::Char('d'), none()), Some(Action::MenuDelete));
    assert_eq!(km.resolve(AppScreen::Settings, false, InputKey::Esc, none()), Some(Action::Cancel));
    assert_eq!(km.resolve(AppScreen::Game, false, InputKey::Char('h'), alt()), Some(Action::DebugHintFace));
    assert_eq!(km.resolve(AppScreen::Game, false, InputKey::Char('H'), none()), Some(Action::Hint));
    assert_eq!(km.resolve(AppScreen::Victory, false, InputKey::Char('w'), none()), None);
    assert_eq!(km.resolve(AppScreen::Game, true, InputKey::Char('w'), none()), Some(Action::SnakeUp));
    assert_eq!(km.resolve(AppScreen::Game, true, InputKey::Char('x'), none()), Some(Action::Erase));
    assert_eq!(km.resolve(AppScreen::Game, true, InputKey::Esc, none()), Some(Action::SnakeQuit));
    assert_eq!(km.resolve(AppScreen::Menu, true, InputKey::Char('x'), none()), None);
    assert_eq!(km.resolve(AppScreen::Game, false, InputKey::Char('5'), none()), Some(Action::Number(5)));
}

#[test]
fn rebinding_rules() {
    let mut km = Keymap::default();
    assert_eq!(km.rebind(Action::Hint, Key::Esc, none()), Err("reserved"));
    assert_eq!(km.rebind(Action::Hint, Key::Enter, none()), Err("reserved"));
    assert_eq!(km.rebind(Action::Hint, Key::Char('w'), none()), Err("conflict"));
    assert_eq!(km.rebind(Action::Hint, Key::Char('y'), none()), Ok(()));
    let found = km.find_binding(Action::Hint);
    assert_eq!(found.len(), 1);
    assert_eq!(found[0].key, Key::Char('y'));
    assert_eq!(km.resolve(AppScreen::Game, false, InputKey::Char('y'), none()), Some(Action::Hint));
    assert_eq!(km.resolve(AppScreen::Game, false, InputKey::Char('h'), none()), None);
    assert_eq!(km.rebind(Action::ImportChar, Key::Char('k'), none()), Ok(()));
    assert_eq!(km.game.last().unwrap().action, Action::ImportChar);
    km.reset_to_default();
    assert_eq!(km.find_binding(Action::Hint)[0].key, Key::Char('h'));
}

#[test]
fn every_bound_action_once() {
    let km = Keymap::default();
    let all = km.all_actions();
    assert_eq!(all.len(), 61);
    assert_eq!(all[0], Action::Cancel);
    assert_eq!(all[1], Action::MenuUp);
    for i in 0..all.len() {
        for j in 0..i {
            assert_ne!(all[i], all[j]);
        }
    }
    assert_eq!(km.find_binding(Action::Erase).len(), 4);
    assert_eq!(km.find_binding(Action::Confirm).len(), 4);
}

#[test]
fn debug_and_tool_groups_follow_the_name_prefix() {
    let km = Keymap::default();
    let mut actions = km.all_actions();
    actions.push(Action::Number(0));
    actions.extend([
        Action::ToolCube,
        Action::ToolSnake3,
        Action::ToolFace,
        Action::ToolSnake5,
        Action::ToolTarget,
        Action::DebugHintFace,
        Action::DebugWin,
        Action::DebugGoldUp,
        Action::DebugGoldDown,
        Action::ImportChar,
        Action::MenuDelete,
        Action::ToggleMode,
    ]);
    actions.sort_by_key(|a| format!("{:?}", a));
    actions.dedup();
    let mut debug = 0;
    let mut tools = 0;
    for a in actions {
        let name = a.display_name();
        assert_eq!(a.group() == ActionGroup::Debug, name.starts_with("Debug: "));
        assert_eq!(a.group() == ActionGroup::Tools, name.starts_with("Tool: "));
        if a.group() == ActionGroup::Debug {
            debug += 1;
        }
        if a.group() == ActionGroup::Tools {
            tools += 1;
        }
    }
    assert_eq!(debug, 4);
    assert_eq!(tools, 5);
    assert_eq!(Action::DebugWin.display_name(), "Debug: Win");
    assert_eq!(Action::ToolTarget.group(), ActionGroup::Tools);
}
