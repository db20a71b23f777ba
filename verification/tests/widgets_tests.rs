use sudokube::widgets::{ButtonState, EdgeDecor, PopupKind, ScrollableListState};

#[test]
fn test_scroll_state() {
    let mut state = ScrollableListState::new(20);
    state.select_next();
    assert_eq!(state.selected, 1);
    state.select_prev();
    assert_eq!(state.selected, 0);
}

#[test]
fn test_scroll_bounds() {
    let mut state = ScrollableListState::new(5);
    for _ in 0..10 {
        state.select_next();
    }
    assert_eq!(state.selected, 4);
}

#[test]
fn scrolling_follows_the_selection() {
    let mut state = ScrollableListState::new(30);
    state.set_visible_lines(5);
    for _ in 0..7 {
        state.select_next();
    }
    assert_eq!(state.selected, 7);
    assert_eq!(state.scroll_offset, 3);
    for _ in 0..6 {
        state.select_prev();
    }
    assert_eq!(state.selected, 1);
    assert_eq!(state.scroll_offset, 1);
}

#[test]
fn shrinking_the_list_keeps_the_selection_inside() {
    let mut state = ScrollableListState::new(30);
    for _ in 0..12 {
        state.select_next();
    }
    state.set_item_count(4);
    assert_eq!(state.selected, 3);
    assert_eq!(state.item_count, 4);
    state.set_item_count(0);
    assert_eq!(state.selected, 0);
    assert_eq!(state.scroll_offset, 0);
}

#[test]
fn defaults_and_decorations() {
    assert_eq!(ButtonState::default(), ButtonState::Normal);
    assert_eq!(PopupKind::default(), PopupKind::Simple);
    let d = EdgeDecor::new('◁');
    assert!(!d.faded);
    let f = d.faded();
    assert!(f.faded);
    assert_eq!(f.ch, '◁');
    let s = ScrollableListState::default();
    assert_eq!(s.item_count, 0);
    assert_eq!(s.visible_lines, 10);
}
