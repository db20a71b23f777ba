use ratatui::style::Color;
use sudokube::layout::{
    cell_at, column_widths, find_button_at, layout_button_bar, needs_scrollbar_mode, pager_action_at, settings_popup_layout,
    shop_item_at, Area,
};
use sudokube::render::{ButtonId, ButtonLayout, ButtonTheme, PagerAction, RenderMode};

fn theme() -> ButtonTheme {
    ButtonTheme { text: Color::White, background: Color::Blue, highlight: Color::Cyan, shadow: Color::Black }
}

fn button(id: ButtonId, col: u16, width: u16) -> ButtonLayout {
    ButtonLayout { id, label: String::from("x"), col, row: 10, width, height: 3, theme: theme() }
}

#[test]
fn clicks_find_the_button_under_them() {
    let buttons = vec![button(ButtonId::Number(1), 5, 3), button(ButtonId::Erase, 9, 7)];
    assert_eq!(find_button_at(&buttons, 5, 10), Some(ButtonId::Number(1)));
    assert_eq!(find_button_at(&buttons, 7, 12), Some(ButtonId::Number(1)));
    assert_eq!(find_button_at(&buttons, 8, 10), None);
    assert_eq!(find_button_at(&buttons, 15, 11), Some(ButtonId::Erase));
    assert_eq!(find_button_at(&buttons, 15, 13), None);
}

#[test]
fn shop_items_are_three_lines_each() {
    let panel = Area { x: 50, y: 20, width: 20, height: 16 };
    assert_eq!(shop_item_at(panel, 55, 22), None);
    assert_eq!(shop_item_at(panel, 55, 23), Some(0));
    assert_eq!(shop_item_at(panel, 55, 26), Some(1));
    assert_eq!(shop_item_at(panel, 55, 34), Some(3));
    assert_eq!(shop_item_at(panel, 49, 23), None);
}

#[test]
fn cells_lie_between_rules() {
    let grid = Area { x: 10, y: 5, width: 73, height: 37 };
    // cells 7 wide and 3 high
    assert_eq!(cell_at(grid, 7, 3, 10, 5), None);
    assert_eq!(cell_at(grid, 7, 3, 11, 6), Some((0, 0)));
    assert_eq!(cell_at(grid, 7, 3, 19, 10), Some((1, 1)));
    assert_eq!(cell_at(grid, 7, 3, 18, 6), None);
    assert_eq!(cell_at(grid, 7, 3, 83, 6), None);
}

#[test]
fn small_screens_need_the_scrollbar_mode() {
    assert!(needs_scrollbar_mode(RenderMode::Standard, 7, 80, 30));
    assert!(!needs_scrollbar_mode(RenderMode::Standard, 7, 200, 60));
    assert!(!needs_scrollbar_mode(RenderMode::Scrollbar, 7, 10, 10));
    // compact: 19 wide and 19 high
    assert!(!needs_scrollbar_mode(RenderMode::Compact, 7, 45, 27));
    assert!(needs_scrollbar_mode(RenderMode::Compact, 7, 44, 27));
}

#[test]
fn the_button_bar_pages_when_it_is_too_narrow() {
    let widths: Vec<u16> = vec![3, 3, 3, 3, 3, 3, 3, 3, 3, 7, 6, 7, 7, 6, 6];
    // wide enough: one page, centred
    let wide = Area { x: 0, y: 40, width: 200, height: 3 };
    let bar = layout_button_bar(&widths, wide, 3);
    assert_eq!(bar.total_pages, 1);
    assert_eq!(bar.current_page, 0);
    assert_eq!((bar.start, bar.end), (0, 15));
    assert!(bar.pager.is_none());
    // total width 3*9 + 7 + 6 + 7 + 7 + 6 + 6 + 14 gaps = 80
    assert_eq!(bar.bar_x, 60);
    assert_eq!(bar.cols[1], 64);
    // narrow: pages of what fits in 40 - 7 columns
    let narrow = Area { x: 0, y: 40, width: 40, height: 3 };
    let bar = layout_button_bar(&widths, narrow, 9);
    assert_eq!(bar.page_capacity, 8);
    assert_eq!(bar.total_pages, 2);
    assert_eq!(bar.current_page, 1);
    assert_eq!((bar.start, bar.end), (8, 15));
    let pager = bar.pager.unwrap();
    assert_eq!(pager.prev_rect, Area { x: 0, y: 41, width: 1, height: 1 });
    assert_eq!(pager.next_rect.x, 39);
    assert_eq!(pager_action_at(&bar.pager, 0, 41), Some(PagerAction::Prev));
    assert_eq!(pager_action_at(&bar.pager, 39, 41), Some(PagerAction::Next));
    assert_eq!(pager_action_at(&bar.pager, 5, 41), None);
}

#[test]
fn the_three_columns_share_the_screen() {
    assert_eq!(column_widths(60, 33, 20), None);
    let (l, c, r) = column_widths(200, 33, 20).unwrap();
    assert_eq!(l, 30);
    assert_eq!(c, 127);
    assert_eq!(r, 43);
}

#[test]
fn the_settings_popup_scrolls_to_the_selection() {
    let labels = vec![12u16; 21];
    let values = vec![5u16; 21];
    let screen = Area { x: 0, y: 0, width: 100, height: 40 };
    let layout = settings_popup_layout(screen, &labels, &values, 0, 0);
    assert_eq!(layout.popup_area, Area { x: 27, y: 6, width: 46, height: 27 });
    assert_eq!(layout.content_area, Area { x: 28, y: 7, width: 44, height: 24 });
    assert_eq!(layout.scroll, 0);
    assert_eq!(layout.fields.len(), 21);
    let row = layout.fields[0];
    assert_eq!(row.left_arrow_rect.x, 63);
    assert_eq!(row.value_rect.x, 65);
    assert_eq!(row.right_arrow_rect.x, 72);
    let short = Area { x: 0, y: 0, width: 100, height: 20 };
    let layout = settings_popup_layout(short, &labels, &values, 20, 0);
    assert_eq!(layout.scroll, 4);
    assert_eq!(layout.fields.len(), 17);
    assert_eq!(layout.fields[16].index, 20);
}
