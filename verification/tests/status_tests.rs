use sudokube::cube::{iter_surface_coords, Face};
use sudokube::digits::{CoordSet, DigitMap};
use sudokube::grid::CubeGrid;
use sudokube::economy::Inventory;
use sudokube::shop::ItemType;
use sudokube::status::{
    board_progress, clock_text, heading, item_level, progress_bar, progress_percent, shop_rows, stock_level,
    ItemLevel, StockLevel,
};

#[test]
fn clocks_show_minutes_and_seconds() {
    assert_eq!(clock_text(0), "00:00");
    assert_eq!(clock_text(65), "01:05");
    assert_eq!(clock_text(600), "10:00");
    assert_eq!(clock_text(6000), "100:00");
}

#[test]
fn progress_counts_filled_cells() {
    let mut solution = DigitMap::new();
    let mut given = CoordSet::new();
    for (i, c) in iter_surface_coords().iter().enumerate() {
        solution.insert(*c, 1 + (i % 9) as u8);
        if i < 10 {
            given.insert(*c);
        }
    }
    let grid = CubeGrid::from_solution(solution, &given);
    assert_eq!(board_progress(&grid), (10, 386));
    assert_eq!(board_progress(&CubeGrid::from_solution(DigitMap::new(), &CoordSet::new())), (0, 0));
    assert_eq!(progress_percent(10, 386), 2);
    assert_eq!(progress_percent(386, 386), 100);
    assert_eq!(progress_percent(5, 0), 0);
    let _ = Face::Front;
}

#[test]
fn progress_bars_fill_their_share() {
    assert_eq!(progress_bar(12, 5, 10), "[█████░░░░░]");
    assert_eq!(progress_bar(0, 0, 0), "[░░░░]");
    assert_eq!(progress_bar(6, 3, 3), "[████]");
    assert_eq!(progress_bar(8, 1, 3), "[██░░░░]");
}

#[test]
fn levels_flag_what_runs_out() {
    assert_eq!(stock_level(0), StockLevel::Out);
    assert_eq!(stock_level(-2), StockLevel::Out);
    assert_eq!(stock_level(3), StockLevel::Low);
    assert_eq!(stock_level(4), StockLevel::Plenty);
    assert_eq!(item_level(2, false), ItemLevel::Stocked);
    assert_eq!(item_level(0, false), ItemLevel::Missing);
    assert_eq!(item_level(0, true), ItemLevel::Free);
    assert_eq!(heading((1, 0)), '→');
    assert_eq!(heading((-1, 0)), '←');
    assert_eq!(heading((0, -1)), '↑');
    assert_eq!(heading((0, 1)), '↓');
    assert_eq!(heading((1, 1)), '?');
}

#[test]
fn shop_pages_list_their_items() {
    let inv = Inventory { counts: [2, 0, 1, 0, 3] };
    let rows = shop_rows(0, 1, true, 30, &inv);
    assert_eq!(rows.len(), 4);
    assert_eq!(rows[0].item_type, ItemType::Cube);
    assert_eq!(rows[0].count, 2);
    assert!(!rows[0].selected);
    assert!(rows[1].selected);
    assert_eq!(rows[3].item_type, ItemType::Snake5);
    for r in &rows {
        assert_eq!(r.affordable, 30 >= r.price);
    }
    let unfocused = shop_rows(0, 1, false, 30, &inv);
    assert!(unfocused.iter().all(|r| !r.selected));
    let last = shop_rows(1, 4, true, 0, &inv);
    assert_eq!(last.len(), 1);
    assert_eq!(last[0].item_type, ItemType::Target);
    assert_eq!(last[0].count, 3);
    assert!(last[0].selected);
    assert!(shop_rows(2, 0, true, 0, &inv).is_empty());
}
