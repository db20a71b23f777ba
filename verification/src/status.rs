//! What the side panels of the game screen report: the clock, the board's progress and its
//! bar, how many of each digit are left, the items in stock, the snake's heading, and the
//! rows of the shop.

use vstd::prelude::*;

use crate::cube::{coord_at_slot, coord_from_slot, CubeCoord};
use crate::economy::{item_slot, Inventory};
use crate::grid::{Cell, CubeGrid};
use crate::shop::{item_price, shop_catalog, ItemType};
use crate::text::{decimal, push_char, push_decimal};

verus! {

/// The number of cells of `grid` among the first `n` slots.
pub open spec fn cell_count(grid: Map<CubeCoord, Cell>, n: int) -> nat
    decreases n,
{
    if n <= 0 {
        0
    } else {
        cell_count(grid, n - 1) + (if grid.dom().contains(coord_at_slot(n - 1)) {
            1nat
        } else {
            0nat
        })
    }
}

/// The number of cells of `grid` among the first `n` slots that hold a digit.
pub open spec fn filled_count(grid: Map<CubeCoord, Cell>, n: int) -> nat
    decreases n,
{
    if n <= 0 {
        0
    } else {
        let c = coord_at_slot(n - 1);
        filled_count(grid, n - 1) + (if grid.dom().contains(c) && grid[c].user_value is Some {
            1nat
        } else {
            0nat
        })
    }
}

proof fn lemma_counts_bounded(grid: Map<CubeCoord, Cell>, n: int)
    requires
        0 <= n,
    ensures
        filled_count(grid, n) <= cell_count(grid, n) <= n,
    decreases n,
{
    if n > 0 {
        lemma_counts_bounded(grid, n - 1);
    }
}

/// How far the board is: the cells holding a digit, and all cells.
pub fn board_progress(grid: &CubeGrid) -> (r: (usize, usize))
    requires
        grid.wf(),
    ensures
        r.0 == filled_count(grid@, 729),
        r.1 == cell_count(grid@, 729),
        r.0 <= r.1 <= 729,
{
    let mut filled: usize = 0;
    let mut total: usize = 0;
    let mut s: usize = 0;
    while s < 729
        invariant
            grid.wf(),
            s <= 729,
            filled == filled_count(grid@, s as int),
            total == cell_count(grid@, s as int),
            filled <= total <= s,
        decreases 729 - s,
    {
        let c = coord_from_slot(s);
        proof {
            lemma_counts_bounded(grid@, s as int);
            assert(coord_at_slot(s as int) == c);
        }
        match grid.get(&c) {
            Some(cell) => {
                total = total + 1;
                if cell.user_value.is_some() {
                    filled = filled + 1;
                }
            },
            None => {},
        }
        s = s + 1;
    }
    (filled, total)
}

/// The share of the board filled, in whole percent (0 for an empty board).
pub open spec fn percent(filled: nat, total: nat) -> nat {
    if total == 0 {
        0
    } else {
        (filled * 100) / total
    }
}

/// The share of the board filled, in whole percent (0 for a board without cells).
pub fn progress_percent(filled: usize, total: usize) -> (r: usize)
    requires
        filled * 100 <= usize::MAX,
    ensures
        r == percent(filled as nat, total as nat),
{
    if total == 0 {
        0
    } else {
        (filled * 100) / total
    }
}

/// The width of the progress bar inside a panel line `inner_w` wide: two less, at least 4.
pub open spec fn bar_width(inner_w: nat) -> nat {
    if inner_w >= 6 {
        (inner_w - 2) as nat
    } else {
        4
    }
}

/// The number of full blocks of the bar: its share of `bar_w` by `filled` of `total` (a
/// board without cells counts as one cell).
pub open spec fn full_blocks(bar_w: nat, filled: nat, total: nat) -> nat {
    (bar_w * filled) / (if total == 0 {
        1
    } else {
        total
    })
}

/// The progress bar: `[`, a full block per filled share, a light block for the rest of
/// the width, `]`.
pub open spec fn bar_text(inner_w: nat, filled: nat, total: nat) -> Seq<char> {
    let w = bar_width(inner_w);
    let k = full_blocks(w, filled, total);
    let light: nat = if k <= w {
        (w - k) as nat
    } else {
        0
    };
    seq!['['] + Seq::new(k, |i: int| '█') + Seq::new(light, |i: int| '░') + seq![']']
}

/// Draws the progress bar for a panel line `inner_w` wide (see `bar_text`).
pub fn progress_bar(inner_w: usize, filled: usize, total: usize) -> (r: String)
    requires
        bar_width(inner_w as nat) * filled <= usize::MAX,
    ensures
        r@ == bar_text(inner_w as nat, filled as nat, total as nat),
{
    let w: usize = if inner_w >= 6 {
        inner_w - 2
    } else {
        4
    };
    let d: usize = if total == 0 {
        1
    } else {
        total
    };
    let k: usize = (w * filled) / d;
    let light: usize = if k <= w {
        w - k
    } else {
        0
    };
    let mut s = String::new();
    push_char(&mut s, '[');
    let mut i: usize = 0;
    while i < k
        invariant
            i <= k,
            s@ == seq!['['] + Seq::new(i as nat, |j: int| '█'),
        decreases k - i,
    {
        push_char(&mut s, '█');
        i = i + 1;
        assert(s@ =~= seq!['['] + Seq::new(i as nat, |j: int| '█'));
    }
    let ghost head = s@;
    let mut j: usize = 0;
    while j < light
        invariant
            j <= light,
            s@ == head + Seq::new(j as nat, |x: int| '░'),
        decreases light - j,
    {
        push_char(&mut s, '░');
        j = j + 1;
        assert(s@ =~= head + Seq::new(j as nat, |x: int| '░'));
    }
    push_char(&mut s, ']');
    assert(s@ =~= bar_text(inner_w as nat, filled as nat, total as nat));
    s
}

/// How a digit's remaining count is shown: used up (none or fewer left), running low
/// (three or fewer), or plenty.
#[derive(Debug, Clone, Copy, PartialEq, Eq, Structural)]
pub enum StockLevel {
    Out,
    Low,
    Plenty,
}

/// The level of a remaining count.
pub fn stock_level(remain: i32) -> (r: StockLevel)
    ensures
        r == (if remain <= 0 {
            StockLevel::Out
        } else if remain <= 3 {
            StockLevel::Low
        } else {
            StockLevel::Plenty
        }),
{
    if remain <= 0 {
        StockLevel::Out
    } else if remain <= 3 {
        StockLevel::Low
    } else {
        StockLevel::Plenty
    }
}

/// How an item's count is shown: in stock, missing (none, flagged), or free to use
/// (none, but the debug mode lets it be used anyway).
#[derive(Debug, Clone, Copy, PartialEq, Eq, Structural)]
pub enum ItemLevel {
    Stocked,
    Missing,
    Free,
}

/// The level of an item's count.
pub fn item_level(count: u32, debug: bool) -> (r: ItemLevel)
    ensures
        r == (if count > 0 {
            ItemLevel::Stocked
        } else if debug {
            ItemLevel::Free
        } else {
            ItemLevel::Missing
        }),
{
    if count > 0 {
        ItemLevel::Stocked
    } else if debug {
        ItemLevel::Free
    } else {
        ItemLevel::Missing
    }
}

/// The arrow of the snake's heading (`?` for no single step).
pub open spec fn heading_arrow(dir: (i8, i8)) -> char {
    if dir == (1i8, 0i8) {
        '→'
    } else if dir == (-1i8, 0i8) {
        '←'
    } else if dir == (0i8, -1i8) {
        '↑'
    } else if dir == (0i8, 1i8) {
        '↓'
    } else {
        '?'
    }
}

/// The arrow of the snake's heading.
pub fn heading(dir: (i8, i8)) -> (r: char)
    ensures
        r == heading_arrow(dir),
{
    if dir.0 == 1 && dir.1 == 0 {
        '→'
    } else if dir.0 == -1 && dir.1 == 0 {
        '←'
    } else if dir.0 == 0 && dir.1 == -1 {
        '↑'
    } else if dir.0 == 0 && dir.1 == 1 {
        '↓'
    } else {
        '?'
    }
}

/// A number's decimal digits, with a leading zero when there is only one.
pub open spec fn two_digits(n: nat) -> Seq<char> {
    if n < 10 {
        seq!['0'] + decimal(n)
    } else {
        decimal(n)
    }
}

/// The clock of `secs` seconds: minutes and seconds, each with at least two digits.
pub open spec fn clock(secs: nat) -> Seq<char> {
    two_digits(secs / 60) + seq![':'] + two_digits(secs % 60)
}

/// The clock of `secs` seconds, `MM:SS` (more digits of minutes past 99).
pub fn clock_text(secs: u64) -> (r: String)
    requires
        secs <= usize::MAX,
    ensures
        r@ == clock(secs as nat),
{
    let m = secs / 60;
    let s = secs % 60;
    let mut r = String::new();
    if m < 10 {
        push_char(&mut r, '0');
    }
    push_decimal(&mut r, m as usize);
    push_char(&mut r, ':');
    if s < 10 {
        push_char(&mut r, '0');
    }
    push_decimal(&mut r, s as usize);
    assert(r@ =~= clock(secs as nat));
    r
}

/// The kind of the `i`-th item of the shop (cube, snake ×3, face, snake ×5, target).
pub open spec fn shop_order(i: int) -> ItemType {
    if i == 0 {
        ItemType::Cube
    } else if i == 1 {
        ItemType::Snake3
    } else if i == 2 {
        ItemType::Face
    } else if i == 3 {
        ItemType::Snake5
    } else {
        ItemType::Target
    }
}

/// A row of the shop panel: an item and its price, how many are held, whether it is the
/// selection of the focused shop, and whether the gold covers its price.
#[derive(Debug, Clone, Copy, PartialEq, Eq, Structural)]
pub struct ShopRow {
    pub item_type: ItemType,
    pub price: i32,
    pub count: u32,
    pub selected: bool,
    pub affordable: bool,
}

/// The row of the `i`-th item of the shop.
pub open spec fn shop_row(i: int, inv: Inventory, gold: i32, selected: usize, focused: bool) -> ShopRow {
    let t = shop_order(i);
    ShopRow {
        item_type: t,
        price: item_price(t),
        count: inv.counts@[item_slot(t)],
        selected: focused && i == selected,
        affordable: gold >= item_price(t),
    }
}

/// The first item of shop page `page`, four items a page.
pub open spec fn page_start(page: nat) -> int {
    (4 * page) as int
}

/// The number of items shown on shop page `page`.
pub open spec fn page_len(page: nat) -> int {
    if page_start(page) >= 5 {
        0
    } else if page_start(page) + 4 <= 5 {
        4
    } else {
        5 - page_start(page)
    }
}

/// The rows of shop page `page`: up to four items from `4 * page` on, in shop order.
pub fn shop_rows(page: u16, selected: usize, focused: bool, gold: i32, inv: &Inventory) -> (r: Vec<ShopRow>)
    ensures
        r@.len() == page_len(page as nat),
        forall|k: int|
            0 <= k < r@.len() ==> #[trigger] r@[k] == shop_row(page_start(page as nat) + k, *inv, gold, selected, focused),
{
    let catalog = shop_catalog();
    let start: usize = 4 * (page as usize);
    let end: usize = if start + 4 <= 5 {
        start + 4
    } else {
        5
    };
    let mut r: Vec<ShopRow> = Vec::new();
    let mut i: usize = start;
    while i < end
        invariant
            catalog@.len() == 5,
            catalog@[0].item_type == ItemType::Cube,
            catalog@[1].item_type == ItemType::Snake3,
            catalog@[2].item_type == ItemType::Face,
            catalog@[3].item_type == ItemType::Snake5,
            catalog@[4].item_type == ItemType::Target,
            forall|j: int| 0 <= j < 5 ==> (#[trigger] catalog@[j]).price == item_price(catalog@[j].item_type),
            start == page_start(page as nat),
            end <= 5,
            start <= end ==> start <= i <= end,
            start > end ==> i == start,
            r@.len() == i - start,
            forall|k: int|
                0 <= k < r@.len() ==> #[trigger] r@[k] == shop_row(start + k, *inv, gold, selected, focused),
        decreases end - i,
    {
        let item = &catalog[i];
        let row = ShopRow {
            item_type: item.item_type,
            price: item.price,
            count: inv.count(item.item_type),
            selected: focused && i == selected,
            affordable: gold >= item.price,
        };
        proof {
            assert(item.item_type == shop_order(i as int));
        }
        r.push(row);
        i = i + 1;
    }
    r
}

} // verus!
