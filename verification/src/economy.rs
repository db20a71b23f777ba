//! Counters of the game screen: how many of each digit remain to be placed, and the gold
//! and items of the player.

use vstd::prelude::*;

use crate::cube::{coord_at_slot, coord_from_slot, CubeCoord};
use crate::grid::{Cell, CubeGrid};
use crate::shop::{item_price, ItemType};
use crate::types::{boundary_count, position_kind, PositionKind};

verus! {

/// How much a placed digit counts: a cell is counted once on every face that shows it
/// (three times at a corner, twice on an edge, once elsewhere).
pub open spec fn weight(x: u8, y: u8, z: u8) -> int {
    if boundary_count(x, y, z) == 3 {
        3
    } else if boundary_count(x, y, z) == 2 {
        2
    } else {
        1
    }
}

fn weight_of(x: u8, y: u8, z: u8) -> (r: i32)
    ensures
        r == weight(x, y, z),
{
    match position_kind(x, y, z) {
        PositionKind::Corner => 3,
        PositionKind::Edge => 2,
        PositionKind::Center => 1,
    }
}

/// The weight of the cells among the first `n` slots whose player value is `d`.
pub open spec fn used_weight(grid: Map<CubeCoord, Cell>, d: u8, n: int) -> int
    decreases n,
{
    if n <= 0 {
        0
    } else {
        let c = coord_at_slot(n - 1);
        used_weight(grid, d, n - 1) + (if grid.dom().contains(c) && grid[c].user_value == Some(d) {
            weight(c.x, c.y, c.z)
        } else {
            0
        })
    }
}

proof fn lemma_used_weight_bounds(grid: Map<CubeCoord, Cell>, d: u8, n: int)
    requires
        0 <= n,
    ensures
        0 <= used_weight(grid, d, n) <= 3 * n,
    decreases n,
{
    if n > 0 {
        lemma_used_weight_bounds(grid, d, n - 1);
    }
}

/// The count of digit `d` (1 to 9) still to place: `total` less the weight of the cells
/// holding it.
pub open spec fn remaining_of(grid: Map<CubeCoord, Cell>, total: i32, d: u8) -> int {
    total - used_weight(grid, d, 729)
}

/// Counts, for every digit 1 to 9, how many remain to be placed on the board.
pub fn recompute_digit_remaining(grid: &CubeGrid, digit_total: i32) -> (r: [i32; 9])
    requires
        grid.wf(),
        digit_total >= i32::MIN + 2187,
    ensures
        forall|i: int| 0 <= i < 9 ==> #[trigger] r@[i] == remaining_of(grid@, digit_total, (i + 1) as u8),
{
    let mut counts: [i32; 9] = [digit_total; 9];
    let mut s: usize = 0;
    while s < 729
        invariant
            grid.wf(),
            digit_total >= i32::MIN + 2187,
            s <= 729,
            forall|i: int| 0 <= i < 9 ==> #[trigger] counts@[i] == digit_total - used_weight(grid@, (i + 1) as u8, s as int),
        decreases 729 - s,
    {
        let c = coord_from_slot(s);
        match grid.get(&c) {
            Some(cell) => {
                match cell.user_value {
                    Some(v) => {
                        if 1 <= v && v <= 9 {
                            let w = weight_of(c.x, c.y, c.z);
                            let idx = (v - 1) as usize;
                            proof {
                                lemma_used_weight_bounds(grid@, v, s as int);
                                assert(counts@[idx as int] == digit_total - used_weight(grid@, v, s as int));
                            }
                            counts[idx] = counts[idx] - w;
                        }
                    },
                    None => {},
                }
            },
            None => {},
        }
        proof {
            assert forall|i: int| 0 <= i < 9 implies #[trigger] counts@[i] == digit_total - used_weight(
                grid@,
                (i + 1) as u8,
                s + 1,
            ) by {
                assert(coord_at_slot(s as int) == c);
            }
        }
        s = s + 1;
    }
    counts
}

/// The change of the digit counts when a cell at `(x, y, z)` goes from `old_value` to
/// `new_value`: the old digit is given back, the new one taken (digits outside 1 to 9 do
/// not count).
pub open spec fn adjusted(rem: Seq<i32>, x: u8, y: u8, z: u8, old_value: Option<u8>, new_value: Option<u8>, i: int) -> int {
    rem[i] + (if old_value matches Some(v) && 1 <= v <= 9 && v - 1 == i {
        weight(x, y, z)
    } else {
        0
    }) - (if new_value matches Some(v) && 1 <= v <= 9 && v - 1 == i {
        weight(x, y, z)
    } else {
        0
    })
}

/// Updates the digit counts for a cell changing from `old_value` to `new_value`.
pub fn adjust_digit_remaining(
    remaining: &mut [i32; 9],
    x: u8,
    y: u8,
    z: u8,
    old_value: Option<u8>,
    new_value: Option<u8>,
)
    requires
        forall|i: int| 0 <= i < 9 ==> i32::MIN + 3 <= #[trigger] old(remaining)@[i] <= i32::MAX - 3,
    ensures
        forall|i: int|
            0 <= i < 9 ==> #[trigger] final(remaining)@[i] == adjusted(old(remaining)@, x, y, z, old_value, new_value, i),
{
    let w = weight_of(x, y, z);
    let ghost r0 = remaining@;
    if let Some(v) = old_value {
        if 1 <= v && v <= 9 {
            let idx = (v - 1) as usize;
            remaining[idx] = remaining[idx] + w;
        }
    }
    let ghost r1 = remaining@;
    if let Some(v) = new_value {
        if 1 <= v && v <= 9 {
            let idx = (v - 1) as usize;
            remaining[idx] = remaining[idx] - w;
        }
    }
}

proof fn lemma_used_weight_update(
    grid: Map<CubeCoord, Cell>,
    c: CubeCoord,
    cell: Cell,
    d: u8,
    n: int,
)
    requires
        c.in_box(),
        grid.dom().contains(c),
        0 <= n <= 729,
    ensures
        used_weight(grid.insert(c, cell), d, n) == used_weight(grid, d, n) + (if c.slot() < n {
            (if cell.user_value == Some(d) {
                weight(c.x, c.y, c.z)
            } else {
                0
            }) - (if grid[c].user_value == Some(d) {
                weight(c.x, c.y, c.z)
            } else {
                0
            })
        } else {
            0
        }),
    decreases n,
{
    if n > 0 {
        lemma_used_weight_update(grid, c, cell, d, n - 1);
        crate::cube::lemma_slot_bijection(c, n - 1);
        if coord_at_slot(n - 1) == c {
        } else {
            assert(c.slot() != n - 1);
        }
    }
}

/// Adjusting the counts for a change of one cell gives the counts of the changed board:
/// the counts kept up move by move agree with counting afresh.
pub proof fn lemma_adjust_matches_recount(
    grid: Map<CubeCoord, Cell>,
    total: i32,
    rem: Seq<i32>,
    c: CubeCoord,
    new_value: Option<u8>,
)
    requires
        c.in_box(),
        grid.dom().contains(c),
        rem.len() == 9,
        forall|i: int| 0 <= i < 9 ==> #[trigger] rem[i] == remaining_of(grid, total, (i + 1) as u8),
    ensures
        forall|i: int|
            0 <= i < 9 ==> #[trigger] adjusted(rem, c.x, c.y, c.z, grid[c].user_value, new_value, i) == remaining_of(
                grid.insert(c, crate::game_state::with_value(grid[c], new_value)),
                total,
                (i + 1) as u8,
            ),
{
    assert forall|i: int| 0 <= i < 9 implies #[trigger] adjusted(rem, c.x, c.y, c.z, grid[c].user_value, new_value, i)
        == remaining_of(grid.insert(c, crate::game_state::with_value(grid[c], new_value)), total, (i + 1) as u8) by {
        crate::cube::lemma_slot_bijection(c, 0);
        lemma_used_weight_update(grid, c, crate::game_state::with_value(grid[c], new_value), (i + 1) as u8, 729);
    }
}

/// The items the player holds, counted by kind.
#[derive(Debug, Clone, Copy)]
pub struct Inventory {
    /// Counts in shop order: cube, snake ×3, face, snake ×5, target.
    pub counts: [u32; 5],
}

/// The slot of an item kind in the inventory.
pub open spec fn item_slot(t: ItemType) -> int {
    match t {
        ItemType::Cube => 0,
        ItemType::Snake3 => 1,
        ItemType::Face => 2,
        ItemType::Snake5 => 3,
        ItemType::Target => 4,
    }
}

fn slot_index(t: ItemType) -> (r: usize)
    ensures
        r == item_slot(t),
{
    match t {
        ItemType::Cube => 0,
        ItemType::Snake3 => 1,
        ItemType::Face => 2,
        ItemType::Snake5 => 3,
        ItemType::Target => 4,
    }
}

impl Inventory {
    /// No items.
    pub fn new() -> (r: Inventory)
        ensures
            forall|i: int| 0 <= i < 5 ==> r.counts@[i] == 0,
    {
        Inventory { counts: [0; 5] }
    }

    /// How many items of kind `t` are held.
    pub fn count(&self, t: ItemType) -> (r: u32)
        ensures
            r == self.counts@[item_slot(t)],
    {
        self.counts[slot_index(t)]
    }
}

/// Buys an item: refused when the gold does not cover its price; otherwise the price is
/// paid and the item added.
pub fn buy_item(gold: &mut i32, inventory: &mut Inventory, item: ItemType) -> (r: bool)
    requires
        old(inventory).counts@[item_slot(item)] < u32::MAX,
    ensures
        r == (*old(gold) >= item_price(item)),
        r ==> *final(gold) == *old(gold) - item_price(item) && final(inventory).counts@ == old(inventory).counts@.update(
            item_slot(item),
            (old(inventory).counts@[item_slot(item)] + 1) as u32,
        ),
        !r ==> *final(gold) == *old(gold) && *final(inventory) == *old(inventory),
{
    let price = item.price();
    if *gold < price {
        return false;
    }
    *gold = *gold - price;
    let i = slot_index(item);
    inventory.counts[i] = inventory.counts[i] + 1;
    true
}

/// Uses up an item: in debug mode it is free; otherwise one held item is taken, and
/// nothing happens when none is held.
pub fn consume_item(debug: bool, inventory: &mut Inventory, item: ItemType) -> (r: bool)
    ensures
        debug ==> r && *final(inventory) == *old(inventory),
        !debug ==> r == (old(inventory).counts@[item_slot(item)] > 0),
        !debug && r ==> final(inventory).counts@ == old(inventory).counts@.update(
            item_slot(item),
            (old(inventory).counts@[item_slot(item)] - 1) as u32,
        ),
        !debug && !r ==> *final(inventory) == *old(inventory),
{
    if debug {
        return true;
    }
    let i = slot_index(item);
    if inventory.counts[i] == 0 {
        return false;
    }
    inventory.counts[i] = inventory.counts[i] - 1;
    true
}

/// Buying an item and then using it leaves the items as they were, less its price in gold.
pub proof fn lemma_buy_then_consume(counts: Seq<u32>, item: ItemType)
    requires
        counts.len() == 5,
        counts[item_slot(item)] < u32::MAX,
    ensures
        ({
            let bought = counts.update(item_slot(item), (counts[item_slot(item)] + 1) as u32);
            bought.update(item_slot(item), (bought[item_slot(item)] - 1) as u32) == counts
        }),
{
    let bought = counts.update(item_slot(item), (counts[item_slot(item)] + 1) as u32);
    assert(bought.update(item_slot(item), (bought[item_slot(item)] - 1) as u32) =~= counts);
}

} // verus!
