//! The start menu: its items, what keys and clicks on it do, and what it tells of the
//! stored games (their progress, and the victories by difficulty).

use vstd::prelude::*;

use crate::codec::GameRecord;
use crate::cube::{coord_at_slot, coord_from_slot, CubeCoord, Difficulty};
use crate::digits::lookup;
use crate::keymap::Action;
use crate::text::str_eq;

verus! {

/// An item of the start menu.
#[derive(Debug, Clone, Copy, PartialEq, Eq, Structural)]
pub enum MenuItem {
    NewGame(Difficulty),
    /// Take up the stored game with this number.
    Continue(i64),
    Settings,
    Export,
    Import,
}

/// The start menu.
pub struct MenuState {
    pub items: Vec<MenuItem>,
    pub selected: usize,
}

/// The items of the menu for the stored games `stored` (each a number and whether it is
/// finished): the three new games, settings, export and import, then the unfinished games.
pub open spec fn menu_items(stored: Seq<(i64, bool)>) -> Seq<MenuItem>
    decreases stored.len(),
{
    if stored.len() == 0 {
        seq![
            MenuItem::NewGame(Difficulty::Easy),
            MenuItem::NewGame(Difficulty::Medium),
            MenuItem::NewGame(Difficulty::Hard),
            MenuItem::Settings,
            MenuItem::Export,
            MenuItem::Import,
        ]
    } else {
        let rest = menu_items(stored.drop_last());
        if stored.last().1 {
            rest
        } else {
            rest.push(MenuItem::Continue(stored.last().0))
        }
    }
}

impl MenuState {
    /// The selection is one of the items.
    pub open spec fn wf(&self) -> bool {
        self.selected < self.items@.len()
    }

    /// The menu for the stored games `stored`, with the first item selected.
    pub fn new(stored: &Vec<(i64, bool)>) -> (r: MenuState)
        ensures
            r.wf(),
            r.items@ == menu_items(stored@),
            r.selected == 0,
    {
        let mut items: Vec<MenuItem> = Vec::new();
        items.push(MenuItem::NewGame(Difficulty::Easy));
        items.push(MenuItem::NewGame(Difficulty::Medium));
        items.push(MenuItem::NewGame(Difficulty::Hard));
        items.push(MenuItem::Settings);
        items.push(MenuItem::Export);
        items.push(MenuItem::Import);
        proof {
            assert(items@ =~= menu_items(stored@.take(0)));
        }
        let mut i: usize = 0;
        while i < stored.len()
            invariant
                i <= stored@.len(),
                items@ == menu_items(stored@.take(i as int)),
                items@.len() >= 6,
            decreases stored@.len() - i,
        {
            let (id, finished) = stored[i];
            proof {
                assert(stored@.take(i + 1).drop_last() =~= stored@.take(i as int));
            }
            if !finished {
                items.push(MenuItem::Continue(id));
            }
            i = i + 1;
        }
        proof {
            assert(stored@.take(stored@.len() as int) =~= stored@);
        }
        MenuState { items, selected: 0 }
    }
}

/// What the client does after a key or click on the menu.
#[derive(Debug, Clone, Copy, PartialEq, Eq, Structural)]
pub enum MenuChoice {
    Stay,
    Quit,
    /// Generate a new game.
    NewGame(Difficulty),
    /// Take up the stored game with this number.
    Continue(i64),
    OpenSettings,
    /// Open the export screen.
    Export,
    /// Open the import screen with an empty buffer.
    Import,
    /// Delete the stored game with this number now.
    Delete(i64),
    /// Ask before deleting the stored game with this number.
    ConfirmDelete(i64),
    /// Copy the stored game with this number to the clipboard.
    ExportGame(i64),
}

/// What choosing `item` does.
pub open spec fn chosen(item: MenuItem) -> MenuChoice {
    match item {
        MenuItem::NewGame(d) => MenuChoice::NewGame(d),
        MenuItem::Continue(id) => MenuChoice::Continue(id),
        MenuItem::Settings => MenuChoice::OpenSettings,
        MenuItem::Export => MenuChoice::Export,
        MenuItem::Import => MenuChoice::Import,
    }
}

fn choose_item(item: MenuItem) -> (r: MenuChoice)
    ensures
        r == chosen(item),
{
    match item {
        MenuItem::NewGame(d) => MenuChoice::NewGame(d),
        MenuItem::Continue(id) => MenuChoice::Continue(id),
        MenuItem::Settings => MenuChoice::OpenSettings,
        MenuItem::Export => MenuChoice::Export,
        MenuItem::Import => MenuChoice::Import,
    }
}

/// What a key does on the menu: quit, move the selection within the items, choose the
/// selected item, delete (at once with Alt, else after asking) or export the selected
/// stored game, or open the import screen.
pub open spec fn menu_keyed(m0: MenuState, m1: MenuState, a: Option<Action>, alt: bool, r: MenuChoice) -> bool {
    let item = m0.items@[m0.selected as int];
    match a {
        Some(Action::Quit) => m1 == m0 && r == MenuChoice::Quit,
        Some(Action::MenuUp) => m1 == MenuState {
            selected: if m0.selected > 0 {
                (m0.selected - 1) as usize
            } else {
                0
            },
            ..m0
        } && r == MenuChoice::Stay,
        Some(Action::MenuDown) => m1 == MenuState {
            selected: if m0.selected + 1 < m0.items@.len() {
                (m0.selected + 1) as usize
            } else {
                m0.selected
            },
            ..m0
        } && r == MenuChoice::Stay,
        Some(Action::MenuSelect) => m1 == m0 && r == chosen(item),
        Some(Action::MenuDelete) => m1 == m0 && r == (match item {
            MenuItem::Continue(id) => if alt {
                MenuChoice::Delete(id)
            } else {
                MenuChoice::ConfirmDelete(id)
            },
            _ => MenuChoice::Stay,
        }),
        Some(Action::MenuExport) => m1 == m0 && r == (match item {
            MenuItem::Continue(id) => MenuChoice::ExportGame(id),
            _ => MenuChoice::Stay,
        }),
        Some(Action::MenuImport) => m1 == m0 && r == MenuChoice::Import,
        _ => m1 == m0 && r == MenuChoice::Stay,
    }
}

/// Selecting a menu entry asks for what the entry names: a new game of the entry's
/// difficulty, the stored game it lists, the settings, export or import.
pub proof fn lemma_select_asks_for_entry(m0: MenuState, m1: MenuState, alt: bool, r: MenuChoice)
    requires
        menu_keyed(m0, m1, Some(Action::MenuSelect), alt, r),
    ensures
        m1 == m0,
        m0.items@[m0.selected as int] matches MenuItem::NewGame(d) ==> r == MenuChoice::NewGame(d),
        m0.items@[m0.selected as int] matches MenuItem::Continue(id) ==> r == MenuChoice::Continue(id),
        m0.items@[m0.selected as int] == MenuItem::Settings ==> r == MenuChoice::OpenSettings,
        m0.items@[m0.selected as int] == MenuItem::Export ==> r == MenuChoice::Export,
        m0.items@[m0.selected as int] == MenuItem::Import ==> r == MenuChoice::Import,
{
}

/// Handles a key on the menu, given the action the key map resolved it to and whether Alt
/// was held.
pub fn handle_menu_key(menu: &mut MenuState, action: Option<Action>, alt: bool) -> (r: MenuChoice)
    requires
        old(menu).wf(),
    ensures
        final(menu).wf(),
        menu_keyed(*old(menu), *final(menu), action, alt, r),
{
    let item = menu.items[menu.selected];
    match action {
        Some(Action::Quit) => MenuChoice::Quit,
        Some(Action::MenuUp) => {
            if menu.selected > 0 {
                menu.selected = menu.selected - 1;
            }
            MenuChoice::Stay
        },
        Some(Action::MenuDown) => {
            assert(menu.selected < menu.items@.len());
            if menu.selected < menu.items.len() - 1 {
                menu.selected = menu.selected + 1;
            }
            MenuChoice::Stay
        },
        Some(Action::MenuSelect) => choose_item(item),
        Some(Action::MenuDelete) => match item {
            MenuItem::Continue(id) => if alt {
                MenuChoice::Delete(id)
            } else {
                MenuChoice::ConfirmDelete(id)
            },
            _ => MenuChoice::Stay,
        },
        Some(Action::MenuExport) => match item {
            MenuItem::Continue(id) => MenuChoice::ExportGame(id),
            _ => MenuChoice::Stay,
        },
        Some(Action::MenuImport) => MenuChoice::Import,
        _ => MenuChoice::Stay,
    }
}

/// The item on row `row` of a screen `height` lines high starting at `top`: the menu is
/// centred below a ten-line logo and a blank line, inside a one-line frame, with the
/// items one a line (rows above the first item count as the first).
pub open spec fn item_row(len: int, top: int, height: int, row: int) -> Option<usize> {
    let total_h = 10 + 1 + len + 2 + 2 + 1;
    let start_y = top + (if height >= total_h {
        height - total_h
    } else {
        0
    }) / 2;
    let first = start_y + 10 + 1 + 1;
    let idx: int = if row >= first {
        row - first
    } else {
        0
    };
    if idx < len {
        Some(idx as usize)
    } else {
        None
    }
}

/// The item under the pointer on row `row` (see `item_row`).
pub fn menu_item_at(menu: &MenuState, row: u16, top: u16, height: u16) -> (r: Option<usize>)
    requires
        menu.items@.len() + 16 <= u16::MAX,
        top + height + 12 <= u16::MAX,
    ensures
        r == item_row(menu.items@.len() as int, top as int, height as int, row as int),
{
    let len = menu.items.len() as u16;
    let total_h: u16 = 10 + 1 + len + 2 + 2 + 1;
    let start_y = top + height.saturating_sub(total_h) / 2;
    let first = start_y + 10 + 1 + 1;
    let idx = row.saturating_sub(first) as usize;
    if idx < menu.items.len() {
        Some(idx)
    } else {
        None
    }
}

/// What the mouse does on the menu: the item under the pointer becomes selected, and a
/// click chooses it.
pub open spec fn menu_moused(m0: MenuState, m1: MenuState, over: Option<usize>, click: bool, r: MenuChoice) -> bool {
    match over {
        Some(i) => m1 == MenuState { selected: i, ..m0 } && r == (if click {
            chosen(m0.items@[i as int])
        } else {
            MenuChoice::Stay
        }),
        None => m1 == m0 && r == MenuChoice::Stay,
    }
}

/// Handles the mouse on the menu: `over` is the item under the pointer, `click` whether the
/// left button went down.
pub fn handle_menu_mouse(menu: &mut MenuState, over: Option<usize>, click: bool) -> (r: MenuChoice)
    requires
        old(menu).wf(),
        over matches Some(i) ==> i < old(menu).items@.len(),
    ensures
        final(menu).wf(),
        menu_moused(*old(menu), *final(menu), over, click, r),
{
    match over {
        Some(i) => {
            menu.selected = i;
            if click {
                choose_item(menu.items[i])
            } else {
                MenuChoice::Stay
            }
        },
        None => MenuChoice::Stay,
    }
}

/// The number of the first `n` slots where `m` has a value that `keep` accepts.
pub open spec fn values_upto(m: Map<CubeCoord, u8>, n: int, keep: spec_fn(u8) -> bool) -> nat
    decreases n,
{
    if n <= 0 {
        0
    } else {
        let c = coord_at_slot(n - 1);
        values_upto(m, n - 1, keep) + (if m.dom().contains(c) && keep(m[c]) {
            1nat
        } else {
            0nat
        })
    }
}

proof fn lemma_values_upto_bound(m: Map<CubeCoord, u8>, n: int, keep: spec_fn(u8) -> bool)
    requires
        0 <= n,
    ensures
        values_upto(m, n, keep) <= n,
    decreases n,
{
    if n > 0 {
        lemma_values_upto_bound(m, n - 1, keep);
    }
}

/// How far a stored game is, as the menu shows it: the cells of its answer and the empty
/// (zero) player values make its total, the non-zero player values are filled, and the
/// rest of the total remains.
pub open spec fn record_totals(r: GameRecord) -> (int, int) {
    let total = values_upto(r.answer@, 729, |v: u8| true) + values_upto(r.puzzle@, 729, |v: u8| v == 0);
    let filled = values_upto(r.puzzle@, 729, |v: u8| v > 0);
    (if total >= filled {
        total - filled
    } else {
        0
    }, total as int)
}

/// The remaining and total cells of a stored game (see `record_totals`).
pub fn record_progress(r: &GameRecord) -> (p: (usize, usize))
    ensures
        (p.0 as int, p.1 as int) == record_totals(*r),
{
    let mut answers: usize = 0;
    let mut zeros: usize = 0;
    let mut filled: usize = 0;
    let mut s: usize = 0;
    while s < 729
        invariant
            s <= 729,
            answers == values_upto(r.answer@, s as int, |v: u8| true),
            zeros == values_upto(r.puzzle@, s as int, |v: u8| v == 0),
            filled == values_upto(r.puzzle@, s as int, |v: u8| v > 0),
            answers <= s,
            zeros <= s,
        decreases 729 - s,
    {
        let c = coord_from_slot(s);
        proof {
            lemma_values_upto_bound(r.answer@, s as int, |v: u8| true);
            lemma_values_upto_bound(r.puzzle@, s as int, |v: u8| v == 0);
            lemma_values_upto_bound(r.puzzle@, s as int, |v: u8| v > 0);
            assert(coord_at_slot(s as int) == c);
        }
        if r.answer.contains_key(&c) {
            answers = answers + 1;
        }
        match r.puzzle.get(&c) {
            Some(v) => {
                if v == 0 {
                    zeros = zeros + 1;
                } else {
                    filled = filled + 1;
                }
            },
            None => {},
        }
        s = s + 1;
    }
    let total = answers + zeros;
    let remaining = total.saturating_sub(filled);
    (remaining, total)
}

/// The difficulty a victory is counted under: "简单" or "easy" is easy, "困难" or "hard" is
/// hard, "中等" or "medium" is medium; other names are counted under none.
pub open spec fn tally_level(name: Seq<char>) -> Option<Difficulty> {
    if name == "简单"@ || name == "easy"@ {
        Some(Difficulty::Easy)
    } else if name == "中等"@ || name == "medium"@ {
        Some(Difficulty::Medium)
    } else if name == "困难"@ || name == "hard"@ {
        Some(Difficulty::Hard)
    } else {
        None
    }
}

/// The number of the first `n` records whose difficulty is counted under `d`.
pub open spec fn wins_at(records: Seq<GameRecord>, n: int, d: Difficulty) -> nat
    decreases n,
{
    if n <= 0 {
        0
    } else {
        wins_at(records, n - 1, d) + (if tally_level(records[n - 1].difficulty@) == Some(d) {
            1nat
        } else {
            0nat
        })
    }
}

proof fn lemma_wins_bound(records: Seq<GameRecord>, n: int, d: Difficulty)
    requires
        0 <= n,
    ensures
        wins_at(records, n, d) <= n,
    decreases n,
{
    if n > 0 {
        lemma_wins_bound(records, n - 1, d);
    }
}

/// The victories by difficulty, as the side bar counts them: easy, medium and hard.
pub fn victory_tally(victories: &[GameRecord]) -> (r: (usize, usize, usize))
    ensures
        r.0 == wins_at(victories@, victories@.len() as int, Difficulty::Easy),
        r.1 == wins_at(victories@, victories@.len() as int, Difficulty::Medium),
        r.2 == wins_at(victories@, victories@.len() as int, Difficulty::Hard),
{
    let mut easy: usize = 0;
    let mut medium: usize = 0;
    let mut hard: usize = 0;
    let mut i: usize = 0;
    while i < victories.len()
        invariant
            i <= victories@.len(),
            easy == wins_at(victories@, i as int, Difficulty::Easy),
            medium == wins_at(victories@, i as int, Difficulty::Medium),
            hard == wins_at(victories@, i as int, Difficulty::Hard),
        decreases victories@.len() - i,
    {
        proof {
            lemma_wins_bound(victories@, i as int, Difficulty::Easy);
            lemma_wins_bound(victories@, i as int, Difficulty::Medium);
            lemma_wins_bound(victories@, i as int, Difficulty::Hard);
        }
        let name = victories[i].difficulty.as_str();
        if str_eq(name, "简单") || str_eq(name, "easy") {
            easy = easy + 1;
        } else if str_eq(name, "中等") || str_eq(name, "medium") {
            medium = medium + 1;
        } else if str_eq(name, "困难") || str_eq(name, "hard") {
            hard = hard + 1;
        }
        i = i + 1;
    }
    (easy, medium, hard)
}

/// The key of the difficulty name a victory is listed with: easy for "简单" or "easy", hard
/// for "困难" or "hard", medium for anything else.
pub fn victory_label_key(name: &str) -> (r: &'static str)
    ensures
        r@ == (if name@ == "简单"@ || name@ == "easy"@ {
            "game.diff_easy"@
        } else if name@ == "困难"@ || name@ == "hard"@ {
            "game.diff_hard"@
        } else {
            "game.diff_medium"@
        }),
{
    if str_eq(name, "简单") || str_eq(name, "easy") {
        "game.diff_easy"
    } else if str_eq(name, "困难") || str_eq(name, "hard") {
        "game.diff_hard"
    } else {
        "game.diff_medium"
    }
}

} // verus!
