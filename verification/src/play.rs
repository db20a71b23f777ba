//! The game screen's decisions: what an action of the player (a key, a button, a click)
//! does to the game, the cursor, the shop and the snake game, and what the client has to
//! do afterwards (show a message, settle a victory, store the gold or the guide switch,
//! leave the screen).

use std::collections::BTreeSet;
use vstd::prelude::*;

use crate::cube::{CubeCoord, Difficulty, Face};
use crate::economy::{adjust_digit_remaining, adjusted, buy_item, consume_item, item_slot, Inventory};
use crate::keymap::Action;
use crate::game_state::{changes, solved, with_value, GameState, MoveRecord};
use crate::grid::Cell;
use crate::render::{mode_cell_height, mode_cell_width, next_mode, ButtonId, PagerAction, RenderMode};
use crate::settings::AppSettings;
use crate::grid::CubeGrid;
use crate::shop::{
    candidate_list, hint_candidate, is_empty_cell, touches_face, item_fruits, item_price, jump_cursor_to, jump_target, random_hint, shop_catalog,
    snake_advanced, snake_move, snake_start, start_snake_game, target_hint, HintOutcome, ItemType, SnakeOutcome,
    SnakeState,
};
use crate::text::str_eq;

verus! {

/// The state of the game screen besides the game: where the player looks, how the board
/// is drawn, the button bar, the digit counts, the purse, the shop and the snake game.
pub struct PlayState {
    pub current_face: Face,
    /// The cursor in the face's local coordinates `(u, v)`.
    pub cursor: (u8, u8),
    pub render_mode: RenderMode,
    /// Whether the guide highlights the board.
    pub guidance: bool,
    /// Whether digits go into the draft marks.
    pub draft_mode: bool,
    /// The page of the button bar.
    pub btn_page: u16,
    pub hover_button: Option<ButtonId>,
    /// How many of each digit are left to place (weighted by the cell's position).
    pub digit_remaining: [i32; 9],
    pub gold: i32,
    pub inventory: Inventory,
    /// The selected item of the shop.
    pub shop_selected: usize,
    pub shop_page: u16,
    pub shop_focused: bool,
    /// The snake game, while one runs.
    pub snake: Option<SnakeState>,
}

/// The settings the game screen reads.
#[derive(Debug, Clone, Copy, PartialEq, Eq, Structural)]
pub struct PlayRules {
    pub debug: bool,
    pub guide_owned: bool,
    pub guide_enabled: bool,
    pub standard_cell_width: usize,
}

impl PlayRules {
    /// The rules that settings give: a switch is on when its setting reads "on".
    pub fn from_settings(settings: &AppSettings) -> (r: PlayRules)
        ensures
            r.debug == (settings.debug_mode@ == "on"@),
            r.guide_owned == (settings.guide_owned@ == "on"@),
            r.guide_enabled == (settings.guide_enabled@ == "on"@),
            r.standard_cell_width == settings.standard_cell_width,
    {
        PlayRules {
            debug: str_eq(settings.debug_mode.as_str(), "on"),
            guide_owned: str_eq(settings.guide_owned.as_str(), "on"),
            guide_enabled: str_eq(settings.guide_enabled.as_str(), "on"),
            standard_cell_width: settings.standard_cell_width,
        }
    }
}

impl PlayState {
    /// The cursor is on the face's grid, the shop selection is an item of the shop, and a
    /// running snake game is well formed.
    pub open spec fn wf(&self) -> bool {
        &&& self.cursor.0 < 9
        &&& self.cursor.1 < 9
        &&& self.shop_selected < 5
        &&& (self.snake matches Some(s) ==> s.wf())
    }

    /// The cell under the cursor.
    pub open spec fn coord(&self) -> CubeCoord {
        self.current_face.cube_at(self.cursor.0, self.cursor.1)
    }

    /// The digit counts can take one more change of a cell without overflow.
    pub open spec fn counts_in_range(&self) -> bool {
        forall|i: int| 0 <= i < 9 ==> i32::MIN + 3 <= #[trigger] self.digit_remaining@[i] <= i32::MAX - 3
    }
}

impl PlayState {
    /// The screen as a game starts on `grid`: the front face with the cursor in its middle,
    /// standard cells, the guide on, draft mode off, the first button page, the digit counts
    /// of the board out of `digit_total` each, the gold `gold`, no items, the shop closed
    /// and no snake game.
    pub fn start(grid: &CubeGrid, digit_total: i32, gold: i32) -> (r: PlayState)
        requires
            grid.wf(),
            digit_total >= i32::MIN + 2187,
        ensures
            r.wf(),
            r.current_face == Face::Front,
            r.cursor == (4u8, 4u8),
            r.render_mode == RenderMode::Standard,
            r.guidance,
            !r.draft_mode,
            r.btn_page == 0,
            r.hover_button is None,
            forall|i: int| 0 <= i < 9 ==> #[trigger] r.digit_remaining@[i] == crate::economy::remaining_of(grid@, digit_total, (i + 1) as u8),
            r.gold == gold,
            forall|i: int| 0 <= i < 5 ==> #[trigger] r.inventory.counts@[i] == 0,
            r.shop_selected == 0,
            r.shop_page == 0,
            !r.shop_focused,
            r.snake is None,
    {
        PlayState {
            current_face: Face::Front,
            cursor: (4, 4),
            render_mode: RenderMode::Standard,
            guidance: true,
            draft_mode: false,
            btn_page: 0,
            hover_button: None,
            digit_remaining: crate::economy::recompute_digit_remaining(grid, digit_total),
            gold,
            inventory: Inventory::new(),
            shop_selected: 0,
            shop_page: 0,
            shop_focused: false,
            snake: None,
        }
    }
}

/// The cell under the cursor.
pub fn current_coord(play: &PlayState) -> (c: CubeCoord)
    ensures
        c == play.coord(),
{
    play.current_face.to_cube(play.cursor.0, play.cursor.1)
}

/// The digit counts after a cell at `c` went from `old_value` to `new_value`.
pub open spec fn counts_after(rem0: Seq<i32>, rem1: Seq<i32>, c: CubeCoord, old_value: Option<u8>, new_value: Option<u8>) -> bool {
    forall|i: int| 0 <= i < 9 ==> #[trigger] rem1[i] == adjusted(rem0, c.x, c.y, c.z, old_value, new_value, i)
}

/// `g1` is `g0` but for the cell at `c`.
pub open spec fn same_but(g0: Map<CubeCoord, Cell>, g1: Map<CubeCoord, Cell>, c: CubeCoord) -> bool {
    &&& g1.dom() == g0.dom()
    &&& forall|d: CubeCoord| #[trigger] g0.dom().contains(d) && d != c ==> g1[d] == g0[d]
}

/// The player's value of `c`, if the board has the cell.
pub open spec fn value_at(g: Map<CubeCoord, Cell>, c: CubeCoord) -> Option<u8> {
    if g.dom().contains(c) {
        g[c].user_value
    } else {
        None
    }
}

/// `g1` is `g0` with the move `c := value` recorded after the history position, as
/// `set_value` does when it changes the board.
pub open spec fn move_recorded(g0: GameState, g1: GameState, c: CubeCoord, value: Option<u8>) -> bool {
    &&& changes(g0.grid@, c, value) ==> {
        &&& g1.history@ == g0.history@.take(g0.history_index as int).push(MoveRecord { coord: c, old: g0.grid@[c].user_value })
        &&& g1.history_index == g0.history_index + 1
    }
    &&& !changes(g0.grid@, c, value) ==> g1.history == g0.history && g1.history_index == g0.history_index
}

/// What a digit did.
#[derive(Debug, Clone, Copy, PartialEq, Eq, Structural)]
pub enum PlaceResult {
    /// Nothing: the cell is given or holds the digit already (or, in draft mode, holds a value).
    Skipped,
    /// In draft mode: the draft mark was toggled.
    Drafted,
    /// The digit was placed.
    Placed,
    /// The digit was placed and solved the puzzle.
    Won,
}

/// `g1` is `g0` but for the board, the history and the completion flag.
pub open spec fn game_frame(g0: GameState, g1: GameState) -> bool {
    g1 == GameState { grid: g1.grid, history: g1.history, history_index: g1.history_index, completed: g1.completed, ..g0 }
}

/// What digit `n` does (see `place_number`).
pub open spec fn number_placed(g0: GameState, p0: PlayState, g1: GameState, p1: PlayState, n: u8, r: PlaceResult) -> bool {
    let c = p0.coord();
    let b0 = g0.grid@;
    let b1 = g1.grid@;
    &&& game_frame(g0, g1)
    &&& p1 == PlayState { digit_remaining: p1.digit_remaining, ..p0 }
    &&& if p0.draft_mode {
        &&& g1.history == g0.history
        &&& g1.history_index == g0.history_index
        &&& g1.completed == g0.completed
        &&& p1.digit_remaining == p0.digit_remaining
        &&& if b0.dom().contains(c) && (b0[c].given || b0[c].user_value is Some) {
            r == PlaceResult::Skipped && b1 == b0
        } else {
            &&& r == PlaceResult::Drafted
            &&& same_but(b0, b1, c)
            &&& b0.dom().contains(c) ==> {
                &&& b1[c].draft@ == (if b0[c].draft@.contains(n) {
                    b0[c].draft@.remove(n)
                } else {
                    b0[c].draft@.insert(n)
                })
                &&& b1[c].draft_visible
                &&& b1[c].answer == b0[c].answer
                &&& b1[c].given == b0[c].given
                &&& b1[c].user_value == b0[c].user_value
            }
        }
    } else if b0.dom().contains(c) && (b0[c].given || b0[c].user_value == Some(n)) {
        &&& r == PlaceResult::Skipped
        &&& b1 == b0
        &&& g1.history == g0.history
        &&& g1.history_index == g0.history_index
        &&& g1.completed == g0.completed
        &&& p1.digit_remaining == p0.digit_remaining
    } else {
        &&& same_but(b0, b1, c)
        &&& b0.dom().contains(c) ==> {
            &&& b1[c].user_value == Some(n)
            &&& b1[c].draft@.is_empty()
            &&& b1[c].draft_visible == b0[c].draft_visible
            &&& b1[c].answer == b0[c].answer
            &&& b1[c].given == b0[c].given
        }
        &&& move_recorded(g0, g1, c, Some(n))
        &&& counts_after(p0.digit_remaining@, p1.digit_remaining@, c, value_at(b0, c), Some(n))
        &&& (r == PlaceResult::Won) == (!g0.completed && solved(b1))
        &&& (r == PlaceResult::Won || r == PlaceResult::Placed)
        &&& g1.completed == (g0.completed || r == PlaceResult::Won)
    }
}

/// What digit `n` does, given the board `b1` it leaves.
pub open spec fn place_result(g0: GameState, p0: PlayState, n: u8, b1: Map<CubeCoord, Cell>) -> PlaceResult {
    let c = p0.coord();
    let b0 = g0.grid@;
    if p0.draft_mode {
        if b0.dom().contains(c) && (b0[c].given || b0[c].user_value is Some) {
            PlaceResult::Skipped
        } else {
            PlaceResult::Drafted
        }
    } else if b0.dom().contains(c) && (b0[c].given || b0[c].user_value == Some(n)) {
        PlaceResult::Skipped
    } else if !g0.completed && solved(b1) {
        PlaceResult::Won
    } else {
        PlaceResult::Placed
    }
}

/// Places digit `n` in the cell under the cursor, or toggles its draft mark in draft mode.
/// A placed digit clears the cell's draft marks and updates the digit counts (the count
/// is taken even where the board has no cell); the game is checked for completion.
pub fn place_number(game: &mut GameState, play: &mut PlayState, n: u8) -> (r: PlaceResult)
    requires
        old(game).wf(),
        old(game).history_index < usize::MAX,
        old(play).wf(),
        old(play).counts_in_range(),
    ensures
        final(game).wf(),
        final(play).wf(),
        number_placed(*old(game), *old(play), *final(game), *final(play), n, r),
        r == place_result(*old(game), *old(play), n, final(game).grid@),
{
    let c = current_coord(play);
    if play.draft_mode {
        let ghost g0 = game.grid@;
        match game.grid.get_mut(&c) {
            Some(cell) => {
                if cell.given || cell.user_value.is_some() {
                    proof {
                        assert(game.grid@ =~= g0);
                    }
                    return PlaceResult::Skipped;
                }
                cell.toggle_draft(n);
                cell.draft_visible = true;
            },
            None => {},
        }
        proof {
            assert(game.grid@.dom() =~= g0.dom());
        }
        return PlaceResult::Drafted;
    }
    let ghost g0 = game.grid@;
    let previous = match game.grid.get(&c) {
        Some(cell) => {
            if cell.given || cell.user_value == Some(n) {
                return PlaceResult::Skipped;
            }
            cell.user_value
        },
        None => None,
    };
    game.set_value(c, Some(n));
    adjust_digit_remaining(&mut play.digit_remaining, c.x, c.y, c.z, previous, Some(n));
    let ghost g1 = game.grid@;
    match game.grid.get_mut(&c) {
        Some(cell) => {
            cell.draft.clear();
        },
        None => {},
    }
    proof {
        assert(game.grid@.dom() =~= g1.dom());
        assert(g1.dom() =~= g0.dom());
        assert forall|d: CubeCoord| #[trigger] g1.dom().contains(d) implies game.grid@[d].user_value == g1[d].user_value
            && game.grid@[d].answer == g1[d].answer by {
        }
        assert(solved(game.grid@) == solved(g1));
    }
    if game.check_completion() {
        PlaceResult::Won
    } else {
        PlaceResult::Placed
    }
}

/// What erasing does (see `erase_cell`).
pub open spec fn erased(g0: GameState, p0: PlayState, g1: GameState, p1: PlayState) -> bool {
    let c = p0.coord();
    let b0 = g0.grid@;
    let b1 = g1.grid@;
    &&& game_frame(g0, g1)
    &&& g1.completed == g0.completed
    &&& p1 == PlayState { digit_remaining: p1.digit_remaining, ..p0 }
    &&& if b0.dom().contains(c) && !b0[c].given && b0[c].user_value is Some {
        &&& same_but(b0, b1, c)
        &&& b1[c].user_value is None
        &&& b1[c].draft@ == b0[c].draft@
        &&& b1[c].draft_visible == (b0[c].draft_visible || !b0[c].draft@.is_empty())
        &&& b1[c].answer == b0[c].answer
        &&& b1[c].given == b0[c].given
        &&& move_recorded(g0, g1, c, None)
        &&& counts_after(p0.digit_remaining@, p1.digit_remaining@, c, b0[c].user_value, None)
    } else {
        &&& g1.history == g0.history
        &&& g1.history_index == g0.history_index
        &&& p1.digit_remaining == p0.digit_remaining
        &&& if b0.dom().contains(c) && !b0[c].given && !b0[c].draft@.is_empty() {
            &&& same_but(b0, b1, c)
            &&& b1[c].draft@.is_empty()
            &&& b1[c].draft_visible
            &&& b1[c].user_value == b0[c].user_value
            &&& b1[c].answer == b0[c].answer
            &&& b1[c].given == b0[c].given
        } else {
            b1 == b0
        }
    }
}

/// Erases the cell under the cursor unless it is given: a value is removed (the digit
/// counts get it back, and draft marks there show again); a cell without a value loses its
/// draft marks, which show.
pub fn erase_cell(game: &mut GameState, play: &mut PlayState)
    requires
        old(game).wf(),
        old(game).history_index < usize::MAX,
        old(play).wf(),
        old(play).counts_in_range(),
    ensures
        final(game).wf(),
        final(play).wf(),
        erased(*old(game), *old(play), *final(game), *final(play)),
{
    let c = current_coord(play);
    let ghost g0 = game.grid@;
    let (has_value, previous, has_draft) = match game.grid.get(&c) {
        Some(cell) => if !cell.given {
            (cell.user_value.is_some(), cell.user_value, !cell.draft.is_empty())
        } else {
            (false, None, false)
        },
        None => (false, None, false),
    };
    if has_value {
        game.set_value(c, None);
        adjust_digit_remaining(&mut play.digit_remaining, c.x, c.y, c.z, previous, None);
        if has_draft {
            match game.grid.get_mut(&c) {
                Some(cell) => {
                    cell.draft_visible = true;
                },
                None => {},
            }
        }
    } else if has_draft {
        match game.grid.get_mut(&c) {
            Some(cell) => {
                cell.draft.clear();
                cell.draft_visible = true;
            },
            None => {},
        }
    }
    proof {
        assert(game.grid@.dom() =~= g0.dom());
    }
}

/// The message the client shows after an action.
#[derive(Debug, Clone, Copy, PartialEq, Eq, Structural)]
pub enum Notice {
    /// No message.
    Silent,
    /// The name of the render mode switched to.
    Mode(RenderMode),
    /// Cells are too small for draft marks.
    DraftTooSmall,
    DraftOn,
    DraftOff,
    /// The guide is not bought.
    GuideLocked,
    GuideOn,
    GuideOff,
    Hinted,
    Undone,
    /// An item was bought.
    Bought(ItemType),
    /// Not enough gold.
    NoGold,
    /// Debug: this many cells of the face were filled.
    DebugFilled(u32),
    /// Debug: the gold is now this.
    Gold(i32),
    /// The snake game ended, standing so.
    SnakeEnded(SnakeOutcome),
    /// The tool is not held.
    NoTool,
    /// The tool did its work.
    ToolDone(ItemType),
    /// No empty cell for the tool.
    NoEmpty,
    /// No empty cell on the face for the tool.
    NoEmptyFace,
    /// The target cell holds a value.
    NotEmpty,
    /// A snake game started (its clock starts now).
    SnakeStarted,
}

/// Where the client goes after an action.
#[derive(Debug, Clone, Copy, PartialEq, Eq, Structural)]
pub enum Leave {
    /// Stay on the game screen.
    Stay,
    BackToMenu,
    /// Generate a new game of this difficulty.
    NewGame(Difficulty),
}

/// What the client does after an action.
#[derive(Debug, Clone, Copy, PartialEq, Eq, Structural)]
pub struct PlayOutcome {
    pub leave: Leave,
    pub notice: Notice,
    /// The puzzle was solved: settle the victory (reward, victory screen, saving the game).
    pub victory: bool,
    /// The gold changed: store it.
    pub save_gold: bool,
    /// The guide switch changed to this: store it.
    pub guide_enabled: Option<bool>,
}

/// Staying on the screen with a message.
pub open spec fn staying(notice: Notice) -> PlayOutcome {
    PlayOutcome { leave: Leave::Stay, notice, victory: false, save_gold: false, guide_enabled: None }
}

fn stay(notice: Notice) -> (r: PlayOutcome)
    ensures
        r == staying(notice),
{
    PlayOutcome { leave: Leave::Stay, notice, victory: false, save_gold: false, guide_enabled: None }
}

/// The item at position `i` of the shop.
pub open spec fn shop_item(i: int) -> ItemType {
    seq![ItemType::Cube, ItemType::Snake3, ItemType::Face, ItemType::Snake5, ItemType::Target][i]
}

/// The direction a snake key turns to.
pub open spec fn snake_turn(a: Option<Action>) -> Option<(i8, i8)> {
    match a {
        Some(Action::SnakeUp) => Some((0i8, -1i8)),
        Some(Action::SnakeDown) => Some((0i8, 1i8)),
        Some(Action::SnakeLeft) => Some((-1i8, 0i8)),
        Some(Action::SnakeRight) => Some((1i8, 0i8)),
        _ => None,
    }
}

/// What a key does while the snake game runs: a direction key turns the snake unless it
/// would turn it right round; the quit key ends the game; other keys do nothing.
pub open spec fn snake_keyed(p0: PlayState, p1: PlayState, a: Option<Action>, r: PlayOutcome) -> bool {
    let s0 = p0.snake->0;
    match snake_turn(a) {
        Some(d) => {
            let dir = if d.0 + s0.dir.0 == 0 && d.1 + s0.dir.1 == 0 {
                s0.dir
            } else {
                d
            };
            &&& r == staying(Notice::Silent)
            &&& p1 == PlayState { snake: Some(SnakeState { dir, ..s0 }), ..p0 }
        },
        None => if a == Some(Action::SnakeQuit) {
            &&& r == staying(Notice::SnakeEnded(s0.outcome))
            &&& p1 == PlayState { snake: None, ..p0 }
        } else {
            &&& r == staying(Notice::Silent)
            &&& p1 == p0
        },
    }
}

fn snake_key(play: &mut PlayState, action: Option<Action>) -> (r: PlayOutcome)
    requires
        old(play).wf(),
        old(play).snake is Some,
    ensures
        final(play).wf(),
        snake_keyed(*old(play), *final(play), action, r),
{
    let turn: Option<(i8, i8)> = match action {
        Some(Action::SnakeUp) => Some((0, -1)),
        Some(Action::SnakeDown) => Some((0, 1)),
        Some(Action::SnakeLeft) => Some((-1, 0)),
        Some(Action::SnakeRight) => Some((1, 0)),
        _ => None,
    };
    match turn {
        Some(d) => {
            match &mut play.snake {
                Some(snake) => {
                    if !(d.0 + snake.dir.0 == 0 && d.1 + snake.dir.1 == 0) {
                        snake.dir = d;
                    }
                },
                None => {},
            }
            stay(Notice::Silent)
        },
        None => {
            let quit = match action {
                Some(Action::SnakeQuit) => true,
                _ => false,
            };
            if quit {
                let outcome = match &play.snake {
                    Some(snake) => snake.outcome,
                    None => SnakeOutcome::Running,
                };
                play.snake = None;
                stay(Notice::SnakeEnded(outcome))
            } else {
                stay(Notice::Silent)
            }
        },
    }
}

/// What a key does while the shop has the focus: Cancel leaves the shop, Up and Down move
/// the selection round the shop (the page follows it, four items a page), Buy buys the
/// selected item when the gold covers it; other keys do nothing.
pub open spec fn shop_keyed(p0: PlayState, p1: PlayState, a: Option<Action>, r: PlayOutcome) -> bool {
    match a {
        Some(Action::Cancel) => r == staying(Notice::Silent) && p1 == PlayState { shop_focused: false, ..p0 },
        Some(Action::ShopUp) => {
            let sel: usize = if p0.shop_selected == 0 {
                4
            } else {
                (p0.shop_selected - 1) as usize
            };
            r == staying(Notice::Silent) && p1 == PlayState { shop_selected: sel, shop_page: (sel / 4) as u16, ..p0 }
        },
        Some(Action::ShopDown) => {
            let sel: usize = ((p0.shop_selected + 1) % 5) as usize;
            r == staying(Notice::Silent) && p1 == PlayState { shop_selected: sel, shop_page: (sel / 4) as u16, ..p0 }
        },
        Some(Action::ShopBuy) => {
            let item = shop_item(p0.shop_selected as int);
            if p0.gold >= item_price(item) {
                &&& r == PlayOutcome { save_gold: true, ..staying(Notice::Bought(item)) }
                &&& p1 == PlayState { gold: (p0.gold - item_price(item)) as i32, inventory: p1.inventory, ..p0 }
                &&& p1.inventory.counts@ == p0.inventory.counts@.update(
                    item_slot(item),
                    (p0.inventory.counts@[item_slot(item)] + 1) as u32,
                )
            } else {
                r == staying(Notice::NoGold) && p1 == p0
            }
        },
        _ => r == staying(Notice::Silent) && p1 == p0,
    }
}

/// No count of held items is at its limit.
pub open spec fn counts_below_limit(inv: Inventory) -> bool {
    forall|i: int| 0 <= i < 5 ==> #[trigger] inv.counts@[i] < u32::MAX
}

fn shop_key(play: &mut PlayState, action: Option<Action>) -> (r: PlayOutcome)
    requires
        old(play).wf(),
        counts_below_limit(old(play).inventory),
    ensures
        final(play).wf(),
        shop_keyed(*old(play), *final(play), action, r),
{
    match action {
        Some(Action::Cancel) => {
            play.shop_focused = false;
            stay(Notice::Silent)
        },
        Some(Action::ShopUp) => {
            if play.shop_selected == 0 {
                play.shop_selected = 4;
            } else {
                play.shop_selected = play.shop_selected - 1;
            }
            play.shop_page = (play.shop_selected / 4) as u16;
            stay(Notice::Silent)
        },
        Some(Action::ShopDown) => {
            play.shop_selected = (play.shop_selected + 1) % 5;
            play.shop_page = (play.shop_selected / 4) as u16;
            stay(Notice::Silent)
        },
        Some(Action::ShopBuy) => {
            let catalog = shop_catalog();
            let item = catalog[play.shop_selected].item_type;
            proof {
                assert(item == shop_item(old(play).shop_selected as int));
                assert(0 <= item_slot(item) < 5);
                assert(old(play).inventory.counts@[item_slot(item)] < u32::MAX);
            }
            if buy_item(&mut play.gold, &mut play.inventory, item) {
                PlayOutcome { leave: Leave::Stay, notice: Notice::Bought(item), victory: false, save_gold: true, guide_enabled: None }
            } else {
                stay(Notice::NoGold)
            }
        },
        _ => stay(Notice::Silent),
    }
}

/// Whether debug filling puts the answer in `c` of face `face`: a cell of the face without
/// a value, not given, that the solution has.
pub open spec fn face_fill_target(g: GameState, face: Face, c: CubeCoord) -> bool {
    &&& g.grid@.dom().contains(c)
    &&& face.holds(c)
    &&& !g.grid@[c].given
    &&& g.grid@[c].user_value is None
    &&& g.solution@.dom().contains(c)
}

/// How many of the first `k` positions of face `face` (row by row in `u`, then `v`)
/// debug filling fills.
pub open spec fn face_fill_count(g: GameState, face: Face, k: nat) -> nat
    decreases k,
{
    if k == 0 {
        0
    } else {
        let p = (k - 1) as nat;
        face_fill_count(g, face, p) + (if face_fill_target(g, face, face.cube_at((p / 9) as u8, (p % 9) as u8)) {
            1nat
        } else {
            0nat
        })
    }
}

/// `b1` is `b0` with the answer put in every cell that `fill` picks.
pub open spec fn filled_where(b0: Map<CubeCoord, Cell>, b1: Map<CubeCoord, Cell>, sol: Map<CubeCoord, u8>, fill: spec_fn(CubeCoord) -> bool) -> bool {
    &&& b1.dom() == b0.dom()
    &&& forall|c: CubeCoord| #[trigger] b0.dom().contains(c) ==> b1[c] == (if fill(c) {
        crate::game_state::with_value(b0[c], Some(sol[c]))
    } else {
        b0[c]
    })
}

proof fn lemma_face_fill_count_bound(g: GameState, face: Face, k: nat)
    ensures
        face_fill_count(g, face, k) <= k,
    decreases k,
{
    if k > 0 {
        lemma_face_fill_count_bound(g, face, (k - 1) as nat);
    }
}

/// Debug: fills every empty cell of face `face` with its answer, directly (not as moves),
/// and says how many it filled.
pub fn fill_face(game: &mut GameState, face: Face) -> (filled: u32)
    requires
        old(game).wf(),
    ensures
        final(game).wf(),
        *final(game) == (GameState { grid: final(game).grid, ..*old(game) }),
        filled_where(old(game).grid@, final(game).grid@, old(game).solution@, |c: CubeCoord| face_fill_target(*old(game), face, c)),
        filled == face_fill_count(*old(game), face, 81),
{
    let ghost g0 = *game;
    let mut filled: u32 = 0;
    let mut k: u8 = 0;
    while k < 81
        invariant
            game.wf(),
            k <= 81,
            *game == (GameState { grid: game.grid, ..g0 }),
            g0 == *old(game),
            filled == face_fill_count(g0, face, k as nat),
            filled <= k,
            game.grid@.dom() == g0.grid@.dom(),
            forall|c: CubeCoord| #[trigger] g0.grid@.dom().contains(c) ==> game.grid@[c] == (if face_fill_target(g0, face, c)
                && face.local_u(c) * 9 + face.local_v(c) < k {
                crate::game_state::with_value(g0.grid@[c], Some(g0.solution@[c]))
            } else {
                g0.grid@[c]
            }),
        decreases 81 - k,
    {
        let u = k / 9;
        let v = k % 9;
        let c = face.to_cube(u, v);
        proof {
            crate::cube::lemma_cube_at_local(face, u, v);
            assert(face.local_u(c) * 9 + face.local_v(c) == k);
        }
        let answer = game.solution.get(&c);
        let ghost before = game.grid@;
        let mut did = false;
        match game.grid.get_mut(&c) {
            Some(cell) => {
                if !cell.given && cell.user_value.is_none() {
                    match answer {
                        Some(a) => {
                            cell.user_value = Some(a);
                            did = true;
                        },
                        None => {},
                    }
                }
            },
            None => {},
        }
        proof {
            assert(did == face_fill_target(g0, face, c));
            assert forall|d: CubeCoord| #[trigger] g0.grid@.dom().contains(d) implies game.grid@[d] == (if face_fill_target(g0, face, d)
                && face.local_u(d) * 9 + face.local_v(d) < k + 1 {
                crate::game_state::with_value(g0.grid@[d], Some(g0.solution@[d]))
            } else {
                g0.grid@[d]
            }) by {
                if d != c && face.holds(d) && face.local_u(d) * 9 + face.local_v(d) == k {
                    crate::cube::lemma_local_cube_at(face, d);
                    assert(face.local_u(d) == u && face.local_v(d) == v);
                }
            }
            assert(game.grid@.dom() =~= g0.grid@.dom());
        }
        if did {
            filled = filled + 1;
        }
        k = k + 1;
    }
    proof {
        assert forall|c: CubeCoord| #[trigger] g0.grid@.dom().contains(c) && face.holds(c) implies face.local_u(c) * 9 + face.local_v(c) < 81 by {
        }
    }
    filled
}

/// Whether debug winning puts the answer in `c`: a cell without a value, not given, that
/// the solution has.
pub open spec fn empty_fill_target(g: GameState, c: CubeCoord) -> bool {
    &&& g.grid@.dom().contains(c)
    &&& !g.grid@[c].given
    &&& g.grid@[c].user_value is None
    &&& g.solution@.dom().contains(c)
}

/// Debug: fills every empty cell with its answer, each as a move.
pub fn fill_empty_cells(game: &mut GameState)
    requires
        old(game).wf(),
        old(game).history_index + 729 < usize::MAX,
    ensures
        final(game).wf(),
        final(game).history_index <= old(game).history_index + 729,
        crate::game_state::same_setup(*old(game), *final(game)),
        final(game).completed == old(game).completed,
        filled_where(old(game).grid@, final(game).grid@, old(game).solution@, |c: CubeCoord| empty_fill_target(*old(game), c)),
{
    let ghost g0 = *game;
    let mut i: usize = 0;
    while i < 729
        invariant
            game.wf(),
            i <= 729,
            g0 == *old(game),
            game.history_index <= g0.history_index + i,
            g0.history_index + 729 < usize::MAX,
            crate::game_state::same_setup(g0, *game),
            game.completed == g0.completed,
            game.grid@.dom() == g0.grid@.dom(),
            forall|c: CubeCoord| #[trigger] g0.grid@.dom().contains(c) ==> game.grid@[c] == (if empty_fill_target(g0, c) && c.slot() < i {
                crate::game_state::with_value(g0.grid@[c], Some(g0.solution@[c]))
            } else {
                g0.grid@[c]
            }),
        decreases 729 - i,
    {
        let c = crate::cube::coord_from_slot(i);
        let empty = match game.grid.get(&c) {
            Some(cell) => !cell.given && cell.user_value.is_none(),
            None => false,
        };
        if empty {
            match game.solution.get(&c) {
                Some(a) => {
                    game.set_value(c, Some(a));
                },
                None => {},
            }
        }
        proof {
            assert forall|d: CubeCoord| #[trigger] g0.grid@.dom().contains(d) implies game.grid@[d] == (if empty_fill_target(g0, d) && d.slot() < i + 1 {
                crate::game_state::with_value(g0.grid@[d], Some(g0.solution@[d]))
            } else {
                g0.grid@[d]
            }) by {
                crate::cube::lemma_slot_bijection(d, i as int);
                if d != c {
                    assert(d.slot() != i);
                }
            }
            assert(game.grid@.dom() =~= g0.grid@.dom());
        }
        i = i + 1;
    }
    proof {
        assert forall|c: CubeCoord| #[trigger] g0.grid@.dom().contains(c) implies c.slot() < 729 by {
            crate::cube::lemma_slot_bijection(c, 0);
        }
    }
}

/// Whether cells drawn in `mode` are too small for draft marks.
pub open spec fn draft_too_small(mode: RenderMode, rules: PlayRules) -> bool {
    mode_cell_width(mode, rules.standard_cell_width) < 3 || mode_cell_height(mode) < 3
}

/// The next render mode; draft mode ends when its cells are too small for draft marks.
pub open spec fn mode_toggled(p0: PlayState, p1: PlayState, rules: PlayRules) -> bool {
    let m = next_mode(p0.render_mode);
    p1 == PlayState { render_mode: m, draft_mode: p0.draft_mode && !draft_too_small(m, rules), ..p0 }
}

/// `g1` is `g0` with the cell under the cursor of `p1` selected.
pub open spec fn selected_at(g0: GameState, g1: GameState, p1: PlayState) -> bool {
    g1 == GameState { selected: Some(p1.coord()), ..g0 }
}

/// The puzzle was solved: settle the victory.
pub open spec fn winning() -> PlayOutcome {
    PlayOutcome { victory: true, ..staying(Notice::Silent) }
}

/// What a hint does to the game (see `GameState::hint`).
pub open spec fn hinted(g0: GameState, g1: GameState) -> bool {
    &&& crate::game_state::same_setup(g0, g1)
    &&& g1.completed == g0.completed
    &&& match crate::game_state::hint_target(g0) {
        Some((c, answer)) => if changes(g0.grid@, c, Some(answer)) {
            &&& g1.grid@ == g0.grid@.insert(c, crate::game_state::with_value(g0.grid@[c], Some(answer)))
            &&& g1.history@ == g0.history@.take(g0.history_index as int).push(
                MoveRecord { coord: c, old: g0.grid@[c].user_value },
            )
            &&& g1.history_index == g0.history_index + 1
        } else {
            &&& g1.grid@ == g0.grid@
            &&& g1.history == g0.history
            &&& g1.history_index == g0.history_index
        },
        None => {
            &&& g1.grid@ == g0.grid@
            &&& g1.history == g0.history
            &&& g1.history_index == g0.history_index
        },
    }
}

/// What undoing does to the game (see `GameState::undo`).
pub open spec fn undone(g0: GameState, g1: GameState) -> bool {
    &&& crate::game_state::same_setup(g0, g1)
    &&& g1.completed == g0.completed
    &&& g1.history == g0.history
    &&& g0.history_index == 0 ==> g1.grid@ == g0.grid@ && g1.history_index == 0
    &&& g0.history_index > 0 ==> {
        let record = g0.history@[g0.history_index - 1];
        &&& g1.history_index == g0.history_index - 1
        &&& g1.grid@ == (if g0.grid@.dom().contains(record.coord) {
            g0.grid@.insert(record.coord, crate::game_state::with_value(g0.grid@[record.coord], record.old))
        } else {
            g0.grid@
        })
    }
}

/// The cursor after a step `(dx, dy)` across the surface.
pub open spec fn cursor_moved(p0: PlayState, p1: PlayState, dx: int, dy: int) -> bool {
    let st = crate::navigation::surface_step(p0.current_face, p0.cursor.0 as int, p0.cursor.1 as int, dx, dy);
    p1 == PlayState { current_face: st.0, cursor: (st.1.0 as u8, st.1.1 as u8), ..p0 }
}

/// The step of a cursor key.
pub open spec fn cursor_step(a: Option<Action>) -> Option<(int, int)> {
    match a {
        Some(Action::CursorUp) => Some((0int, -1int)),
        Some(Action::CursorLeft) => Some((-1int, 0int)),
        Some(Action::CursorDown) => Some((0int, 1int)),
        Some(Action::CursorRight) => Some((1int, 0int)),
        _ => None,
    }
}

/// The direction of a face-switching key.
pub open spec fn face_step(a: Option<Action>) -> Option<(int, int)> {
    match a {
        Some(Action::FaceUp) => Some((0int, -1int)),
        Some(Action::FaceDown) => Some((0int, 1int)),
        Some(Action::FaceLeft) => Some((-1int, 0int)),
        Some(Action::FaceRight) => Some((1int, 0int)),
        _ => None,
    }
}

/// The face a jump key goes to.
pub open spec fn face_jump(a: Option<Action>) -> Option<Face> {
    match a {
        Some(Action::FaceFront) => Some(Face::Front),
        Some(Action::FaceBack) => Some(Face::Back),
        Some(Action::FaceLeftJump) => Some(Face::Left),
        Some(Action::FaceRightJump) => Some(Face::Right),
        Some(Action::FaceTop) => Some(Face::Top),
        Some(Action::FaceBottom) => Some(Face::Bottom),
        _ => None,
    }
}

/// What an action does on the board when neither the snake game, the shop nor the button
/// pages take it. Most actions end by selecting the cell under the cursor; the ones that
/// leave early say so.
pub open spec fn board_keyed(g0: GameState, p0: PlayState, g1: GameState, p1: PlayState, rules: PlayRules, a: Option<Action>, r: PlayOutcome) -> bool {
    let unchanged = g1 == g0 && p1 == p0;
    if cursor_step(a) is Some {
        let (dx, dy) = cursor_step(a)->0;
        cursor_moved(p0, p1, dx, dy) && selected_at(g0, g1, p1) && r == staying(Notice::Silent)
    } else if face_step(a) is Some {
        let (dx, dy) = face_step(a)->0;
        &&& p1 == PlayState { current_face: crate::navigation::switch_target(p0.current_face, dx, dy), ..p0 }
        &&& selected_at(g0, g1, p1)
        &&& r == staying(Notice::Silent)
    } else if face_jump(a) is Some {
        p1 == PlayState { current_face: face_jump(a)->0, ..p0 } && selected_at(g0, g1, p1) && r == staying(Notice::Silent)
    } else {
        match a {
            Some(Action::Quit) => unchanged && r == PlayOutcome { leave: Leave::BackToMenu, ..staying(Notice::Silent) },
            Some(Action::NewGame) => unchanged && r == PlayOutcome {
                leave: Leave::NewGame(g0.difficulty),
                ..staying(Notice::Silent)
            },
            Some(Action::ToggleMode) => {
                &&& mode_toggled(p0, p1, rules)
                &&& selected_at(g0, g1, p1)
                &&& r == staying(Notice::Mode(next_mode(p0.render_mode)))
            },
            Some(Action::Erase) => {
                &&& erased(g0, p0, GameState { selected: g0.selected, ..g1 }, p1)
                &&& g1.selected == Some(p1.coord())
                &&& r == staying(Notice::Silent)
            },
            Some(Action::ToggleGuidance) => if !rules.guide_owned {
                unchanged && r == staying(Notice::GuideLocked)
            } else {
                let on = !rules.guide_enabled;
                &&& p1 == PlayState { guidance: on, ..p0 }
                &&& selected_at(g0, g1, p1)
                &&& r == PlayOutcome {
                    guide_enabled: Some(on),
                    ..staying(if on {
                        Notice::GuideOn
                    } else {
                        Notice::GuideOff
                    })
                }
            },
            Some(Action::Hint) => {
                let won = !g0.completed && solved(g1.grid@);
                &&& p1 == p0
                &&& hinted(g0, GameState { selected: g0.selected, completed: g0.completed, ..g1 })
                &&& g1.completed == (g0.completed || won)
                &&& if won {
                    g1.selected == g0.selected && r == winning()
                } else {
                    g1.selected == Some(p1.coord()) && r == staying(Notice::Hinted)
                }
            },
            Some(Action::Undo) => {
                &&& p1 == p0
                &&& undone(g0, GameState { selected: g0.selected, ..g1 })
                &&& g1.selected == Some(p1.coord())
                &&& r == staying(Notice::Undone)
            },
            Some(Action::Number(n)) => {
                let pr = place_result(g0, p0, n, g1.grid@);
                &&& number_placed(g0, p0, GameState { selected: g0.selected, ..g1 }, p1, n, pr)
                &&& if pr == PlaceResult::Placed {
                    g1.selected == Some(p1.coord()) && r == staying(Notice::Silent)
                } else {
                    g1.selected == g0.selected && r == (if pr == PlaceResult::Won {
                        winning()
                    } else {
                        staying(Notice::Silent)
                    })
                }
            },
            Some(Action::DebugHintFace) => if rules.debug {
                let won = !g0.completed && solved(g1.grid@);
                &&& p1 == p0
                &&& filled_where(g0.grid@, g1.grid@, g0.solution@, |c: CubeCoord| face_fill_target(g0, p0.current_face, c))
                &&& g1 == GameState { grid: g1.grid, selected: Some(p1.coord()), completed: g0.completed || won, ..g0 }
                &&& r == (if won {
                    winning()
                } else {
                    staying(Notice::DebugFilled(face_fill_count(g0, p0.current_face, 81) as u32))
                })
            } else {
                p1 == p0 && selected_at(g0, g1, p1) && r == staying(Notice::Silent)
            },
            Some(Action::DebugWin) => if rules.debug {
                let won = !g0.completed && solved(g1.grid@);
                &&& p1 == p0
                &&& filled_where(g0.grid@, g1.grid@, g0.solution@, |c: CubeCoord| empty_fill_target(g0, c))
                &&& crate::game_state::same_setup(g0, g1)
                &&& g1.completed == (g0.completed || won)
                &&& r == (if won {
                    winning()
                } else {
                    staying(Notice::Silent)
                })
            } else {
                p1 == p0 && selected_at(g0, g1, p1) && r == staying(Notice::Silent)
            },
            Some(Action::DebugGoldUp) => if rules.debug {
                &&& p1 == PlayState { gold: (p0.gold + 100) as i32, ..p0 }
                &&& selected_at(g0, g1, p1)
                &&& r == PlayOutcome { save_gold: true, ..staying(Notice::Gold(p1.gold)) }
            } else {
                p1 == p0 && selected_at(g0, g1, p1) && r == staying(Notice::Silent)
            },
            Some(Action::DebugGoldDown) => if rules.debug {
                &&& p1 == PlayState { gold: if p0.gold - 50 > 0 { (p0.gold - 50) as i32 } else { 0i32 }, ..p0 }
                &&& selected_at(g0, g1, p1)
                &&& r == PlayOutcome { save_gold: true, ..staying(Notice::Gold(p1.gold)) }
            } else {
                p1 == p0 && selected_at(g0, g1, p1) && r == staying(Notice::Silent)
            },
            _ => p1 == p0 && selected_at(g0, g1, p1) && r == staying(Notice::Silent),
        }
    }
}

/// What the preconditions of an action ask of the state: a well-formed game and play
/// state, room in the history for a move per cell, and digit counts and item counts that
/// can change without overflow.
pub open spec fn actionable(g: GameState, p: PlayState) -> bool {
    &&& g.wf()
    &&& g.history_index + 729 < usize::MAX
    &&& p.wf()
    &&& p.counts_in_range()
    &&& counts_below_limit(p.inventory)
}

/// The debug gold keys can move `gold` without overflow: up by 100, or down by 50.
pub open spec fn gold_fits(gold: i32, action: Option<Action>) -> bool {
    &&& action == Some(Action::DebugGoldUp) ==> gold <= i32::MAX - 100
    &&& action == Some(Action::DebugGoldDown) ==> i32::MIN + 50 <= gold
}

fn select_cursor(game: &mut GameState, play: &PlayState)
    ensures
        *final(game) == (GameState { selected: Some(play.coord()), ..*old(game) }),
{
    game.selected = Some(current_coord(play));
}

fn cursor_step_of(a: Option<Action>) -> (r: Option<(i8, i8)>)
    ensures
        r is Some <==> cursor_step(a) is Some,
        r matches Some(d) ==> cursor_step(a) == Some((d.0 as int, d.1 as int)) && -1 <= d.0 <= 1 && -1 <= d.1 <= 1,
{
    match a {
        Some(Action::CursorUp) => Some((0, -1)),
        Some(Action::CursorLeft) => Some((-1, 0)),
        Some(Action::CursorDown) => Some((0, 1)),
        Some(Action::CursorRight) => Some((1, 0)),
        _ => None,
    }
}

fn face_step_of(a: Option<Action>) -> (r: Option<(i8, i8)>)
    ensures
        r is Some <==> face_step(a) is Some,
        r matches Some(d) ==> face_step(a) == Some((d.0 as int, d.1 as int)),
{
    match a {
        Some(Action::FaceUp) => Some((0, -1)),
        Some(Action::FaceDown) => Some((0, 1)),
        Some(Action::FaceLeft) => Some((-1, 0)),
        Some(Action::FaceRight) => Some((1, 0)),
        _ => None,
    }
}

fn face_jump_of(a: Option<Action>) -> (r: Option<Face>)
    ensures
        r == face_jump(a),
{
    match a {
        Some(Action::FaceFront) => Some(Face::Front),
        Some(Action::FaceBack) => Some(Face::Back),
        Some(Action::FaceLeftJump) => Some(Face::Left),
        Some(Action::FaceRightJump) => Some(Face::Right),
        Some(Action::FaceTop) => Some(Face::Top),
        Some(Action::FaceBottom) => Some(Face::Bottom),
        _ => None,
    }
}

fn nav_key(game: &mut GameState, play: &mut PlayState, rules: PlayRules, action: Option<Action>) -> (r: PlayOutcome)
    requires
        actionable(*old(game), *old(play)),
        cursor_step(action) is Some || face_step(action) is Some || face_jump(action) is Some,
    ensures
        final(game).wf(),
        final(play).wf(),
        board_keyed(*old(game), *old(play), *final(game), *final(play), rules, action, r),
{
    if let Some((dx, dy)) = cursor_step_of(action) {
        let (face, cursor) = crate::navigation::move_on_surface(play.current_face, play.cursor, dx, dy);
        proof {
            crate::navigation::lemma_step_lands_on_surface(play.current_face, play.cursor.0 as int, play.cursor.1 as int, dx as int, dy as int);
        }
        play.current_face = face;
        play.cursor = cursor;
        select_cursor(game, play);
        return stay(Notice::Silent);
    }
    if let Some((dx, dy)) = face_step_of(action) {
        play.current_face = crate::navigation::switch_face(play.current_face, dx, dy);
        select_cursor(game, play);
        return stay(Notice::Silent);
    }
    let f = face_jump_of(action).unwrap();
    play.current_face = f;
    select_cursor(game, play);
    stay(Notice::Silent)
}

/// The actions that are not movements, digits or debug keys.
pub open spec fn is_command(a: Option<Action>) -> bool {
    cursor_step(a) is None && face_step(a) is None && face_jump(a) is None && !(a matches Some(Action::Number(_)))
        && a != Some(Action::DebugHintFace) && a != Some(Action::DebugWin) && a != Some(Action::DebugGoldUp) && a
        != Some(Action::DebugGoldDown)
}

#[verifier::rlimit(40)]
fn command_key(game: &mut GameState, play: &mut PlayState, rules: PlayRules, action: Option<Action>) -> (r: PlayOutcome)
    requires
        actionable(*old(game), *old(play)),
        is_command(action),
    ensures
        final(game).wf(),
        final(play).wf(),
        board_keyed(*old(game), *old(play), *final(game), *final(play), rules, action, r),
{
    match action {
        Some(Action::Quit) => {
            PlayOutcome { leave: Leave::BackToMenu, notice: Notice::Silent, victory: false, save_gold: false, guide_enabled: None }
        },
        Some(Action::NewGame) => {
            PlayOutcome {
                leave: Leave::NewGame(game.difficulty),
                notice: Notice::Silent,
                victory: false,
                save_gold: false,
                guide_enabled: None,
            }
        },
        Some(Action::ToggleMode) => {
            let mode = play.render_mode.toggle();
            if play.draft_mode {
                let small = mode.cell_width_for(rules.standard_cell_width) < 3 || mode.cell_height() < 3;
                if small {
                    play.draft_mode = false;
                }
            }
            play.render_mode = mode;
            select_cursor(game, play);
            stay(Notice::Mode(mode))
        },
        Some(Action::Erase) => {
            erase_cell(game, play);
            select_cursor(game, play);
            stay(Notice::Silent)
        },
        Some(Action::ToggleGuidance) => {
            if !rules.guide_owned {
                return stay(Notice::GuideLocked);
            }
            let on = !rules.guide_enabled;
            play.guidance = on;
            select_cursor(game, play);
            PlayOutcome {
                leave: Leave::Stay,
                notice: if on {
                    Notice::GuideOn
                } else {
                    Notice::GuideOff
                },
                victory: false,
                save_gold: false,
                guide_enabled: Some(on),
            }
        },
        Some(Action::Hint) => {
            game.hint();
            if game.check_completion() {
                return winning_outcome();
            }
            select_cursor(game, play);
            stay(Notice::Hinted)
        },
        Some(Action::Undo) => {
            game.undo();
            select_cursor(game, play);
            stay(Notice::Undone)
        },
        _ => {
            select_cursor(game, play);
            stay(Notice::Silent)
        },
    }
}

fn number_key(game: &mut GameState, play: &mut PlayState, rules: PlayRules, action: Option<Action>, n: u8) -> (r: PlayOutcome)
    requires
        actionable(*old(game), *old(play)),
        action == Some(Action::Number(n)),
    ensures
        final(game).wf(),
        final(play).wf(),
        board_keyed(*old(game), *old(play), *final(game), *final(play), rules, action, r),
{
    let pr = place_number(game, play, n);
    match pr {
        PlaceResult::Placed => {
            select_cursor(game, play);
            stay(Notice::Silent)
        },
        PlaceResult::Won => winning_outcome(),
        _ => stay(Notice::Silent),
    }
}

#[verifier::rlimit(40)]
fn debug_key(game: &mut GameState, play: &mut PlayState, rules: PlayRules, action: Option<Action>) -> (r: PlayOutcome)
    requires
        actionable(*old(game), *old(play)),
        gold_fits(old(play).gold, action),
        action == Some(Action::DebugHintFace) || action == Some(Action::DebugWin) || action == Some(Action::DebugGoldUp)
            || action == Some(Action::DebugGoldDown),
    ensures
        final(game).wf(),
        final(play).wf(),
        board_keyed(*old(game), *old(play), *final(game), *final(play), rules, action, r),
{
    if !rules.debug {
        select_cursor(game, play);
        return stay(Notice::Silent);
    }
    match action {
        Some(Action::DebugHintFace) => {
            let filled = fill_face(game, play.current_face);
            let won = game.check_completion();
            select_cursor(game, play);
            if won {
                winning_outcome()
            } else {
                stay(Notice::DebugFilled(filled))
            }
        },
        Some(Action::DebugWin) => {
            fill_empty_cells(game);
            if game.check_completion() {
                winning_outcome()
            } else {
                stay(Notice::Silent)
            }
        },
        Some(Action::DebugGoldUp) => {
            play.gold = play.gold + 100;
            select_cursor(game, play);
            PlayOutcome { leave: Leave::Stay, notice: Notice::Gold(play.gold), victory: false, save_gold: true, guide_enabled: None }
        },
        _ => {
            play.gold = if play.gold - 50 > 0 {
                play.gold - 50
            } else {
                0
            };
            select_cursor(game, play);
            PlayOutcome { leave: Leave::Stay, notice: Notice::Gold(play.gold), victory: false, save_gold: true, guide_enabled: None }
        },
    }
}

fn board_key(game: &mut GameState, play: &mut PlayState, rules: PlayRules, action: Option<Action>) -> (r: PlayOutcome)
    requires
        actionable(*old(game), *old(play)),
        gold_fits(old(play).gold, action),
    ensures
        final(game).wf(),
        final(play).wf(),
        board_keyed(*old(game), *old(play), *final(game), *final(play), rules, action, r),
{
    if cursor_step_of(action).is_some() || face_step_of(action).is_some() || face_jump_of(action).is_some() {
        return nav_key(game, play, rules, action);
    }
    match action {
        Some(Action::Number(n)) => number_key(game, play, rules, action, n),
        Some(Action::DebugHintFace) | Some(Action::DebugWin) | Some(Action::DebugGoldUp) | Some(Action::DebugGoldDown) => {
            debug_key(game, play, rules, action)
        },
        _ => command_key(game, play, rules, action),
    }
}

fn winning_outcome() -> (r: PlayOutcome)
    ensures
        r == winning(),
{
    PlayOutcome { leave: Leave::Stay, notice: Notice::Silent, victory: true, save_gold: false, guide_enabled: None }
}

/// What an action of the keyboard does on the game screen: while the snake game runs it
/// takes every key; then the shop-focus key switches the focus, the shop takes every key
/// while it has the focus, the page keys turn the button bar, and the rest acts on the
/// board (see `board_keyed`).
pub open spec fn game_keyed(g0: GameState, p0: PlayState, g1: GameState, p1: PlayState, rules: PlayRules, a: Option<Action>, r: PlayOutcome) -> bool {
    if p0.snake is Some {
        g1 == g0 && snake_keyed(p0, p1, a, r)
    } else if a == Some(Action::ShopFocus) {
        g1 == g0 && r == staying(Notice::Silent) && p1 == PlayState { shop_focused: !p0.shop_focused, ..p0 }
    } else if p0.shop_focused {
        g1 == g0 && shop_keyed(p0, p1, a, r)
    } else if a == Some(Action::BtnPagePrev) {
        &&& g1 == g0
        &&& r == staying(Notice::Silent)
        &&& p1 == (if p0.btn_page > 0 {
            PlayState { btn_page: (p0.btn_page - 1) as u16, hover_button: None, ..p0 }
        } else {
            p0
        })
    } else if a == Some(Action::BtnPageNext) {
        &&& g1 == g0
        &&& r == staying(Notice::Silent)
        &&& p1 == PlayState {
            btn_page: if p0.btn_page == u16::MAX {
                u16::MAX
            } else {
                (p0.btn_page + 1) as u16
            },
            hover_button: None,
            ..p0
        }
    } else {
        board_keyed(g0, p0, g1, p1, rules, a, r)
    }
}

/// Handles a key on the game screen, given the action the key map resolved it to.
pub fn handle_game_key(game: &mut GameState, play: &mut PlayState, rules: PlayRules, action: Option<Action>) -> (r: PlayOutcome)
    requires
        actionable(*old(game), *old(play)),
        gold_fits(old(play).gold, action),
    ensures
        final(game).wf(),
        final(play).wf(),
        game_keyed(*old(game), *old(play), *final(game), *final(play), rules, action, r),
{
    if play.snake.is_some() {
        return snake_key(play, action);
    }
    if action == Some(Action::ShopFocus) {
        play.shop_focused = !play.shop_focused;
        return stay(Notice::Silent);
    }
    if play.shop_focused {
        return shop_key(play, action);
    }
    if action == Some(Action::BtnPagePrev) {
        if play.btn_page > 0 {
            play.btn_page = play.btn_page - 1;
            play.hover_button = None;
        }
        return stay(Notice::Silent);
    }
    if action == Some(Action::BtnPageNext) {
        play.btn_page = play.btn_page.saturating_add(1);
        play.hover_button = None;
        return stay(Notice::Silent);
    }
    board_key(game, play, rules, action)
}

/// Every cell of the board lies on the surface of the cube.
pub open spec fn board_on_surface(b: Map<CubeCoord, Cell>) -> bool {
    forall|c: CubeCoord| #[trigger] b.dom().contains(c) ==> c.on_surface()
}

/// Whether every cell of the board lies on the surface of the cube.
pub fn on_surface_board(grid: &CubeGrid) -> (r: bool)
    requires
        grid.wf(),
    ensures
        r == board_on_surface(grid@),
{
    let mut i: usize = 0;
    while i < 729
        invariant
            grid.wf(),
            i <= 729,
            forall|c: CubeCoord| #[trigger] grid@.dom().contains(c) && c.slot() < i ==> c.on_surface(),
        decreases 729 - i,
    {
        let c = crate::cube::coord_from_slot(i);
        let present = grid.get(&c).is_some();
        if present && !c.is_surface() {
            return false;
        }
        proof {
            assert forall|d: CubeCoord| #[trigger] grid@.dom().contains(d) && d.slot() < i + 1 implies d.on_surface() by {
                crate::cube::lemma_slot_bijection(d, i as int);
                if d.slot() == i {
                    crate::cube::lemma_slot_injective(c, d);
                }
            }
        }
        i = i + 1;
    }
    proof {
        assert forall|c: CubeCoord| #[trigger] grid@.dom().contains(c) implies c.on_surface() by {
            crate::cube::lemma_slot_bijection(c, 0);
        }
    }
    true
}

/// The held items after using `item`: unchanged in debug mode, one fewer otherwise.
pub open spec fn inventory_used(i0: Inventory, i1: Inventory, item: ItemType, debug: bool) -> bool {
    if debug {
        i1 == i0
    } else {
        i1.counts@ == i0.counts@.update(item_slot(item), (i0.counts@[item_slot(item)] - 1) as u32)
    }
}

/// The cursor shows cell `c`: on the current face when `c` lies on it, else on the first
/// face that holds it.
pub open spec fn cursor_shows(p0: PlayState, p1: PlayState, c: CubeCoord) -> bool {
    match jump_target(c, p0.current_face) {
        Some(fc) => p1.current_face == fc.face && p1.cursor == (fc.u, fc.v),
        None => p1.current_face == p0.current_face && p1.cursor == p0.cursor,
    }
}

/// The game is as it was (its board by its cells).
pub open spec fn same_game(g0: GameState, g1: GameState) -> bool {
    &&& g1.grid@ == g0.grid@
    &&& g1.history == g0.history
    &&& g1.history_index == g0.history_index
    &&& g1.completed == g0.completed
    &&& crate::game_state::same_setup(g0, g1)
}

/// A tool filled cell `c` with its answer, as a move.
pub open spec fn tool_filled(g0: GameState, g1: GameState, c: CubeCoord) -> bool {
    &&& g1.grid@ == g0.grid@.insert(c, crate::game_state::with_value(g0.grid@[c], Some(g0.solution@[c])))
    &&& g1.history@ == g0.history@.take(g0.history_index as int).push(MoveRecord { coord: c, old: None })
    &&& g1.history_index == g0.history_index + 1
    &&& crate::game_state::same_setup(g0, g1)
    &&& g1.completed == (g0.completed || solved(g1.grid@))
}

/// What the tool `item` does once it is paid for (see `use_tool`).
pub open spec fn tool_applied(g0: GameState, p0: PlayState, g1: GameState, p1: PlayState, item: ItemType, pick: u64, r: PlayOutcome) -> bool {
    match item {
        ItemType::Cube | ItemType::Face => {
            let face = if item == ItemType::Cube {
                None
            } else {
                Some(p0.current_face)
            };
            let cands = candidate_list(g0.grid@, face, 729);
            let c = cands[(pick % (cands.len() as u64)) as int];
            if cands.len() > 0 && g0.solution@.dom().contains(c) {
                &&& is_empty_cell(g0.grid@, c)
                &&& tool_filled(g0, g1, c)
                &&& cursor_shows(p0, p1, c)
                &&& counts_after(p0.digit_remaining@, p1.digit_remaining@, c, None, Some(g0.solution@[c]))
                &&& p1 == PlayState { current_face: p1.current_face, cursor: p1.cursor, digit_remaining: p1.digit_remaining, ..p0 }
                &&& r == PlayOutcome { victory: !g0.completed && solved(g1.grid@), ..staying(Notice::ToolDone(item)) }
            } else {
                &&& same_game(g0, g1)
                &&& p1 == p0
                &&& r == staying(if item == ItemType::Cube {
                    Notice::NoEmpty
                } else {
                    Notice::NoEmptyFace
                })
            }
        },
        ItemType::Target => {
            let c = p0.coord();
            if is_empty_cell(g0.grid@, c) && g0.solution@.dom().contains(c) {
                &&& tool_filled(g0, g1, c)
                &&& counts_after(p0.digit_remaining@, p1.digit_remaining@, c, None, Some(g0.solution@[c]))
                &&& p1 == PlayState { digit_remaining: p1.digit_remaining, ..p0 }
                &&& r == PlayOutcome { victory: !g0.completed && solved(g1.grid@), ..staying(Notice::ToolDone(item)) }
            } else {
                &&& same_game(g0, g1)
                &&& p1 == p0
                &&& r == staying(if g0.grid@.dom().contains(c) && !is_empty_cell(g0.grid@, c) {
                    Notice::NotEmpty
                } else {
                    Notice::NoEmpty
                })
            }
        },
        _ => {
            &&& g1 == g0
            &&& if candidate_list(g0.grid@, None, 729).len() == 0 {
                p1 == p0 && r == staying(Notice::NoEmpty)
            } else {
                &&& p1 == PlayState { snake: p1.snake, ..p0 }
                &&& p1.snake matches Some(st) && snake_start(g0.grid@, p0.current_face, item_fruits(item), pick, st)
                &&& r == staying(Notice::SnakeStarted)
            }
        },
    }
}

/// Whether the tool `item` can be used: one is held, or debug mode makes it free.
pub open spec fn tool_usable(p: PlayState, rules: PlayRules, item: ItemType) -> bool {
    rules.debug || p.inventory.counts@[item_slot(item)] > 0
}

/// What using the tool `item` does (see `use_tool`).
pub open spec fn tool_used(g0: GameState, p0: PlayState, g1: GameState, p1: PlayState, rules: PlayRules, item: ItemType, pick: u64, r: PlayOutcome) -> bool {
    if tool_usable(p0, rules, item) {
        &&& inventory_used(p0.inventory, p1.inventory, item, rules.debug)
        &&& tool_applied(g0, PlayState { inventory: p1.inventory, ..p0 }, g1, p1, item, pick, r)
    } else {
        g1 == g0 && p1 == p0 && r == staying(Notice::NoTool)
    }
}

fn add_answer(game: &GameState, play: &mut PlayState, c: CubeCoord)
    requires
        old(play).counts_in_range(),
        game.solution@.dom().contains(c),
    ensures
        *final(play) == (PlayState { digit_remaining: final(play).digit_remaining, ..*old(play) }),
        counts_after(old(play).digit_remaining@, final(play).digit_remaining@, c, None, Some(game.solution@[c])),
{
    let answer = game.solution.get(&c);
    adjust_digit_remaining(&mut play.digit_remaining, c.x, c.y, c.z, None, answer);
}

/// Uses the tool `item` (paid from the held items unless in debug mode; refused when none
/// is held): the cube hint fills a random empty cell and shows it, the face hint a random
/// empty cell touching the current face, the target hint the cell under the cursor, and
/// the snake items start the snake game. `pick` is the client's random number.
pub fn use_tool(game: &mut GameState, play: &mut PlayState, rules: PlayRules, item: ItemType, pick: u64) -> (r: PlayOutcome)
    requires
        actionable(*old(game), *old(play)),
        board_on_surface(old(game).grid@),
    ensures
        final(game).wf(),
        final(play).wf(),
        tool_used(*old(game), *old(play), *final(game), *final(play), rules, item, pick, r),
{
    let count = play.inventory.count(item);
    if count == 0 && !rules.debug {
        return stay(Notice::NoTool);
    }
    let _ = consume_item(rules.debug, &mut play.inventory, item);
    apply_tool(game, play, item, pick)
}

/// Does the work of the tool `item` (see `use_tool`): `pick` is the client's random number.
pub fn apply_tool(game: &mut GameState, play: &mut PlayState, item: ItemType, pick: u64) -> (r: PlayOutcome)
    requires
        actionable(*old(game), *old(play)),
        board_on_surface(old(game).grid@),
    ensures
        final(game).wf(),
        final(play).wf(),
        tool_applied(*old(game), *old(play), *final(game), *final(play), item, pick, r),
{
    match item {
        ItemType::Cube | ItemType::Face => {
            let face = match item {
                ItemType::Cube => None,
                _ => Some(play.current_face),
            };
            match random_hint(game, face, pick) {
                HintOutcome::Filled(c) => {
                    add_answer(game, play, c);
                    match jump_cursor_to(c, play.current_face) {
                        Some(fc) => {
                            play.current_face = fc.face;
                            play.cursor = (fc.u, fc.v);
                        },
                        None => {},
                    }
                    let won = game.check_completion();
                    PlayOutcome { leave: Leave::Stay, notice: Notice::ToolDone(item), victory: won, save_gold: false, guide_enabled: None }
                },
                _ => stay(
                    match item {
                        ItemType::Cube => Notice::NoEmpty,
                        _ => Notice::NoEmptyFace,
                    },
                ),
            }
        },
        ItemType::Target => {
            let c = current_coord(play);
            match target_hint(game, c) {
                HintOutcome::Filled(c) => {
                    add_answer(game, play, c);
                    let won = game.check_completion();
                    PlayOutcome { leave: Leave::Stay, notice: Notice::ToolDone(item), victory: won, save_gold: false, guide_enabled: None }
                },
                HintOutcome::NotEmpty => stay(Notice::NotEmpty),
                HintOutcome::NoEmpty => stay(Notice::NoEmpty),
            }
        },
        _ => {
            match start_snake_game(&game.grid, play.current_face, item.fruit_count(), pick) {
                Some(st) => {
                    play.snake = Some(st);
                    stay(Notice::SnakeStarted)
                },
                None => stay(Notice::NoEmpty),
            }
        },
    }
}

/// The item a tool button uses.
pub open spec fn tool_of(btn: ButtonId) -> ItemType {
    match btn {
        ButtonId::ToolCube => ItemType::Cube,
        ButtonId::ToolSnake3 => ItemType::Snake3,
        ButtonId::ToolSnake5 => ItemType::Snake5,
        ButtonId::ToolFace => ItemType::Face,
        _ => ItemType::Target,
    }
}

/// What a button of the button bar does: the digit, erase, undo, guide, mode and quit
/// buttons act as their keys do; the hint button fills the selected cell without checking
/// for completion; the draft button switches draft mode when cells are large enough; a
/// tool button uses its tool, or selects the cursor's cell when the tool is not held.
pub open spec fn button_pressed(g0: GameState, p0: PlayState, g1: GameState, p1: PlayState, rules: PlayRules, btn: ButtonId, pick: u64, r: PlayOutcome) -> bool {
    match btn {
        ButtonId::Number(n) => board_keyed(g0, p0, g1, p1, rules, Some(Action::Number(n)), r),
        ButtonId::Erase => board_keyed(g0, p0, g1, p1, rules, Some(Action::Erase), r),
        ButtonId::Hint => {
            &&& p1 == p0
            &&& hinted(g0, GameState { selected: g0.selected, ..g1 })
            &&& g1.selected == Some(p1.coord())
            &&& r == staying(Notice::Hinted)
        },
        ButtonId::Undo => board_keyed(g0, p0, g1, p1, rules, Some(Action::Undo), r),
        ButtonId::ToggleGuidance => board_keyed(g0, p0, g1, p1, rules, Some(Action::ToggleGuidance), r),
        ButtonId::ToggleMode => board_keyed(g0, p0, g1, p1, rules, Some(Action::ToggleMode), r),
        ButtonId::ToggleDraft => if draft_too_small(p0.render_mode, rules) {
            g1 == g0 && p1 == p0 && r == staying(Notice::DraftTooSmall)
        } else {
            &&& p1 == PlayState { draft_mode: !p0.draft_mode, ..p0 }
            &&& selected_at(g0, g1, p1)
            &&& r == staying(if p1.draft_mode {
                Notice::DraftOn
            } else {
                Notice::DraftOff
            })
        },
        ButtonId::Quit => board_keyed(g0, p0, g1, p1, rules, Some(Action::Quit), r),
        _ => if tool_usable(p0, rules, tool_of(btn)) {
            tool_used(g0, p0, g1, p1, rules, tool_of(btn), pick, r)
        } else {
            p1 == p0 && selected_at(g0, g1, p1) && r == staying(Notice::NoTool)
        },
    }
}

/// Handles a click on a button of the button bar; `pick` is the client's random number for
/// the tools.
#[verifier::rlimit(40)]
pub fn press_button(game: &mut GameState, play: &mut PlayState, rules: PlayRules, btn: ButtonId, pick: u64) -> (r: PlayOutcome)
    requires
        actionable(*old(game), *old(play)),
        board_on_surface(old(game).grid@),
    ensures
        final(game).wf(),
        final(play).wf(),
        button_pressed(*old(game), *old(play), *final(game), *final(play), rules, btn, pick, r),
{
    match btn {
        ButtonId::Number(n) => number_key(game, play, rules, Some(Action::Number(n)), n),
        ButtonId::Erase => command_key(game, play, rules, Some(Action::Erase)),
        ButtonId::Hint => {
            game.hint();
            select_cursor(game, play);
            stay(Notice::Hinted)
        },
        ButtonId::Undo => command_key(game, play, rules, Some(Action::Undo)),
        ButtonId::ToggleGuidance => command_key(game, play, rules, Some(Action::ToggleGuidance)),
        ButtonId::ToggleMode => command_key(game, play, rules, Some(Action::ToggleMode)),
        ButtonId::ToggleDraft => {
            let mode = play.render_mode;
            if mode.cell_width_for(rules.standard_cell_width) < 3 || mode.cell_height() < 3 {
                return stay(Notice::DraftTooSmall);
            }
            play.draft_mode = !play.draft_mode;
            select_cursor(game, play);
            stay(if play.draft_mode {
                Notice::DraftOn
            } else {
                Notice::DraftOff
            })
        },
        ButtonId::Quit => command_key(game, play, rules, Some(Action::Quit)),
        _ => {
            let item = match btn {
                ButtonId::ToolCube => ItemType::Cube,
                ButtonId::ToolSnake3 => ItemType::Snake3,
                ButtonId::ToolSnake5 => ItemType::Snake5,
                ButtonId::ToolFace => ItemType::Face,
                _ => ItemType::Target,
            };
            let usable = rules.debug || play.inventory.count(item) > 0;
            if usable {
                return use_tool(game, play, rules, item, pick);
            }
            select_cursor(game, play);
            stay(Notice::NoTool)
        },
    }
}

/// Every cell listed as a hint candidate is empty, and touches the face when one is given.
proof fn lemma_candidates_qualify(grid: Map<CubeCoord, Cell>, face: Option<Face>, n: int)
    ensures
        forall|i: int|
            0 <= i < candidate_list(grid, face, n).len() ==> #[trigger] hint_candidate(
                grid,
                face,
                candidate_list(grid, face, n)[i],
            ),
        n >= 0 ==> candidate_list(grid, face, n).len() <= n,
    decreases n,
{
    if n > 0 {
        lemma_candidates_qualify(grid, face, n - 1);
        let rest = candidate_list(grid, face, n - 1);
        let list = candidate_list(grid, face, n);
        assert forall|i: int| 0 <= i < list.len() implies #[trigger] hint_candidate(grid, face, list[i]) by {
            if i < rest.len() {
                assert(list[i] == rest[i]);
                assert(hint_candidate(grid, face, rest[i]));
            }
        }
    }
}

/// Outside debug mode, each tool button spends one item of its own kind and no other: the
/// cube hint the first inventory count, the snake ×3 the second, the face hint the third,
/// the snake ×5 the fourth and the target hint the fifth; with none of its kind held, the
/// button changes nothing and reports that no item is held.
pub proof fn lemma_tool_button_spends_its_item(
    g0: GameState,
    p0: PlayState,
    g1: GameState,
    p1: PlayState,
    rules: PlayRules,
    btn: ButtonId,
    k: int,
    pick: u64,
    r: PlayOutcome,
)
    requires
        button_pressed(g0, p0, g1, p1, rules, btn, pick, r),
        !rules.debug,
        (btn == ButtonId::ToolCube && k == 0) || (btn == ButtonId::ToolSnake3 && k == 1) || (btn
            == ButtonId::ToolFace && k == 2) || (btn == ButtonId::ToolSnake5 && k == 3) || (btn
            == ButtonId::ToolTarget && k == 4),
    ensures
        p0.inventory.counts@[k] > 0 ==> p1.inventory.counts@ == p0.inventory.counts@.update(
            k,
            (p0.inventory.counts@[k] - 1) as u32,
        ),
        p0.inventory.counts@[k] == 0 ==> p1 == p0 && g1.grid@ == g0.grid@ && r.notice == Notice::NoTool,
{
}

/// Outside debug mode, the face-hint button spends a Face item (the third inventory count)
/// and no other: with one held, it takes that one and either fills an empty cell touching
/// the current face with its answer or reports that the face has no empty cell; with none
/// held, it changes nothing and reports that no item is held.
pub proof fn lemma_face_tool_button(
    g0: GameState,
    p0: PlayState,
    g1: GameState,
    p1: PlayState,
    rules: PlayRules,
    pick: u64,
    r: PlayOutcome,
)
    requires
        button_pressed(g0, p0, g1, p1, rules, ButtonId::ToolFace, pick, r),
        !rules.debug,
    ensures
        p0.inventory.counts@[2] > 0 ==> p1.inventory.counts@ == p0.inventory.counts@.update(
            2,
            (p0.inventory.counts@[2] - 1) as u32,
        ),
        p0.inventory.counts@[2] > 0 ==> (r.notice == Notice::ToolDone(ItemType::Face) || (r.notice
            == Notice::NoEmptyFace && g1.grid@ == g0.grid@)),
        r.notice == Notice::ToolDone(ItemType::Face) ==> exists|c: CubeCoord|
            #![trigger g0.grid@.insert(c, with_value(g0.grid@[c], Some(g0.solution@[c])))]
            {
                &&& touches_face(c, p0.current_face)
                &&& is_empty_cell(g0.grid@, c)
                &&& g1.grid@ == g0.grid@.insert(c, with_value(g0.grid@[c], Some(g0.solution@[c])))
            },
        p0.inventory.counts@[2] == 0 ==> p1 == p0 && r.notice == Notice::NoTool,
{
    let cands = candidate_list(g0.grid@, Some(p0.current_face), 729);
    lemma_candidates_qualify(g0.grid@, Some(p0.current_face), 729);
    if cands.len() > 0 {
        assert(cands.len() <= 729);
        let k = (pick % (cands.len() as u64)) as int;
        assert(0 <= k < cands.len());
        assert(hint_candidate(g0.grid@, Some(p0.current_face), cands[k]));
    }
}

/// The button page after a click on the pager: one back (not below the first), or one on
/// (not past the last of `total` pages, at least one).
pub open spec fn paged(cur: u16, total: Option<u16>, a: PagerAction) -> u16 {
    let pages: int = match total {
        Some(t) => if t == 0 {
            1
        } else {
            t as int
        },
        None => 1,
    };
    match a {
        PagerAction::Prev => if cur > 0 {
            (cur - 1) as u16
        } else {
            0
        },
        PagerAction::Next => if cur + 1 < pages - 1 {
            (cur + 1) as u16
        } else {
            (pages - 1) as u16
        },
    }
}

/// Turns the button bar's page after a click on the pager of `total` pages (when the bar
/// has a pager); the hover is cleared.
pub fn apply_pager_action(play: &mut PlayState, total: Option<u16>, action: PagerAction)
    ensures
        *final(play) == (PlayState { btn_page: paged(old(play).btn_page, total, action), hover_button: None, ..*old(play) }),
{
    let pages: u16 = match total {
        Some(t) => if t == 0 {
            1
        } else {
            t
        },
        None => 1,
    };
    let cur = play.btn_page;
    play.btn_page = match action {
        PagerAction::Prev => if cur > 0 {
            cur - 1
        } else {
            0
        },
        PagerAction::Next => if (cur as u32) + 1 < (pages as u32) - 1 {
            cur + 1
        } else {
            pages - 1
        },
    };
    play.hover_button = None;
}

/// What lies under the pointer at a left click, as the layout tells it.
#[derive(Debug, Clone, Copy)]
pub struct ClickTarget {
    /// The shop item under the pointer.
    pub shop_item: Option<usize>,
    /// The pager arrow under the pointer.
    pub pager: Option<PagerAction>,
    /// The button under the pointer.
    pub button: Option<ButtonId>,
    /// The cell of the board under the pointer, in local coordinates.
    pub cell: Option<(u8, u8)>,
}

/// A mouse event on the game screen.
#[derive(Debug, Clone, Copy)]
pub enum MouseInput {
    /// The pointer moved, now over this button.
    Moved(Option<ButtonId>),
    /// A left click.
    Click(ClickTarget),
    /// The wheel turned up (`true`) or down, with Alt held (`true`) or not.
    Scroll(bool, bool),
    /// Anything else.
    Other,
}

/// The targets that a layout reports lie where they can: shop items in the shop, cells
/// on the face's grid.
pub open spec fn click_in_range(m: MouseInput) -> bool {
    m matches MouseInput::Click(t) ==> (t.shop_item matches Some(i) ==> i < 5) && (t.cell matches Some(uv) ==> uv.0 < 9 && uv.1 < 9)
}

/// What a mouse event does: moving sets the hovered button; a click goes to the shop item
/// (selecting and buying it), else the pager, else the button, else moves the cursor to
/// the cell; the wheel turns the faces (round the vertical ring, or with Alt the
/// horizontal one). Except after the shop, the pager and the buttons, the cursor's cell
/// is selected.
pub open spec fn mouse_handled(g0: GameState, p0: PlayState, g1: GameState, p1: PlayState, rules: PlayRules, m: MouseInput, total: Option<u16>, pick: u64, r: PlayOutcome) -> bool {
    match m {
        MouseInput::Moved(h) => p1 == PlayState { hover_button: h, ..p0 } && selected_at(g0, g1, p1) && r == staying(Notice::Silent),
        MouseInput::Click(t) => match t.shop_item {
            Some(i) => {
                let p_sel = PlayState { shop_selected: i, shop_focused: true, ..p0 };
                &&& g1 == g0
                &&& shop_keyed(p_sel, p1, Some(Action::ShopBuy), r)
            },
            None => match t.pager {
                Some(a) => g1 == g0 && r == staying(Notice::Silent) && p1 == PlayState {
                    btn_page: paged(p0.btn_page, total, a),
                    hover_button: None,
                    ..p0
                },
                None => match t.button {
                    Some(b) => button_pressed(g0, p0, g1, p1, rules, b, pick, r),
                    None => {
                        &&& p1 == (match t.cell {
                            Some(uv) => PlayState { cursor: uv, ..p0 },
                            None => p0,
                        })
                        &&& selected_at(g0, g1, p1)
                        &&& r == staying(Notice::Silent)
                    },
                },
            },
        },
        MouseInput::Scroll(up, alt) => {
            &&& p1 == PlayState {
                current_face: if alt {
                    crate::navigation::horizontal_cycle(p0.current_face, up)
                } else {
                    crate::navigation::vertical_cycle(p0.current_face, up)
                },
                ..p0
            }
            &&& selected_at(g0, g1, p1)
            &&& r == staying(Notice::Silent)
        },
        MouseInput::Other => p1 == p0 && selected_at(g0, g1, p1) && r == staying(Notice::Silent),
    }
}

/// Handles a mouse event on the game screen; `total` is the page count of the button
/// bar's pager, if it has one, and `pick` the client's random number for the tools.
pub fn handle_game_mouse(
    game: &mut GameState,
    play: &mut PlayState,
    rules: PlayRules,
    m: MouseInput,
    total: Option<u16>,
    pick: u64,
) -> (r: PlayOutcome)
    requires
        actionable(*old(game), *old(play)),
        board_on_surface(old(game).grid@),
        click_in_range(m),
    ensures
        final(game).wf(),
        final(play).wf(),
        mouse_handled(*old(game), *old(play), *final(game), *final(play), rules, m, total, pick, r),
{
    match m {
        MouseInput::Moved(h) => {
            play.hover_button = h;
        },
        MouseInput::Click(t) => {
            if let Some(i) = t.shop_item {
                play.shop_selected = i;
                play.shop_focused = true;
                return shop_key(play, Some(Action::ShopBuy));
            }
            if let Some(a) = t.pager {
                apply_pager_action(play, total, a);
                return stay(Notice::Silent);
            }
            if let Some(b) = t.button {
                return press_button(game, play, rules, b, pick);
            }
            if let Some(uv) = t.cell {
                play.cursor = uv;
            }
        },
        MouseInput::Scroll(up, alt) => {
            play.current_face = if alt {
                crate::navigation::cycle_face_horizontal(play.current_face, up)
            } else {
                crate::navigation::cycle_face_vertical(play.current_face, up)
            };
        },
        MouseInput::Other => {},
    }
    select_cursor(game, play);
    stay(Notice::Silent)
}

/// What a step of the snake game does: the snake moves (see `SnakeState::advance`);
/// when it moved, the cursor follows its head, and a fruit it ate puts the answer into the
/// cell under it, as a move (the digit counts take it), after which the game is checked
/// for completion.
pub open spec fn snake_steped(g0: GameState, p0: PlayState, g1: GameState, p1: PlayState, timed_out: bool, r: PlayOutcome) -> bool {
    let s0 = p0.snake->0;
    &&& p1.snake matches Some(s1) && snake_advanced(s0, s1, timed_out)
    &&& match snake_move(s0) {
        None => g1 == g0 && p1 == PlayState { snake: p1.snake, ..p0 } && r == staying(Notice::Silent),
        Some(m) => {
            let c = m.head.0.cube_at(m.head.1, m.head.2);
            let fill = m.ate && g0.solution@.dom().contains(c);
            let won = !g0.completed && solved(g1.grid@);
            &&& p1 == PlayState {
                snake: p1.snake,
                current_face: m.head.0,
                cursor: (m.head.1, m.head.2),
                digit_remaining: p1.digit_remaining,
                ..p0
            }
            &&& crate::game_state::same_setup(g0, g1)
            &&& if fill {
                &&& g1.grid@ == (if changes(g0.grid@, c, Some(g0.solution@[c])) {
                    g0.grid@.insert(c, crate::game_state::with_value(g0.grid@[c], Some(g0.solution@[c])))
                } else {
                    g0.grid@
                })
                &&& move_recorded(g0, g1, c, Some(g0.solution@[c]))
                &&& counts_after(p0.digit_remaining@, p1.digit_remaining@, c, None, Some(g0.solution@[c]))
            } else {
                &&& g1.grid@ == g0.grid@
                &&& g1.history == g0.history
                &&& g1.history_index == g0.history_index
                &&& p1.digit_remaining == p0.digit_remaining
            }
            &&& g1.completed == (g0.completed || won)
            &&& r == (if won {
                winning()
            } else {
                staying(Notice::Silent)
            })
        },
    }
}

/// Makes one step of the running snake game; `timed_out` says whether its time is up.
pub fn snake_step(game: &mut GameState, play: &mut PlayState, timed_out: bool) -> (r: PlayOutcome)
    requires
        actionable(*old(game), *old(play)),
        old(play).snake is Some,
    ensures
        final(game).wf(),
        final(play).wf(),
        snake_steped(*old(game), *old(play), *final(game), *final(play), timed_out, r),
{
    let mv = match &mut play.snake {
        Some(snake) => snake.advance(timed_out),
        None => None,
    };
    match mv {
        None => stay(Notice::Silent),
        Some(m) => {
            let (face, u, v) = m.head;
            play.current_face = face;
            play.cursor = (u, v);
            if m.ate {
                let c = face.to_cube(u, v);
                match game.solution.get(&c) {
                    Some(answer) => {
                        game.set_value(c, Some(answer));
                        adjust_digit_remaining(&mut play.digit_remaining, c.x, c.y, c.z, None, Some(answer));
                    },
                    None => {},
                }
            }
            if game.check_completion() {
                winning_outcome()
            } else {
                stay(Notice::Silent)
            }
        },
    }
}

/// In the shop, moving the selection up and then down comes back to the same item (with
/// the page that shows it).
pub proof fn lemma_shop_up_down(p0: PlayState, p1: PlayState, p2: PlayState, r1: PlayOutcome, r2: PlayOutcome)
    requires
        p0.wf(),
        shop_keyed(p0, p1, Some(Action::ShopUp), r1),
        shop_keyed(p1, p2, Some(Action::ShopDown), r2),
    ensures
        p2 == (PlayState { shop_page: (p0.shop_selected / 4) as u16, ..p0 }),
{
}

/// A snake key never turns the snake right round: after it, the direction is not the
/// reverse of the one before, unless it was no direction at all.
pub proof fn lemma_snake_never_reverses(p0: PlayState, p1: PlayState, a: Option<Action>, r: PlayOutcome)
    requires
        p0.snake is Some,
        p0.snake->0.dir != (0i8, 0i8),
        snake_keyed(p0, p1, a, r),
        p1.snake is Some,
    ensures
        !(p1.snake->0.dir.0 + p0.snake->0.dir.0 == 0 && p1.snake->0.dir.1 + p0.snake->0.dir.1 == 0),
{
}

/// Turning the button bar one page on and then one back comes back to the page (short of
/// the last page number), with no button hovered.
pub proof fn lemma_page_next_prev(
    g0: GameState,
    p0: PlayState,
    g1: GameState,
    p1: PlayState,
    g2: GameState,
    p2: PlayState,
    rules: PlayRules,
    r1: PlayOutcome,
    r2: PlayOutcome,
)
    requires
        p0.snake is None,
        !p0.shop_focused,
        p0.btn_page < u16::MAX,
        game_keyed(g0, p0, g1, p1, rules, Some(Action::BtnPageNext), r1),
        game_keyed(g1, p1, g2, p2, rules, Some(Action::BtnPagePrev), r2),
    ensures
        g2 == g0,
        p2 == (PlayState { hover_button: None, ..p0 }),
{
}

/// Placing a digit in an empty cell without draft marks and then erasing it gives back the
/// board (cell by cell, the draft marks by their contents) and the digit counts.
pub proof fn lemma_place_then_erase(
    g0: GameState,
    p0: PlayState,
    g1: GameState,
    p1: PlayState,
    g2: GameState,
    p2: PlayState,
    n: u8,
    r: PlaceResult,
)
    requires
        !p0.draft_mode,
        g0.grid@.dom().contains(p0.coord()),
        !g0.grid@[p0.coord()].given,
        g0.grid@[p0.coord()].user_value is None,
        g0.grid@[p0.coord()].draft@.is_empty(),
        number_placed(g0, p0, g1, p1, n, r),
        erased(g1, p1, g2, p2),
    ensures
        g2.grid@.dom() == g0.grid@.dom(),
        forall|d: CubeCoord| #[trigger] g0.grid@.dom().contains(d) && d != p0.coord() ==> g2.grid@[d] == g0.grid@[d],
        g2.grid@[p0.coord()].user_value == g0.grid@[p0.coord()].user_value,
        g2.grid@[p0.coord()].draft@ == g0.grid@[p0.coord()].draft@,
        g2.grid@[p0.coord()].draft_visible == g0.grid@[p0.coord()].draft_visible,
        g2.grid@[p0.coord()].answer == g0.grid@[p0.coord()].answer,
        g2.grid@[p0.coord()].given == g0.grid@[p0.coord()].given,
        p2 == (PlayState { digit_remaining: p2.digit_remaining, ..p0 }),
        p2.digit_remaining@ == p0.digit_remaining@,
{
    let c = p0.coord();
    assert(p1.coord() == c);
    assert(g1.grid@[c].user_value == Some(n));
    assert forall|i: int| 0 <= i < 9 implies #[trigger] p2.digit_remaining@[i] == p0.digit_remaining@[i] by {
    }
    assert(p2.digit_remaining@ =~= p0.digit_remaining@);
}

/// The label a click on button `b` is logged with (a digit logs where it goes instead).
pub open spec fn button_label(b: ButtonId) -> Seq<char> {
    match b {
        ButtonId::Number(_) => Seq::empty(),
        ButtonId::Erase => "Erase"@,
        ButtonId::Hint => "Hint"@,
        ButtonId::Undo => "Undo"@,
        ButtonId::ToggleGuidance => "Guide"@,
        ButtonId::ToggleMode => "Mode"@,
        ButtonId::ToggleDraft => "Draft"@,
        ButtonId::Quit => "Menu"@,
        ButtonId::ToolCube => "Tool🎲"@,
        ButtonId::ToolSnake3 => "Tool🐍3"@,
        ButtonId::ToolSnake5 => "Tool🐍5"@,
        ButtonId::ToolFace => "Tool🔀"@,
        ButtonId::ToolTarget => "Tool❗"@,
    }
}

/// The log line of a click on button `b` with the cursor at `(u, v)`: a digit logs
/// `Placed n at R<v + 1>C<u + 1>`, any other button its label.
pub open spec fn click_log_line(b: ButtonId, cursor: (u8, u8)) -> Seq<char> {
    match b {
        ButtonId::Number(n) => "Placed "@ + crate::text::decimal(n as nat) + " at R"@ + crate::text::decimal(
            (cursor.1 + 1) as nat,
        ) + "C"@ + crate::text::decimal((cursor.0 + 1) as nat),
        _ => button_label(b),
    }
}

/// The log line of a click on button `b` (see `click_log_line`).
pub fn click_log(b: ButtonId, cursor: (u8, u8)) -> (r: String)
    ensures
        r@ == click_log_line(b, cursor),
{
    match b {
        ButtonId::Number(n) => {
            let mut s = String::from_str("Placed ");
            crate::text::push_decimal(&mut s, n as usize);
            s.append(" at R");
            crate::text::push_decimal(&mut s, cursor.1 as usize + 1);
            s.append("C");
            crate::text::push_decimal(&mut s, cursor.0 as usize + 1);
            s
        },
        ButtonId::Erase => String::from_str("Erase"),
        ButtonId::Hint => String::from_str("Hint"),
        ButtonId::Undo => String::from_str("Undo"),
        ButtonId::ToggleGuidance => String::from_str("Guide"),
        ButtonId::ToggleMode => String::from_str("Mode"),
        ButtonId::ToggleDraft => String::from_str("Draft"),
        ButtonId::Quit => String::from_str("Menu"),
        ButtonId::ToolCube => String::from_str("Tool🎲"),
        ButtonId::ToolSnake3 => String::from_str("Tool🐍3"),
        ButtonId::ToolSnake5 => String::from_str("Tool🐍5"),
        ButtonId::ToolFace => String::from_str("Tool🔀"),
        ButtonId::ToolTarget => String::from_str("Tool❗"),
    }
}

} // verus!
