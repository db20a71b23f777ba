//! The shop: the items, their prices and keys, the hint items acting on a game, and the
//! snake mini game that some items start.

use vstd::prelude::*;

use crate::cube::{coord_at_slot, coord_from_slot, face_coords_of, CubeCoord, Face, FaceCoord};
use crate::digits::lookup;
use crate::game_state::{changes, with_value, GameState};
use crate::grid::{Cell, CubeGrid};

verus! {

/// The items the shop sells.
#[derive(Debug, Clone, Copy, PartialEq, Eq, Hash, Structural)]
pub enum ItemType {
    /// Fills a random empty cell anywhere on the cube.
    Cube,
    /// Starts the snake game with three fruits.
    Snake3,
    /// Fills a random empty cell of the current face.
    Face,
    /// Starts the snake game with five fruits.
    Snake5,
    /// Fills the cell under the cursor.
    Target,
}

/// The price of an item, rising with its strength.
pub open spec fn item_price(t: ItemType) -> i32 {
    match t {
        ItemType::Cube => 10,
        ItemType::Snake3 => 15,
        ItemType::Face => 20,
        ItemType::Snake5 => 30,
        ItemType::Target => 40,
    }
}

/// The number of fruits of a snake item (0 for the others).
pub open spec fn item_fruits(t: ItemType) -> u8 {
    match t {
        ItemType::Snake3 => 3,
        ItemType::Snake5 => 5,
        _ => 0,
    }
}

impl ItemType {
    /// Every item, in shop order.
    pub fn all() -> (r: [ItemType; 5])
        ensures
            r@ == seq![ItemType::Cube, ItemType::Snake3, ItemType::Face, ItemType::Snake5, ItemType::Target],
    {
        let r = [ItemType::Cube, ItemType::Snake3, ItemType::Face, ItemType::Snake5, ItemType::Target];
        assert(r@ =~= seq![ItemType::Cube, ItemType::Snake3, ItemType::Face, ItemType::Snake5, ItemType::Target]);
        r
    }

    /// The price in gold.
    pub fn price(&self) -> (r: i32)
        ensures
            r == item_price(*self),
    {
        match self {
            ItemType::Cube => 10,
            ItemType::Snake3 => 15,
            ItemType::Face => 20,
            ItemType::Snake5 => 30,
            ItemType::Target => 40,
        }
    }

    /// The icon shown for the item.
    pub fn icon(&self) -> (r: &'static str)
        ensures
            r@ == (match *self {
                ItemType::Cube => "🎲"@,
                ItemType::Snake3 => "🐍"@,
                ItemType::Face => "🔀"@,
                ItemType::Snake5 => "🐍"@,
                ItemType::Target => "❗"@,
            }),
    {
        match self {
            ItemType::Cube => "🎲",
            ItemType::Snake3 => "🐍",
            ItemType::Face => "🔀",
            ItemType::Snake5 => "🐍",
            ItemType::Target => "❗",
        }
    }

    /// The short tag shown on the button bar.
    pub fn tag(&self) -> (r: &'static str)
        ensures
            r@ == (match *self {
                ItemType::Cube => "Cb"@,
                ItemType::Snake3 => "S3"@,
                ItemType::Face => "Fc"@,
                ItemType::Snake5 => "S5"@,
                ItemType::Target => "Tg"@,
            }),
    {
        match self {
            ItemType::Cube => "Cb",
            ItemType::Snake3 => "S3",
            ItemType::Face => "Fc",
            ItemType::Snake5 => "S5",
            ItemType::Target => "Tg",
        }
    }

    /// The number of fruits of a snake item.
    pub fn fruit_count(&self) -> (r: u8)
        ensures
            r == item_fruits(*self),
    {
        match self {
            ItemType::Snake3 => 3,
            ItemType::Snake5 => 5,
            _ => 0,
        }
    }

    /// Whether the item starts the snake game.
    pub fn is_snake(&self) -> (r: bool)
        ensures
            r == (*self == ItemType::Snake3 || *self == ItemType::Snake5),
    {
        match self {
            ItemType::Snake3 => true,
            ItemType::Snake5 => true,
            _ => false,
        }
    }

    /// The translation key of the item's name.
    pub fn name_key(&self) -> (r: &'static str)
        ensures
            r@ == (match *self {
                ItemType::Cube => "shop.cube"@,
                ItemType::Snake3 => "shop.snake3"@,
                ItemType::Face => "shop.face"@,
                ItemType::Snake5 => "shop.snake5"@,
                ItemType::Target => "shop.target"@,
            }),
    {
        match self {
            ItemType::Cube => "shop.cube",
            ItemType::Snake3 => "shop.snake3",
            ItemType::Face => "shop.face",
            ItemType::Snake5 => "shop.snake5",
            ItemType::Target => "shop.target",
        }
    }

    /// The translation key of the item's description.
    pub fn desc_key(&self) -> (r: &'static str)
        ensures
            r@ == (match *self {
                ItemType::Cube => "shop.cube_desc"@,
                ItemType::Snake3 => "shop.snake3_desc"@,
                ItemType::Face => "shop.face_desc"@,
                ItemType::Snake5 => "shop.snake5_desc"@,
                ItemType::Target => "shop.target_desc"@,
            }),
    {
        match self {
            ItemType::Cube => "shop.cube_desc",
            ItemType::Snake3 => "shop.snake3_desc",
            ItemType::Face => "shop.face_desc",
            ItemType::Snake5 => "shop.snake5_desc",
            ItemType::Target => "shop.target_desc",
        }
    }
}

/// Fruits exactly for the snake items.
pub proof fn lemma_fruits_iff_snake(t: ItemType)
    ensures
        (item_fruits(t) > 0) <==> (t == ItemType::Snake3 || t == ItemType::Snake5),
{
}

/// An entry of the shop.
#[derive(Debug, Clone, Copy, PartialEq, Eq, Structural)]
pub struct ShopItem {
    pub item_type: ItemType,
    pub price: i32,
}

/// The shop: every item at its price, in shop order.
pub fn shop_catalog() -> (r: Vec<ShopItem>)
    ensures
        r@.len() == 5,
        r@[0].item_type == ItemType::Cube,
        r@[1].item_type == ItemType::Snake3,
        r@[2].item_type == ItemType::Face,
        r@[3].item_type == ItemType::Snake5,
        r@[4].item_type == ItemType::Target,
        forall|i: int| 0 <= i < 5 ==> (#[trigger] r@[i]).price == item_price(r@[i].item_type),
{
    let all = ItemType::all();
    let mut r: Vec<ShopItem> = Vec::new();
    let mut i: usize = 0;
    while i < 5
        invariant
            i <= 5,
            all@ == seq![ItemType::Cube, ItemType::Snake3, ItemType::Face, ItemType::Snake5, ItemType::Target],
            r@.len() == i,
            forall|k: int| 0 <= k < i ==> (#[trigger] r@[k]).item_type == all@[k] && r@[k].price == item_price(all@[k]),
        decreases 5 - i,
    {
        let t = all[i];
        r.push(ShopItem { item_type: t, price: t.price() });
        i = i + 1;
    }
    r
}

/// Whether `c` is an empty cell of the board: present, not given and without a value.
pub open spec fn is_empty_cell(grid: Map<CubeCoord, Cell>, c: CubeCoord) -> bool {
    grid.dom().contains(c) && !grid[c].given && grid[c].user_value is None
}

/// Whether some face-local coordinate of `c` lies on `face`.
pub open spec fn touches_face(c: CubeCoord, face: Face) -> bool {
    exists|i: int| 0 <= i < face_coords_of(c).len() && (#[trigger] face_coords_of(c)[i]).face == face
}

/// Whether `c` is a candidate of a random hint: an empty cell, touching `face` when one
/// is given.
pub open spec fn hint_candidate(grid: Map<CubeCoord, Cell>, face: Option<Face>, c: CubeCoord) -> bool {
    is_empty_cell(grid, c) && match face {
        Some(f) => touches_face(c, f),
        None => true,
    }
}

/// The candidates among the first `n` slots, in slot order.
pub open spec fn candidate_list(grid: Map<CubeCoord, Cell>, face: Option<Face>, n: int) -> Seq<CubeCoord>
    decreases n,
{
    if n <= 0 {
        Seq::empty()
    } else {
        let rest = candidate_list(grid, face, n - 1);
        if hint_candidate(grid, face, coord_at_slot(n - 1)) {
            rest.push(coord_at_slot(n - 1))
        } else {
            rest
        }
    }
}

/// The empty cells of the board, restricted to those touching `face` when one is given, in
/// slot order.
pub fn empty_cells(grid: &CubeGrid, face: Option<Face>) -> (r: Vec<CubeCoord>)
    requires
        grid.wf(),
    ensures
        r@ == candidate_list(grid@, face, 729),
        r@.no_duplicates(),
        forall|c: CubeCoord|
            #[trigger] r@.contains(c) <==> (is_empty_cell(grid@, c) && match face {
                Some(f) => touches_face(c, f),
                None => true,
            }),
{
    let mut r: Vec<CubeCoord> = Vec::new();
    let mut s: usize = 0;
    while s < 729
        invariant
            grid.wf(),
            s <= 729,
            crate::cube::slots_increasing(r@),
            r@ == candidate_list(grid@, face, s as int),
            forall|k: int| 0 <= k < r@.len() ==> (#[trigger] r@[k]).slot() < s && r@[k].in_box(),
            forall|c: CubeCoord|
                #[trigger] r@.contains(c) <==> (c.in_box() && c.slot() < s && is_empty_cell(grid@, c) && match face {
                    Some(f) => touches_face(c, f),
                    None => true,
                }),
        decreases 729 - s,
    {
        let c = coord_from_slot(s);
        let mut keep = match grid.get(&c) {
            Some(cell) => !cell.given && cell.user_value.is_none(),
            None => false,
        };
        if keep {
            if let Some(f) = face {
                let fcs = c.to_face_coords();
                let mut found = false;
                let mut j: usize = 0;
                while j < fcs.len()
                    invariant
                        j <= fcs@.len(),
                        fcs@ == face_coords_of(c),
                        found == (exists|i: int| 0 <= i < j && (#[trigger] fcs@[i]).face == f),
                    decreases fcs@.len() - j,
                {
                    if fcs[j].face == f {
                        found = true;
                    }
                    j = j + 1;
                }
                keep = found;
            }
        }
        let ghost before = r@;
        if keep {
            r.push(c);
        }
        proof {
            assert forall|d: CubeCoord|
                #[trigger] r@.contains(d) <==> (d.in_box() && d.slot() < s + 1 && is_empty_cell(grid@, d) && match face {
                    Some(f) => touches_face(d, f),
                    None => true,
                }) by {
                if keep {
                    crate::cube::lemma_push_contains(before, c, d);
                }
                if d.in_box() && d.slot() == s {
                    crate::cube::lemma_slot_injective(d, c);
                }
            }
        }
        s = s + 1;
    }
    proof {
        crate::cube::lemma_increasing_no_duplicates(r@);
        assert forall|c: CubeCoord| #[trigger] r@.contains(c) <==> (is_empty_cell(grid@, c) && match face {
            Some(f) => touches_face(c, f),
            None => true,
        }) by {
            if is_empty_cell(grid@, c) {
                crate::cube::lemma_slot_bijection(c, 0);
            }
        }
    }
    r
}

/// What a hint item did.
#[derive(Debug, Clone, Copy, PartialEq, Eq, Structural)]
pub enum HintOutcome {
    /// The cell was filled with its answer.
    Filled(CubeCoord),
    /// There was no empty cell to fill.
    NoEmpty,
    /// The target cell already holds a value.
    NotEmpty,
}

/// Fills the empty cell `empties[pick % empties.len()]` with its solution value, as a move
/// (the random hint items; `pick` is the caller's random number).
pub fn random_hint(game: &mut GameState, face: Option<Face>, pick: u64) -> (r: HintOutcome)
    requires
        old(game).wf(),
        old(game).history_index < usize::MAX,
    ensures
        final(game).wf(),
        final(game).solution == old(game).solution,
        crate::game_state::same_setup(*old(game), *final(game)),
        final(game).completed == old(game).completed,
        match r {
            HintOutcome::Filled(c) => {
                &&& final(game).history@ == old(game).history@.take(old(game).history_index as int).push(
                    crate::game_state::MoveRecord { coord: c, old: None },
                )
                &&& final(game).history_index == old(game).history_index + 1
            },
            _ => final(game).history == old(game).history && final(game).history_index == old(game).history_index,
        },
        ({
            let cands = candidate_list(old(game).grid@, face, 729);
            &&& cands.len() == 0 ==> r is NoEmpty
            &&& cands.len() > 0 ==> {
                let c = cands[(pick % (cands.len() as u64)) as int];
                if old(game).solution@.dom().contains(c) {
                    r == HintOutcome::Filled(c)
                } else {
                    r is NoEmpty
                }
            }
        }),
        match r {
            HintOutcome::Filled(c) => {
                &&& is_empty_cell(old(game).grid@, c)
                &&& (match face {
                    Some(f) => touches_face(c, f),
                    None => true,
                })
                &&& old(game).solution@.dom().contains(c)
                &&& final(game).grid@ == old(game).grid@.insert(c, with_value(old(game).grid@[c], Some(old(game).solution@[c])))
            },
            HintOutcome::NoEmpty => final(game).grid@ == old(game).grid@,
            HintOutcome::NotEmpty => false,
        },
        (exists|c: CubeCoord|
            is_empty_cell(old(game).grid@, c) && (match face {
                Some(f) => touches_face(c, f),
                None => true,
            })) && (forall|c: CubeCoord|
            is_empty_cell(old(game).grid@, c) ==> #[trigger] old(game).solution@.dom().contains(c)) ==> r is Filled,
{
    let empties = empty_cells(&game.grid, face);
    if empties.len() == 0 {
        proof {
            assert forall|c: CubeCoord|
                is_empty_cell(old(game).grid@, c) && (match face {
                    Some(f) => touches_face(c, f),
                    None => true,
                }) implies false by {
                assert(empties@.contains(c));
            }
        }
        return HintOutcome::NoEmpty;
    }
    let idx = (pick % (empties.len() as u64)) as usize;
    let c = empties[idx];
    proof {
        assert(empties@.contains(c));
    }
    match game.solution.get(&c) {
        Some(answer) => {
            game.set_value(c, Some(answer));
            HintOutcome::Filled(c)
        },
        None => HintOutcome::NoEmpty,
    }
}

/// Fills the cell `coord` under the cursor with its answer when it is empty.
pub fn target_hint(game: &mut GameState, coord: CubeCoord) -> (r: HintOutcome)
    requires
        old(game).wf(),
        old(game).history_index < usize::MAX,
    ensures
        final(game).wf(),
        final(game).solution == old(game).solution,
        crate::game_state::same_setup(*old(game), *final(game)),
        final(game).completed == old(game).completed,
        match r {
            HintOutcome::Filled(c) => {
                &&& final(game).history@ == old(game).history@.take(old(game).history_index as int).push(
                    crate::game_state::MoveRecord { coord: c, old: None },
                )
                &&& final(game).history_index == old(game).history_index + 1
            },
            _ => final(game).history == old(game).history && final(game).history_index == old(game).history_index,
        },
        !old(game).grid@.dom().contains(coord) ==> r == HintOutcome::NoEmpty && final(game).grid@ == old(game).grid@,
        old(game).grid@.dom().contains(coord) && !is_empty_cell(old(game).grid@, coord) ==> r == HintOutcome::NotEmpty
            && final(game).grid@ == old(game).grid@,
        is_empty_cell(old(game).grid@, coord) ==> (if old(game).solution@.dom().contains(coord) {
            &&& r == HintOutcome::Filled(coord)
            &&& final(game).grid@ == old(game).grid@.insert(coord, with_value(old(game).grid@[coord], Some(old(game).solution@[coord])))
        } else {
            r == HintOutcome::NoEmpty && final(game).grid@ == old(game).grid@
        }),
{
    let (given, empty) = match game.grid.get(&coord) {
        None => {
            return HintOutcome::NoEmpty;
        },
        Some(cell) => (cell.given, cell.user_value.is_none()),
    };
    if given || !empty {
        return HintOutcome::NotEmpty;
    }
    match game.solution.get(&coord) {
        Some(answer) => {
            game.set_value(coord, Some(answer));
            HintOutcome::Filled(coord)
        },
        None => HintOutcome::NoEmpty,
    }
}

/// Where the cursor goes to show `coord`: on the current face when the cell lies on it,
/// else on the first face that holds it.
pub open spec fn jump_target(coord: CubeCoord, current: Face) -> Option<FaceCoord> {
    let fcs = face_coords_of(coord);
    if exists|i: int| 0 <= i < fcs.len() && (#[trigger] fcs[i]).face == current {
        Some(fcs[choose|i: int| 0 <= i < fcs.len() && (#[trigger] fcs[i]).face == current && forall|j: int| 0 <= j < i ==> fcs[j].face != current])
    } else if fcs.len() > 0 {
        Some(fcs[0])
    } else {
        None
    }
}

proof fn lemma_face_coords_on_grid(coord: CubeCoord)
    requires
        coord.in_box(),
    ensures
        forall|i: int| 0 <= i < face_coords_of(coord).len() ==> (#[trigger] face_coords_of(coord)[i]).u < 9
            && face_coords_of(coord)[i].v < 9,
{
    let lx = crate::cube::locals_x(coord);
    let ly = crate::cube::locals_y(coord);
    let lz = crate::cube::locals_z(coord);
    assert(forall|i: int| 0 <= i < lx.len() ==> (#[trigger] lx[i]).u < 9 && lx[i].v < 9);
    assert(forall|i: int| 0 <= i < ly.len() ==> (#[trigger] ly[i]).u < 9 && ly[i].v < 9);
    assert(forall|i: int| 0 <= i < lz.len() ==> (#[trigger] lz[i]).u < 9 && lz[i].v < 9);
    let fcs = face_coords_of(coord);
    assert forall|i: int| 0 <= i < fcs.len() implies (#[trigger] fcs[i]).u < 9 && fcs[i].v < 9 by {
        if i < lx.len() {
            assert(fcs[i] == lx[i]);
        } else if i < lx.len() + ly.len() {
            assert(fcs[i] == ly[i - lx.len()]);
        } else {
            assert(fcs[i] == lz[i - lx.len() - ly.len()]);
        }
    }
}

/// The face and cursor that show `coord` (see `jump_target`).
pub fn jump_cursor_to(coord: CubeCoord, current: Face) -> (r: Option<FaceCoord>)
    ensures
        r == jump_target(coord, current),
        coord.in_box() ==> (r matches Some(fc) ==> fc.u < 9 && fc.v < 9),
{
    let fcs = coord.to_face_coords();
    let mut i: usize = 0;
    while i < fcs.len()
        invariant
            i <= fcs@.len(),
            fcs@ == face_coords_of(coord),
            forall|j: int| 0 <= j < i ==> fcs@[j].face != current,
        decreases fcs@.len() - i,
    {
        if fcs[i].face == current {
            proof {
                let k = choose|k: int| 0 <= k < fcs@.len() && (#[trigger] fcs@[k]).face == current && forall|j: int| 0 <= j < k ==> fcs@[j].face != current;
                if k < i {
                } else if k > i {
                    assert(fcs@[i as int].face == current);
                }
                if coord.in_box() {
                    lemma_face_coords_on_grid(coord);
                }
            }
            return Some(fcs[i]);
        }
        i = i + 1;
    }
    proof {
        if coord.in_box() {
            lemma_face_coords_on_grid(coord);
        }
    }
    if fcs.len() > 0 {
        Some(fcs[0])
    } else {
        None
    }
}

/// A position of the snake game: a face and a local `(u, v)` on it.
pub type SnakePos = (Face, u8, u8);

/// How the snake game stands.
#[derive(Debug, Clone, Copy, PartialEq, Eq, Structural)]
pub enum SnakeOutcome {
    Running,
    Won,
    Lost,
}

/// The snake game on the faces of the cube. (Its clock, the deadline and the pace of
/// steps, is kept by the client.)
pub struct SnakeState {
    /// The segments, head first.
    pub body: Vec<SnakePos>,
    /// The direction of motion in face-local coordinates.
    pub dir: (i8, i8),
    /// The fruits left.
    pub fruits: Vec<SnakePos>,
    /// The walls.
    pub walls: Vec<SnakePos>,
    pub outcome: SnakeOutcome,
    /// The fruits eaten.
    pub score: u32,
    /// The fruits at the start.
    pub total_fruits: u32,
}

/// Whether a position lies on a face's 9×9 grid.
pub open spec fn on_grid(p: SnakePos) -> bool {
    p.1 < 9 && p.2 < 9
}

impl SnakeState {
    /// The body is non-empty and on the grid, the direction is a step of at most one cell,
    /// the fruits are distinct, and eaten plus remaining fruits stay within the total.
    pub open spec fn wf(&self) -> bool {
        &&& self.body@.len() >= 1
        &&& forall|i: int| 0 <= i < self.body@.len() ==> on_grid(#[trigger] self.body@[i])
        &&& -1 <= self.dir.0 <= 1
        &&& -1 <= self.dir.1 <= 1
        &&& self.fruits@.no_duplicates()
        &&& self.score + self.fruits@.len() <= self.total_fruits
        &&& self.total_fruits <= 255
    }

    /// Where the head goes next.
    pub open spec fn next_head(&self) -> SnakePos {
        let h = self.body@[0];
        let (f, (u, v)) = crate::navigation::surface_step(h.0, h.1 as int, h.2 as int, self.dir.0 as int, self.dir.1 as int);
        (f, u as u8, v as u8)
    }
}

/// What a step of the snake did.
#[derive(Debug, Clone, Copy)]
pub struct SnakeMove {
    /// The new head.
    pub head: SnakePos,
    /// Whether a fruit was eaten there.
    pub ate: bool,
}

/// The step the snake makes: none when the game is over or the head would hit a wall or
/// the body; else the new head, and whether a fruit lies there.
pub open spec fn snake_move(s: SnakeState) -> Option<SnakeMove> {
    let new = s.next_head();
    if s.outcome != SnakeOutcome::Running || s.walls@.contains(new) || s.body@.contains(new) {
        None
    } else {
        Some(SnakeMove { head: new, ate: s.fruits@.contains(new) })
    }
}

/// `s1` is snake game `s0` after one step (see `SnakeState::advance`).
pub open spec fn snake_advanced(s0: SnakeState, s1: SnakeState, timed_out: bool) -> bool {
    &&& s1.dir == s0.dir
    &&& s1.walls == s0.walls
    &&& s1.total_fruits == s0.total_fruits
    &&& s0.outcome != SnakeOutcome::Running ==> s1.body == s0.body && s1.fruits == s0.fruits && s1.outcome == s0.outcome
    &&& s0.outcome == SnakeOutcome::Running ==> {
        let new = s0.next_head();
        if s0.walls@.contains(new) || s0.body@.contains(new) {
            &&& s1.outcome == SnakeOutcome::Lost
            &&& s1.body == s0.body
            &&& s1.fruits == s0.fruits
            &&& s1.score == s0.score
        } else {
            let ate = s0.fruits@.contains(new);
            &&& s1.body@ == (if ate {
                seq![new] + s0.body@
            } else {
                (seq![new] + s0.body@).drop_last()
            })
            &&& s1.fruits@.to_set() == s0.fruits@.to_set().remove(new)
            &&& s1.score == s0.score + (if ate {
                1u32
            } else {
                0u32
            })
            &&& s1.outcome == (if timed_out {
                SnakeOutcome::Lost
            } else if ate && s1.fruits@.len() == 0 {
                SnakeOutcome::Won
            } else {
                SnakeOutcome::Running
            })
        }
    }
}

pub(crate) fn find_pos(v: &Vec<SnakePos>, p: SnakePos) -> (r: Option<usize>)
    ensures
        match r {
            Some(i) => i < v@.len() && v@[i as int] == p,
            None => !v@.contains(p),
        },
{
    let mut i: usize = 0;
    while i < v.len()
        invariant
            i <= v@.len(),
            forall|k: int| 0 <= k < i ==> v@[k] != p,
        decreases v@.len() - i,
    {
        let q = v[i];
        if q.0 == p.0 && q.1 == p.1 && q.2 == p.2 {
            return Some(i);
        }
        i = i + 1;
    }
    None
}

impl SnakeState {
    /// Moves the snake one step while it runs: into a wall or into itself it loses;
    /// otherwise the head moves on (across the edge onto the next face when it leaves its
    /// face), a fruit there is eaten and the snake grows, else the tail follows; eating the
    /// last fruit wins, and running out of time (`timed_out`) loses.
    pub fn advance(&mut self, timed_out: bool) -> (r: Option<SnakeMove>)
        requires
            old(self).wf(),
        ensures
            final(self).wf(),
            r == snake_move(*old(self)),
            snake_advanced(*old(self), *final(self), timed_out),
    {
        match self.outcome {
            SnakeOutcome::Running => {},
            _ => {
                return None;
            },
        }
        let head = self.body[0];
        proof {
            assert(on_grid(self.body@[0]));
            crate::navigation::lemma_step_lands_on_surface(head.0, head.1 as int, head.2 as int, self.dir.0 as int, self.dir.1 as int);
        }
        let (new_face, (new_u, new_v)) = crate::navigation::move_on_surface(head.0, (head.1, head.2), self.dir.0, self.dir.1);
        let new_pos: SnakePos = (new_face, new_u, new_v);
        if find_pos(&self.walls, new_pos).is_some() {
            self.outcome = SnakeOutcome::Lost;
            return None;
        }
        if find_pos(&self.body, new_pos).is_some() {
            self.outcome = SnakeOutcome::Lost;
            return None;
        }
        let ghost fruits0 = self.fruits@;
        let ate = match find_pos(&self.fruits, new_pos) {
            Some(i) => {
                self.fruits.remove(i);
                proof {
                    assert(fruits0.remove(i as int).to_set() =~= fruits0.to_set().remove(new_pos)) by {
                        assert forall|p: SnakePos| fruits0.remove(i as int).contains(p) <==> fruits0.to_set().remove(new_pos).contains(p) by {
                            if fruits0.remove(i as int).contains(p) {
                                let k = choose|k: int| 0 <= k < fruits0.remove(i as int).len() && fruits0.remove(i as int)[k] == p;
                                if k < i {
                                    assert(fruits0[k] == p);
                                } else {
                                    assert(fruits0[k + 1] == p);
                                }
                                assert(fruits0.contains(p));
                            }
                            if fruits0.contains(p) && p != new_pos {
                                let k = choose|k: int| 0 <= k < fruits0.len() && fruits0[k] == p;
                                if k < i {
                                    assert(fruits0.remove(i as int)[k] == p);
                                } else {
                                    assert(k != i);
                                    assert(fruits0.remove(i as int)[k - 1] == p);
                                }
                            }
                        }
                    }
                    assert(self.fruits@.no_duplicates()) by {
                        assert forall|a: int, b: int| 0 <= a < self.fruits@.len() && 0 <= b < self.fruits@.len() && a != b implies self.fruits@[a] != self.fruits@[b] by {
                            let a2 = if a < i { a } else { a + 1 };
                            let b2 = if b < i { b } else { b + 1 };
                            assert(self.fruits@[a] == fruits0[a2]);
                            assert(self.fruits@[b] == fruits0[b2]);
                        }
                    }
                }
                true
            },
            None => {
                proof {
                    assert(fruits0.to_set() =~= fruits0.to_set().remove(new_pos));
                }
                false
            },
        };
        let ghost body0 = self.body@;
        self.body.insert(0, new_pos);
        if ate {
            self.score = self.score + 1;
        } else {
            self.body.pop();
        }
        proof {
            assert(body0.insert(0, new_pos) =~= seq![new_pos] + body0);
            assert forall|i: int| 0 <= i < self.body@.len() implies on_grid(#[trigger] self.body@[i]) by {
                if i > 0 {
                    assert(self.body@[i] == body0[i - 1]);
                    assert(on_grid(body0[i - 1]));
                }
            }
        }
        if ate && self.fruits.len() == 0 {
            self.outcome = SnakeOutcome::Won;
        }
        if timed_out {
            self.outcome = SnakeOutcome::Lost;
        }
        Some(SnakeMove { head: new_pos, ate })
    }
}

/// One step of the snake game's random numbers (xorshift).
pub open spec fn xorshift(s: u64) -> u64 {
    let a = s ^ (s << 13u64);
    let b = a ^ (a >> 7u64);
    b ^ (b << 17u64)
}

/// The random state after `k` steps from `seed`.
pub open spec fn random_state(seed: u64, k: nat) -> u64
    decreases k,
{
    if k == 0 {
        seed
    } else {
        xorshift(random_state(seed, (k - 1) as nat))
    }
}

fn next_random(s: u64) -> (r: u64)
    ensures
        r == xorshift(s),
{
    let a = s ^ (s << 13);
    let b = a ^ (a >> 7);
    b ^ (b << 17)
}

/// The body a snake game starts with: six segments in the middle row of `face`, head at
/// `u = 4`, the rest to its left (the last two share `u = 0`).
pub open spec fn start_body(face: Face) -> Seq<SnakePos> {
    seq![(face, 4u8, 4u8), (face, 3u8, 4u8), (face, 2u8, 4u8), (face, 1u8, 4u8), (face, 0u8, 4u8), (face, 0u8, 4u8)]
}

/// The position where a cell is shown first (its first face-local coordinate).
pub open spec fn first_pos(c: CubeCoord) -> SnakePos {
    let fc = face_coords_of(c)[0];
    (fc.face, fc.u, fc.v)
}

/// The items of `pool` picked by the random draws `first + 1 ..= first + count`, each draw
/// taken modulo the pool size.
pub open spec fn drawn(pool: Seq<SnakePos>, seed: u64, first: nat, count: nat) -> Set<SnakePos> {
    Set::new(
        |p: SnakePos|
            exists|k: nat|
                first < k <= first + count && pool.len() > 0 && #[trigger] random_state(seed, k) % (pool.len() as u64)
                    < pool.len() && p == pool[(random_state(seed, k) % (pool.len() as u64)) as int],
    )
}

/// Draws `count` items of `pool` at random (draw `first + 1` on), without repetition in
/// the result.
fn draw(pool: &Vec<SnakePos>, seed: u64, state: u64, count: usize, Ghost(first): Ghost<nat>) -> (r: (Vec<SnakePos>, u64))
    requires
        pool@.len() > 0,
        state == random_state(seed, first),
    ensures
        r.0@.no_duplicates(),
        r.0@.to_set() == drawn(pool@, seed, first, count as nat),
        r.0@.len() <= count,
        r.1 == random_state(seed, (first + count) as nat),
{
    let mut out: Vec<SnakePos> = Vec::new();
    let mut st = state;
    let mut k: usize = 0;
    while k < count
        invariant
            pool@.len() > 0,
            k <= count,
            st == random_state(seed, (first + k) as nat),
            out@.no_duplicates(),
            out@.len() <= k,
            out@.to_set() == drawn(pool@, seed, first, k as nat),
        decreases count - k,
    {
        st = next_random(st);
        let idx = (st % (pool.len() as u64)) as usize;
        let p = pool[idx];
        let ghost before = out@;
        if find_pos(&out, p).is_none() {
            out.push(p);
        }
        proof {
            assert(st == random_state(seed, (first + k + 1) as nat));
            assert forall|q: SnakePos| out@.to_set().contains(q) <==> drawn(pool@, seed, first, (k + 1) as nat).contains(q) by {
                if drawn(pool@, seed, first, (k + 1) as nat).contains(q) {
                    let j = choose|j: nat|
                        first < j <= first + k + 1 && pool@.len() > 0 && #[trigger] random_state(seed, j) % (pool@.len() as u64)
                            < pool@.len() && q == pool@[(random_state(seed, j) % (pool@.len() as u64)) as int];
                    if j <= first + k {
                        assert(drawn(pool@, seed, first, k as nat).contains(q));
                        assert(before.to_set().contains(q));
                        assert(before.contains(q));
                        let t = choose|t: int| 0 <= t < before.len() && before[t] == q;
                        assert(out@[t] == q);
                    } else {
                        assert(q == p);
                        if before.contains(p) {
                            let t = choose|t: int| 0 <= t < before.len() && before[t] == q;
                            assert(out@[t] == q);
                        } else {
                            assert(out@[before.len() as int] == q);
                        }
                    }
                }
                if out@.to_set().contains(q) {
                    assert(out@.contains(q));
                    let t = choose|t: int| 0 <= t < out@.len() && out@[t] == q;
                    if t < before.len() {
                        assert(before[t] == q);
                        assert(before.to_set().contains(q));
                        let j = choose|j: nat|
                            first < j <= first + k && pool@.len() > 0 && #[trigger] random_state(seed, j) % (pool@.len() as u64)
                                < pool@.len() && q == pool@[(random_state(seed, j) % (pool@.len() as u64)) as int];
                    } else {
                        assert(q == p);
                        assert(random_state(seed, (first + k + 1) as nat) % (pool@.len() as u64) < pool@.len());
                    }
                }
            }
            assert(out@.to_set() =~= drawn(pool@, seed, first, (k + 1) as nat));
            if !before.contains(p) {
                assert forall|a: int, b: int| 0 <= a < out@.len() && 0 <= b < out@.len() && a != b implies out@[a] != out@[b] by {
                    if a == before.len() {
                        assert(before.contains(out@[b]) ==> false || out@[b] != p);
                        if b < before.len() {
                            assert(before[b] == out@[b]);
                        }
                    } else if b == before.len() {
                        assert(before[a] == out@[a]);
                    }
                }
            }
        }
        k = k + 1;
    }
    (out, st)
}

/// The positions of `s` that are not in `out`, in order.
pub open spec fn without(s: Seq<SnakePos>, out: Set<SnakePos>) -> Seq<SnakePos>
    decreases s.len(),
{
    if s.len() == 0 {
        Seq::empty()
    } else {
        let rest = without(s.drop_last(), out);
        if out.contains(s.last()) {
            rest
        } else {
            rest.push(s.last())
        }
    }
}

fn filter_out(s: &Vec<SnakePos>, out: &Vec<SnakePos>) -> (r: Vec<SnakePos>)
    ensures
        r@ == without(s@, out@.to_set()),
{
    let mut r: Vec<SnakePos> = Vec::new();
    let mut i: usize = 0;
    while i < s.len()
        invariant
            i <= s@.len(),
            r@ == without(s@.take(i as int), out@.to_set()),
        decreases s@.len() - i,
    {
        let p = s[i];
        proof {
            assert(s@.take(i + 1).drop_last() =~= s@.take(i as int));
            assert(s@.take(i + 1).last() == p);
        }
        if find_pos(out, p).is_none() {
            r.push(p);
        } else {
            proof {
                assert(out@.contains(p));
            }
        }
        i = i + 1;
    }
    proof {
        assert(s@.take(s@.len() as int) =~= s@);
    }
    r
}

/// The shown positions of the cells in `cells`, in order.
pub open spec fn shown_positions(cells: Seq<CubeCoord>) -> Seq<SnakePos> {
    Seq::new(cells.len(), |i: int| first_pos(cells[i]))
}

/// The free places of a new snake game: the shown positions of the empty cells, except
/// those under the starting body.
pub open spec fn snake_pool(grid: Map<CubeCoord, Cell>, face: Face) -> Seq<SnakePos> {
    without(shown_positions(candidate_list(grid, None, 729)), start_body(face).to_set())
}

/// The fruits of a new snake game: random draws from the pool (none when it is empty).
pub open spec fn start_fruits(pool: Seq<SnakePos>, fruit_count: u8, seed: u64) -> Set<SnakePos> {
    if pool.len() == 0 {
        Set::empty()
    } else {
        drawn(pool, seed, 0, fruit_count as nat)
    }
}

/// The walls of a new snake game: as many random draws as there are fruits (at most the
/// free places left), from the pool without the fruits, continuing the random numbers
/// after the fruits.
pub open spec fn start_walls(pool: Seq<SnakePos>, fruits: Set<SnakePos>, fruit_count: u8, seed: u64) -> Set<SnakePos> {
    let pool2 = without(pool, fruits);
    if pool2.len() == 0 {
        Set::empty()
    } else {
        drawn(
            pool2,
            seed,
            fruit_count as nat,
            if (fruit_count as nat) < pool2.len() {
                fruit_count as nat
            } else {
                pool2.len()
            },
        )
    }
}

/// `st` is the snake game that starts on `face` of board `grid` with `fruit_count` fruits
/// and random numbers from `seed`: the body in the middle of the face heading right, the
/// fruits and walls drawn among the empty cells, running, nothing eaten.
pub open spec fn snake_start(grid: Map<CubeCoord, Cell>, start_face: Face, fruit_count: u8, seed: u64, st: SnakeState) -> bool {
    let pool = snake_pool(grid, start_face);
    &&& st.wf()
    &&& st.body@ == start_body(start_face)
    &&& st.dir == (1i8, 0i8)
    &&& st.fruits@.to_set() == start_fruits(pool, fruit_count, seed)
    &&& st.walls@.to_set() == start_walls(pool, st.fruits@.to_set(), fruit_count, seed)
    &&& st.outcome == SnakeOutcome::Running
    &&& st.score == 0
    &&& st.total_fruits == fruit_count as u32
}

/// Starts the snake game on `face` with `fruit_count` fruits, drawing fruits and walls
/// among the empty cells with random numbers from `seed`; nothing when the board has no
/// empty cell.
pub fn start_snake_game(grid: &CubeGrid, start_face: Face, fruit_count: u8, seed: u64) -> (r: Option<SnakeState>)
    requires
        grid.wf(),
        forall|c: CubeCoord| #[trigger] grid@.dom().contains(c) ==> c.on_surface(),
    ensures
        r is None <==> candidate_list(grid@, None, 729).len() == 0,
        r matches Some(st) ==> snake_start(grid@, start_face, fruit_count, seed, st),
{
    let empties = empty_cells(grid, None);
    if empties.len() == 0 {
        return None;
    }
    let mut shown: Vec<SnakePos> = Vec::new();
    let mut i: usize = 0;
    while i < empties.len()
        invariant
            i <= empties@.len(),
            empties@ == candidate_list(grid@, None, 729),
            forall|c: CubeCoord| #[trigger] grid@.dom().contains(c) ==> c.on_surface(),
            forall|c: CubeCoord| #[trigger] empties@.contains(c) <==> (is_empty_cell(grid@, c) && true),
            shown@ == shown_positions(empties@.take(i as int)),
        decreases empties@.len() - i,
    {
        let c = empties[i];
        proof {
            assert(empties@.contains(c));
            assert(c.on_surface());
            crate::cube::lemma_face_coords_complete(c);
        }
        let fcs = c.to_face_coords();
        proof {
            assert(fcs@.len() > 0);
        }
        let fc = fcs[0];
        shown.push((fc.face, fc.u, fc.v));
        proof {
            assert(shown@ =~= shown_positions(empties@.take(i + 1)));
        }
        i = i + 1;
    }
    proof {
        assert(empties@.take(empties@.len() as int) =~= empties@);
    }
    let mut body: Vec<SnakePos> = Vec::new();
    let mut k: u8 = 0;
    while k < 6
        invariant
            k <= 6,
            body@ == start_body(start_face).take(k as int),
        decreases 6 - k,
    {
        let u: u8 = if k <= 4 {
            4 - k
        } else {
            0
        };
        body.push((start_face, u, 4));
        proof {
            assert(body@ =~= start_body(start_face).take(k + 1));
        }
        k = k + 1;
    }
    proof {
        assert(body@ =~= start_body(start_face));
    }
    let pool = filter_out(&shown, &body);
    let mut state: u64 = seed;
    let fruits: Vec<SnakePos> = if pool.len() == 0 {
        proof {
            assert(Seq::<SnakePos>::empty().to_set() =~= Set::<SnakePos>::empty());
        }
        Vec::new()
    } else {
        let (f, st) = draw(&pool, seed, seed, fruit_count as usize, Ghost(0nat));
        state = st;
        f
    };
    let pool2 = filter_out(&pool, &fruits);
    let walls: Vec<SnakePos> = if pool2.len() == 0 {
        proof {
            assert(Seq::<SnakePos>::empty().to_set() =~= Set::<SnakePos>::empty());
        }
        Vec::new()
    } else {
        let m: usize = if (fruit_count as usize) < pool2.len() {
            fruit_count as usize
        } else {
            pool2.len()
        };
        proof {
            if pool.len() == 0 {
                assert(without(Seq::<SnakePos>::empty(), fruits@.to_set()) =~= Seq::<SnakePos>::empty());
            }
            assert(state == random_state(seed, fruit_count as nat));
        }
        let (w, _) = draw(&pool2, seed, state, m, Ghost(fruit_count as nat));
        w
    };
    proof {
        assert(start_body(start_face).to_set() == body@.to_set());
    }
    let st = SnakeState {
        body,
        dir: (1, 0),
        fruits,
        walls,
        outcome: SnakeOutcome::Running,
        score: 0,
        total_fruits: fruit_count as u32,
    };
    proof {
        assert forall|j: int| 0 <= j < st.body@.len() implies on_grid(#[trigger] st.body@[j]) by {}
    }
    Some(st)
}

/// The message key shown when the snake game ends, by how it stands.
pub open spec fn snake_end_key(outcome: SnakeOutcome) -> Seq<char> {
    match outcome {
        SnakeOutcome::Won => "snake.win"@,
        SnakeOutcome::Lost => "snake.lose"@,
        SnakeOutcome::Running => "snake.exit"@,
    }
}

/// Ends the snake game: the game is dropped, and the message for how it stood is returned
/// (none when no game ran).
pub fn end_snake_game(snake: &mut Option<SnakeState>, lang: crate::i18n::Lang) -> (r: Option<&'static str>)
    ensures
        *final(snake) is None,
        match *old(snake) {
            Some(st) => r matches Some(m) && m@ == crate::i18n::translation(snake_end_key(st.outcome), lang),
            None => r is None,
        },
{
    let msg = match snake {
        Some(st) => match st.outcome {
            SnakeOutcome::Won => Some(crate::i18n::t("snake.win", lang)),
            SnakeOutcome::Lost => Some(crate::i18n::t("snake.lose", lang)),
            SnakeOutcome::Running => Some(crate::i18n::t("snake.exit", lang)),
        },
        None => None,
    };
    *snake = None;
    msg
}

} // verus!
