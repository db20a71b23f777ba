//! What the board of the current face shows: how each cell looks (the cursor, the guide's
//! highlights, wrong and given digits, or the snake game), and the grid's separator lines.

use vstd::prelude::*;

use crate::cube::{lemma_cube_at_local, unit_on_face, CubeCoord, Face};
use crate::digits::lookup;
use crate::game_state::GameState;
use crate::grid::Cell;
use crate::play::PlayState;
use crate::shop::{find_pos, SnakePos, SnakeState};
use crate::text::push_char;

verus! {

/// How a cell of the board is drawn.
#[derive(Debug, Clone, Copy, PartialEq, Eq, Structural)]
pub enum CellLook {
    /// The snake's head, on the middle line of the cell.
    SnakeHead,
    /// A segment of the snake's body.
    SnakeBody,
    /// A fruit, on the middle line of the cell.
    Fruit,
    /// A wall.
    Wall,
    /// Any other cell while the snake game runs.
    SnakeEmpty,
    /// The cursor on a wrong digit.
    SelectedWrong,
    /// The cursor, lit (its blink phase, or always when it does not blink).
    SelectedLit,
    /// The cursor in the dark phase of its blinking.
    SelectedDim,
    /// A cell of the cursor's row, column or box holding the cursor's digit.
    GroupSameDigit,
    /// A cell of the cursor's row, column or box.
    Group,
    /// A cell holding the cursor's digit.
    SameDigit,
    /// A wrong digit.
    Wrong,
    /// A given digit.
    Given,
    /// A digit the player placed.
    Filled,
    /// An empty cell.
    Empty,
}

/// The digit in cell `c` of `grid`, if any.
pub open spec fn value_at(grid: Map<CubeCoord, Cell>, c: CubeCoord) -> Option<u8> {
    if grid.dom().contains(c) {
        grid[c].user_value
    } else {
        None
    }
}

/// Whether `n` in cell `c` disagrees with the solution (or the solution has nothing there).
pub open spec fn is_wrong_value(solution: Map<CubeCoord, u8>, c: CubeCoord, n: u8) -> bool {
    lookup(solution, c) != Some(n)
}

/// Whether `n` in cell `c` disagrees with the solution of `game`.
pub fn is_wrong(game: &GameState, c: CubeCoord, n: u8) -> (r: bool)
    ensures
        r == is_wrong_value(game.solution@, c, n),
{
    match game.solution.get(&c) {
        Some(sol) => sol != n,
        None => true,
    }
}

/// How cell `(u, v)` of the current face looks in the sudoku: the cursor first (wrong, lit
/// or dim), then, when the guide is on, the cursor's row, column and box and the cells with
/// its digit, then wrong, given, filled and empty cells.
pub open spec fn sudoku_look(
    game: GameState,
    play: PlayState,
    u: u8,
    v: u8,
    blinking: bool,
    blink_phase: bool,
) -> CellLook {
    let c = play.current_face.cube_at(u, v);
    let cur = play.cursor;
    let selected = cur == (u, v);
    let value = value_at(game.grid@, c);
    let wrong = value matches Some(n) && is_wrong_value(game.solution@, c, n);
    let given = game.grid@.dom().contains(c) && game.grid@[c].given;
    let guided = play.guidance && !selected;
    let in_group = guided && (cur.1 == v || cur.0 == u || (cur.0 / 3 == u / 3 && cur.1 / 3 == v / 3));
    let same = guided && value is Some && value == value_at(
        game.grid@,
        play.current_face.cube_at(cur.0, cur.1),
    );
    if selected && wrong {
        CellLook::SelectedWrong
    } else if selected && blinking && !blink_phase {
        CellLook::SelectedDim
    } else if selected {
        CellLook::SelectedLit
    } else if in_group && same {
        CellLook::GroupSameDigit
    } else if in_group {
        CellLook::Group
    } else if same {
        CellLook::SameDigit
    } else if wrong {
        CellLook::Wrong
    } else if given {
        CellLook::Given
    } else if value is Some {
        CellLook::Filled
    } else {
        CellLook::Empty
    }
}

/// How position `p` looks while the snake game runs, on the middle line of its cell
/// (`mid`) or another: the head and fruits show on the middle line only.
pub open spec fn snake_look(s: SnakeState, p: SnakePos, mid: bool) -> CellLook {
    let head = s.body@.len() > 0 && s.body@[0] == p;
    if head && mid {
        CellLook::SnakeHead
    } else if !head && s.body@.contains(p) {
        CellLook::SnakeBody
    } else if mid && s.fruits@.contains(p) {
        CellLook::Fruit
    } else if s.walls@.contains(p) {
        CellLook::Wall
    } else {
        CellLook::SnakeEmpty
    }
}

/// How a line of cell `(u, v)` of the current face looks: the snake game's look while it
/// runs, else the sudoku's.
pub open spec fn look_of(
    game: GameState,
    play: PlayState,
    u: u8,
    v: u8,
    mid: bool,
    blinking: bool,
    blink_phase: bool,
) -> CellLook {
    match play.snake {
        Some(s) => snake_look(s, (play.current_face, u, v), mid),
        None => sudoku_look(game, play, u, v, blinking, blink_phase),
    }
}

/// With the guide on and no snake game, a cell other than the cursor's is drawn as part of
/// the cursor's group exactly when the sudoku rules tie it to the cursor's cell on the
/// current face: the same row, the same column or the same 3×3 box.
pub proof fn lemma_guide_marks_cursor_units(
    game: GameState,
    play: PlayState,
    u: u8,
    v: u8,
    mid: bool,
    blinking: bool,
    blink_phase: bool,
)
    requires
        play.snake is None,
        play.guidance,
        u < 9,
        v < 9,
        play.cursor.0 < 9,
        play.cursor.1 < 9,
        (u, v) != play.cursor,
    ensures
        (look_of(game, play, u, v, mid, blinking, blink_phase) == CellLook::Group || look_of(
            game,
            play,
            u,
            v,
            mid,
            blinking,
            blink_phase,
        ) == CellLook::GroupSameDigit) <==> unit_on_face(
            play.current_face,
            play.current_face.cube_at(play.cursor.0, play.cursor.1),
            play.current_face.cube_at(u, v),
        ),
{
    lemma_cube_at_local(play.current_face, play.cursor.0, play.cursor.1);
    lemma_cube_at_local(play.current_face, u, v);
}

/// How a line of cell `(u, v)` of the current face looks (see `look_of`); `mid` tells
/// whether it is the middle line of the cell, `blinking` whether the cursor blinks and
/// `blink_phase` whether it is lit now.
pub fn cell_look(
    game: &GameState,
    play: &PlayState,
    u: u8,
    v: u8,
    mid: bool,
    blinking: bool,
    blink_phase: bool,
) -> (r: CellLook)
    requires
        game.wf(),
        play.wf(),
        u < 9,
        v < 9,
    ensures
        r == look_of(*game, *play, u, v, mid, blinking, blink_phase),
{
    match &play.snake {
        Some(s) => {
            let p: SnakePos = (play.current_face, u, v);
            let head = s.body.len() > 0 && {
                let h = s.body[0];
                h.0 == p.0 && h.1 == p.1 && h.2 == p.2
            };
            if head && mid {
                CellLook::SnakeHead
            } else if !head && find_pos(&s.body, p).is_some() {
                CellLook::SnakeBody
            } else if mid && find_pos(&s.fruits, p).is_some() {
                CellLook::Fruit
            } else if find_pos(&s.walls, p).is_some() {
                CellLook::Wall
            } else {
                CellLook::SnakeEmpty
            }
        },
        None => {
            let c = play.current_face.to_cube(u, v);
            let cur = play.cursor;
            let selected = cur.0 == u && cur.1 == v;
            let cell = game.grid.get(&c);
            let value = match cell {
                Some(cell) => cell.user_value,
                None => None,
            };
            let given = match cell {
                Some(cell) => cell.given,
                None => false,
            };
            let wrong = match value {
                Some(n) => is_wrong(game, c, n),
                None => false,
            };
            let guided = play.guidance && !selected;
            let in_group = guided && (cur.1 == v || cur.0 == u || (cur.0 / 3 == u / 3 && cur.1 / 3 == v / 3));
            let same = guided && match value {
                Some(n) => {
                    let sc = play.current_face.to_cube(cur.0, cur.1);
                    match game.grid.get(&sc) {
                        Some(sel) => sel.user_value == Some(n),
                        None => false,
                    }
                },
                None => false,
            };
            if selected && wrong {
                CellLook::SelectedWrong
            } else if selected && blinking && !blink_phase {
                CellLook::SelectedDim
            } else if selected {
                CellLook::SelectedLit
            } else if in_group && same {
                CellLook::GroupSameDigit
            } else if in_group {
                CellLook::Group
            } else if same {
                CellLook::SameDigit
            } else if wrong {
                CellLook::Wrong
            } else if given {
                CellLook::Given
            } else if value.is_some() {
                CellLook::Filled
            } else {
                CellLook::Empty
            }
        },
    }
}

/// The left end of a separator line: `╔` on top, `╚` at the bottom, `╟` between.
pub open spec fn left_corner(top: bool, bottom: bool) -> char {
    if top {
        '╔'
    } else if bottom {
        '╚'
    } else {
        '╟'
    }
}

/// The right end of a separator line.
pub open spec fn right_corner(top: bool, bottom: bool) -> char {
    if top {
        '╗'
    } else if bottom {
        '╝'
    } else {
        '╢'
    }
}

/// The junction after column `u` (of 0 to 7): doubled after every third column, shaped by
/// the line's place and weight.
pub open spec fn junction(u: int, top: bool, bottom: bool, thick: bool) -> char {
    let major = (u + 1) % 3 == 0;
    if top {
        if major { '╦' } else { '╤' }
    } else if bottom {
        if major { '╩' } else { '╧' }
    } else if thick {
        if major { '╬' } else { '╪' }
    } else if major {
        '╫'
    } else {
        '┼'
    }
}

/// The run of one column of a separator line: `cw` of `═` (thick) or `─`, then the
/// junction when another column follows.
pub open spec fn separator_column(u: int, cw: nat, top: bool, bottom: bool, thick: bool) -> Seq<char> {
    let run = Seq::new(cw, |i: int| if thick { '═' } else { '─' });
    if u < 8 {
        run.push(junction(u, top, bottom, thick))
    } else {
        run
    }
}

/// The first `k` columns of a separator line.
pub open spec fn separator_columns(k: nat, cw: nat, top: bool, bottom: bool, thick: bool) -> Seq<char>
    decreases k,
{
    if k == 0 {
        Seq::empty()
    } else {
        separator_columns((k - 1) as nat, cw, top, bottom, thick) + separator_column(
            k - 1,
            cw,
            top,
            bottom,
            thick,
        )
    }
}

/// The separator line above a row of the grid, below the last one (`bottom`) or at the
/// top (`top`), heavy (`thick`) above every third row.
pub open spec fn separator(cw: nat, top: bool, bottom: bool, thick: bool) -> Seq<char> {
    seq![left_corner(top, bottom)] + separator_columns(9, cw, top, bottom, thick) + seq![right_corner(top, bottom)]
}

/// Builds the separator line of the grid for cells `cw` wide (see `separator`).
pub fn separator_line(cw: usize, top: bool, bottom: bool, thick: bool) -> (r: String)
    ensures
        r@ == separator(cw as nat, top, bottom, thick),
{
    let mut s = String::new();
    let left = if top {
        '╔'
    } else if bottom {
        '╚'
    } else {
        '╟'
    };
    push_char(&mut s, left);
    let h = if thick { '═' } else { '─' };
    let mut u: usize = 0;
    while u < 9
        invariant
            u <= 9,
            h == (if thick { '═' } else { '─' }),
            s@ == seq![left_corner(top, bottom)] + separator_columns(u as nat, cw as nat, top, bottom, thick),
        decreases 9 - u,
    {
        let ghost before = s@;
        let mut i: usize = 0;
        while i < cw
            invariant
                i <= cw,
                h == (if thick { '═' } else { '─' }),
                s@ == before + Seq::new(i as nat, |j: int| if thick { '═' } else { '─' }),
            decreases cw - i,
        {
            push_char(&mut s, h);
            i = i + 1;
            assert(s@ =~= before + Seq::new(i as nat, |j: int| if thick { '═' } else { '─' }));
        }
        if u < 8 {
            let major = (u + 1) % 3 == 0;
            let j = if top {
                if major { '╦' } else { '╤' }
            } else if bottom {
                if major { '╩' } else { '╧' }
            } else if thick {
                if major { '╬' } else { '╪' }
            } else if major {
                '╫'
            } else {
                '┼'
            };
            push_char(&mut s, j);
        }
        assert(s@ =~= seq![left_corner(top, bottom)] + separator_columns((u + 1) as nat, cw as nat, top, bottom, thick));
        u = u + 1;
    }
    let right = if top {
        '╗'
    } else if bottom {
        '╝'
    } else {
        '╢'
    };
    push_char(&mut s, right);
    s
}

/// The mark a cell shows in the middle of its middle line, if any: the snake's head, a
/// segment or a fruit while the snake game runs, else the cell's digit.
pub open spec fn cell_mark(look: CellLook, value: Option<u8>, mid: bool) -> Option<char> {
    match look {
        CellLook::SnakeHead => Some('◉'),
        CellLook::SnakeBody => if mid {
            Some('●')
        } else {
            None
        },
        CellLook::Fruit => Some('●'),
        CellLook::Wall => None,
        CellLook::SnakeEmpty => None,
        _ => if mid {
            match value {
                Some(n) => Some(crate::text::digit_char(n)),
                None => None,
            }
        } else {
            None
        },
    }
}

/// The text of one line of a cell `cw` wide: all `▓` for a wall, else blanks with the
/// cell's mark (see `cell_mark`) at position `(cw - 1) / 2`.
pub open spec fn cell_text(look: CellLook, value: Option<u8>, cw: nat, mid: bool) -> Seq<char> {
    if look == CellLook::Wall {
        Seq::new(cw, |i: int| '▓')
    } else {
        let blank = Seq::new(cw, |i: int| ' ');
        match cell_mark(look, value, mid) {
            Some(m) => blank.update((cw - 1) / 2, m),
            None => blank,
        }
    }
}

/// The text of one line of a cell `cw` wide (see `cell_text`).
pub fn cell_line(look: CellLook, value: Option<u8>, cw: usize, mid: bool) -> (r: String)
    requires
        cw >= 1,
        value matches Some(n) ==> n < 208,
    ensures
        r@ == cell_text(look, value, cw as nat, mid),
{
    let mark: Option<char> = match look {
        CellLook::SnakeHead => Some('◉'),
        CellLook::SnakeBody => if mid {
            Some('●')
        } else {
            None
        },
        CellLook::Fruit => Some('●'),
        CellLook::Wall => None,
        CellLook::SnakeEmpty => None,
        _ => if mid {
            match value {
                Some(n) => Some(crate::text::digit_to_char(n)),
                None => None,
            }
        } else {
            None
        },
    };
    let wall = match look {
        CellLook::Wall => true,
        _ => false,
    };
    let at = (cw - 1) / 2;
    let mut s = String::new();
    let mut i: usize = 0;
    while i < cw
        invariant
            i <= cw,
            at == (cw - 1) / 2,
            mark == cell_mark(look, value, mid),
            wall == (look == CellLook::Wall),
            s@ == cell_text(look, value, cw as nat, mid).take(i as int),
        decreases cw - i,
    {
        let ch = if wall {
            '▓'
        } else {
            match mark {
                Some(m) => if i == at {
                    m
                } else {
                    ' '
                },
                None => ' ',
            }
        };
        push_char(&mut s, ch);
        i = i + 1;
        assert(s@ =~= cell_text(look, value, cw as nat, mid).take(i as int));
    }
    assert(s@ =~= cell_text(look, value, cw as nat, mid));
    s
}

} // verus!
