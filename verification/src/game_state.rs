//! The state of a game in progress: the board, its solution, the history of moves with
//! undo, hints, giving up and completion.

use vstd::prelude::*;

use crate::cube::{coord_from_slot, CubeCoord, Difficulty};
use crate::digits::{lookup, DigitMap};
use crate::grid::{Cell, CubeGrid};

verus! {

/// One move of the player: the cell and the value it held before.
#[derive(Debug, Clone, Copy, PartialEq, Eq, Structural)]
pub struct MoveRecord {
    pub coord: CubeCoord,
    pub old: Option<u8>,
}

/// A game in progress. (The wall-clock start of the game is kept by the client.)
pub struct GameState {
    pub grid: CubeGrid,
    pub solution: DigitMap,
    pub difficulty: Difficulty,
    pub selected: Option<CubeCoord>,
    pub highlight_number: Option<u8>,
    pub elapsed_seconds: u64,
    pub completed: bool,
    /// The moves made; those at `history_index` and after were undone.
    pub history: Vec<MoveRecord>,
    pub history_index: usize,
    pub auto_next: bool,
    pub id: Option<i64>,
}

/// `c` with the player's value set to `v`.
pub open spec fn with_value(c: Cell, v: Option<u8>) -> Cell {
    Cell { user_value: v, ..c }
}

/// Whether setting `coord` to `value` changes the board: the cell exists, is not given,
/// and holds another value.
pub open spec fn changes(grid: Map<CubeCoord, Cell>, coord: CubeCoord, value: Option<u8>) -> bool {
    &&& grid.dom().contains(coord)
    &&& !grid[coord].given
    &&& grid[coord].user_value != value
}

/// The board after giving up: every cell that is not given holds the solution's value.
pub open spec fn given_up(grid: Map<CubeCoord, Cell>, solution: Map<CubeCoord, u8>) -> Map<CubeCoord, Cell> {
    Map::new(
        |c: CubeCoord| grid.dom().contains(c),
        |c: CubeCoord|
            if grid[c].given {
                grid[c]
            } else {
                with_value(grid[c], lookup(solution, c))
            },
    )
}

/// Whether the board is full and every cell holds its answer.
pub open spec fn solved(grid: Map<CubeCoord, Cell>) -> bool {
    forall|c: CubeCoord| #[trigger] grid.dom().contains(c) ==> grid[c].user_value == Some(grid[c].answer)
}

/// `a` and `b` agree but for the board, the history and the completion flag.
pub open spec fn same_setup(a: GameState, b: GameState) -> bool {
    &&& b.solution == a.solution
    &&& b.difficulty == a.difficulty
    &&& b.selected == a.selected
    &&& b.highlight_number == a.highlight_number
    &&& b.elapsed_seconds == a.elapsed_seconds
    &&& b.auto_next == a.auto_next
    &&& b.id == a.id
}

/// The cell a hint fills and its answer: the selected cell, when the solution has it.
pub open spec fn hint_target(g: GameState) -> Option<(CubeCoord, u8)> {
    match g.selected {
        Some(c) => if g.solution@.dom().contains(c) {
            Some((c, g.solution@[c]))
        } else {
            None
        },
        None => None,
    }
}

impl GameState {
    /// The board covers the box and the history position is within the history.
    pub open spec fn wf(&self) -> bool {
        &&& self.grid.wf()
        &&& self.history_index <= self.history@.len()
    }

    /// A new game on `grid` with `solution`: nothing selected, no moves, not completed.
    pub fn new(grid: CubeGrid, solution: DigitMap, difficulty: Difficulty) -> (r: GameState)
        requires
            grid.wf(),
        ensures
            r.wf(),
            r.grid@ == grid@,
            r.solution@ == solution@,
            r.difficulty == difficulty,
            r.selected is None,
            r.highlight_number is None,
            r.elapsed_seconds == 0,
            !r.completed,
            r.history@.len() == 0,
            r.history_index == 0,
            !r.auto_next,
            r.id is None,
    {
        GameState {
            grid,
            solution,
            difficulty,
            selected: None,
            highlight_number: None,
            elapsed_seconds: 0,
            completed: false,
            history: Vec::new(),
            history_index: 0,
            auto_next: false,
            id: None,
        }
    }

    /// Records a move: the undone moves are dropped and the record appended.
    fn push_history(&mut self, record: MoveRecord)
        requires
            old(self).wf(),
            old(self).history_index < usize::MAX,
        ensures
            final(self).wf(),
            final(self).history@ == old(self).history@.take(old(self).history_index as int).push(record),
            final(self).history_index == old(self).history_index + 1,
            same_setup(*old(self), *final(self)),
            final(self).grid == old(self).grid,
            final(self).solution == old(self).solution,
            final(self).selected == old(self).selected,
            final(self).completed == old(self).completed,
    {
        self.history.truncate(self.history_index);
        self.history.push(record);
        self.history_index = self.history_index + 1;
    }

    /// Sets the player's value of `coord` (`None` erases it) and records the move; given
    /// cells, missing cells and unchanged values are left alone.
    pub fn set_value(&mut self, coord: CubeCoord, value: Option<u8>)
        requires
            old(self).wf(),
            old(self).history_index < usize::MAX,
        ensures
            same_setup(*old(self), *final(self)),
            final(self).wf(),
            final(self).solution == old(self).solution,
            final(self).selected == old(self).selected,
            final(self).completed == old(self).completed,
            changes(old(self).grid@, coord, value) ==> {
                &&& final(self).grid@ == old(self).grid@.insert(coord, with_value(old(self).grid@[coord], value))
                &&& final(self).history@ == old(self).history@.take(old(self).history_index as int).push(
                    MoveRecord { coord, old: old(self).grid@[coord].user_value },
                )
                &&& final(self).history_index == old(self).history_index + 1
            },
            !changes(old(self).grid@, coord, value) ==> {
                &&& final(self).grid@ == old(self).grid@
                &&& final(self).history == old(self).history
                &&& final(self).history_index == old(self).history_index
            },
    {
        let ghost g0 = self.grid@;
        let mut previous: Option<u8> = None;
        let mut changed = false;
        match self.grid.get_mut(&coord) {
            Some(cell) => {
                if !cell.given && cell.user_value != value {
                    previous = cell.user_value;
                    cell.user_value = value;
                    changed = true;
                }
            },
            None => {},
        }
        proof {
            if changed {
                assert(self.grid@ =~= g0.insert(coord, with_value(g0[coord], value)));
            } else {
                if g0.dom().contains(coord) {
                    assert(self.grid@ =~= g0);
                }
            }
        }
        if changed {
            self.push_history(MoveRecord { coord, old: previous });
        }
    }

    /// Fills the selected cell with its solution value, as a move.
    pub fn hint(&mut self)
        requires
            old(self).wf(),
            old(self).history_index < usize::MAX,
        ensures
            same_setup(*old(self), *final(self)),
            final(self).wf(),
            final(self).solution == old(self).solution,
            final(self).selected == old(self).selected,
            final(self).completed == old(self).completed,
            ({
                match hint_target(*old(self)) {
                    Some((c, answer)) => if changes(old(self).grid@, c, Some(answer)) {
                        &&& final(self).grid@ == old(self).grid@.insert(c, with_value(old(self).grid@[c], Some(answer)))
                        &&& final(self).history@ == old(self).history@.take(old(self).history_index as int).push(
                            MoveRecord { coord: c, old: old(self).grid@[c].user_value },
                        )
                        &&& final(self).history_index == old(self).history_index + 1
                    } else {
                        &&& final(self).grid@ == old(self).grid@
                        &&& final(self).history == old(self).history
                        &&& final(self).history_index == old(self).history_index
                    },
                    None => {
                        &&& final(self).grid@ == old(self).grid@
                        &&& final(self).history == old(self).history
                        &&& final(self).history_index == old(self).history_index
                    },
                }
            }),
    {
        if let Some(coord) = self.selected {
            if let Some(answer) = self.solution.get(&coord) {
                self.set_value(coord, Some(answer));
            }
        }
    }

    /// Takes back the last move that is not undone yet: its cell gets back the value it
    /// held before.
    pub fn undo(&mut self)
        requires
            old(self).wf(),
        ensures
            same_setup(*old(self), *final(self)),
            final(self).wf(),
            final(self).history == old(self).history,
            final(self).solution == old(self).solution,
            final(self).selected == old(self).selected,
            final(self).completed == old(self).completed,
            old(self).history_index == 0 ==> final(self).grid@ == old(self).grid@ && final(self).history_index == 0,
            old(self).history_index > 0 ==> {
                let record = old(self).history@[old(self).history_index - 1];
                &&& final(self).history_index == old(self).history_index - 1
                &&& final(self).grid@ == (if old(self).grid@.dom().contains(record.coord) {
                    old(self).grid@.insert(record.coord, with_value(old(self).grid@[record.coord], record.old))
                } else {
                    old(self).grid@
                })
            },
    {
        if self.history_index == 0 {
            return;
        }
        self.history_index = self.history_index - 1;
        let record = self.history[self.history_index];
        let ghost g0 = self.grid@;
        match self.grid.get_mut(&record.coord) {
            Some(cell) => {
                cell.user_value = record.old;
            },
            None => {},
        }
        proof {
            if g0.dom().contains(record.coord) {
                assert(self.grid@ =~= g0.insert(record.coord, with_value(g0[record.coord], record.old)));
            }
        }
    }

    /// Gives up: every cell that is not given gets the solution's value, and the game is
    /// completed.
    pub fn give_up(&mut self)
        requires
            old(self).wf(),
        ensures
            same_setup(*old(self), *final(self)),
            final(self).wf(),
            final(self).grid@ == given_up(old(self).grid@, old(self).solution@),
            final(self).completed,
            final(self).solution == old(self).solution,
            final(self).history == old(self).history,
            final(self).history_index == old(self).history_index,
    {
        let ghost g0 = self.grid@;
        let mut i: usize = 0;
        while i < 729
            invariant
                self.wf(),
                i <= 729,
                self.grid@.dom() == g0.dom(),
                g0 == old(self).grid@,
                same_setup(*old(self), *self),
                self.solution == old(self).solution,
                self.history == old(self).history,
                self.history_index == old(self).history_index,
                forall|c: CubeCoord|
                    #[trigger] g0.dom().contains(c) ==> self.grid@[c] == (if c.slot() < i && !g0[c].given {
                        with_value(g0[c], lookup(self.solution@, c))
                    } else {
                        g0[c]
                    }),
            decreases 729 - i,
        {
            let c = coord_from_slot(i);
            let answer = self.solution.get(&c);
            let ghost before = self.grid@;
            match self.grid.get_mut(&c) {
                Some(cell) => {
                    if !cell.given {
                        cell.user_value = answer;
                    }
                },
                None => {},
            }
            proof {
                assert forall|d: CubeCoord| #[trigger] g0.dom().contains(d) implies self.grid@[d] == (if d.slot() < i + 1 && !g0[d].given {
                    with_value(g0[d], lookup(self.solution@, d))
                } else {
                    g0[d]
                }) by {
                    crate::cube::lemma_slot_bijection(d, i as int);
                    if d == c {
                    } else {
                        assert(d.slot() != i);
                    }
                }
                assert(self.grid@.dom() =~= g0.dom());
            }
            i = i + 1;
        }
        proof {
            assert forall|c: CubeCoord| #[trigger] g0.dom().contains(c) implies c.slot() < 729 by {
                crate::cube::lemma_slot_bijection(c, 0);
            }
            assert(self.grid@ =~= given_up(g0, self.solution@));
        }
        self.completed = true;
    }

    /// Marks the game completed when it was not yet and the board is full and correct;
    /// says whether it did.
    pub fn check_completion(&mut self) -> (r: bool)
        requires
            old(self).wf(),
        ensures
            same_setup(*old(self), *final(self)),
            final(self).wf(),
            r == (!old(self).completed && solved(old(self).grid@)),
            final(self).completed == (old(self).completed || r),
            final(self).solution == old(self).solution,
            final(self).selected == old(self).selected,
            final(self).grid@ == old(self).grid@,
            final(self).history == old(self).history,
            final(self).history_index == old(self).history_index,
    {
        if !self.completed && self.grid.is_complete() && self.grid.is_filled_correctly() {
            self.completed = true;
            true
        } else {
            false
        }
    }
}

/// Undoing a move that changed a cell gives back the board as it was before the move.
pub proof fn lemma_undo_restores(grid: Map<CubeCoord, Cell>, coord: CubeCoord, value: Option<u8>)
    requires
        changes(grid, coord, value),
    ensures
        ({
            let after = grid.insert(coord, with_value(grid[coord], value));
            after.insert(coord, with_value(after[coord], grid[coord].user_value)) == grid
        }),
{
    let after = grid.insert(coord, with_value(grid[coord], value));
    assert(with_value(after[coord], grid[coord].user_value) == grid[coord]);
    assert(after.insert(coord, with_value(after[coord], grid[coord].user_value)) =~= grid);
}

} // verus!
