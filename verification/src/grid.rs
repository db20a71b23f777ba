//! The playing grid: one cell per surface coordinate, with answer, given flag,
//! the player's value and draft marks.

use std::collections::BTreeSet;
use vstd::prelude::*;

use crate::cube::{coord_from_slot, slot_of, CubeCoord};
use crate::digits::{lookup, CoordSet, DigitMap};
use crate::text::{digit_char, digit_to_char, push_char};

verus! {

/// A cell of the game.
#[derive(Debug, Clone)]
pub struct Cell {
    pub answer: u8,
    pub given: bool,
    pub user_value: Option<u8>,
    /// Draft marks (1-9), kept ordered.
    pub draft: BTreeSet<u8>,
    /// Whether the draft marks are shown (hidden when draft mode is off, shown again on erase).
    pub draft_visible: bool,
}

impl Cell {
    /// A cell as it starts a game: a given cell shows its answer, other cells are empty,
    /// with no draft marks, drafts visible.
    pub open spec fn is_fresh(self, answer: u8, given: bool) -> bool {
        &&& self.answer == answer
        &&& self.given == given
        &&& self.user_value == (if given {
            Some(answer)
        } else {
            None
        })
        &&& self.draft@ == Set::<u8>::empty()
        &&& self.draft_visible
    }

    /// The player's value is the answer.
    pub open spec fn spec_is_correct(self) -> bool {
        self.user_value == Some(self.answer)
    }

    pub fn new(answer: u8, given: bool) -> (r: Self)
        ensures
            r.is_fresh(answer, given),
    {
        Self {
            answer,
            given,
            user_value: if given {
                Some(answer)
            } else {
                None
            },
            draft: BTreeSet::new(),
            draft_visible: true,
        }
    }

    pub fn is_correct(&self) -> (r: bool)
        ensures
            r == self.spec_is_correct(),
    {
        match self.user_value {
            Some(v) => v == self.answer,
            None => false,
        }
    }

    /// Toggles draft mark `n`: removes it when present, adds it otherwise.
    pub fn toggle_draft(&mut self, n: u8)
        ensures
            final(self).draft@ == (if old(self).draft@.contains(n) {
                old(self).draft@.remove(n)
            } else {
                old(self).draft@.insert(n)
            }),
            final(self).answer == old(self).answer,
            final(self).given == old(self).given,
            final(self).user_value == old(self).user_value,
            final(self).draft_visible == old(self).draft_visible,
    {
        if self.draft.contains(&n) {
            self.draft.remove(&n);
        } else {
            self.draft.insert(n);
        }
    }

    /// Erases draft mark `n`; when a mark was erased the drafts become visible.
    pub fn erase_draft(&mut self, n: u8)
        ensures
            final(self).draft@ == old(self).draft@.remove(n),
            final(self).draft_visible == (old(self).draft_visible || old(self).draft@.contains(n)),
            final(self).answer == old(self).answer,
            final(self).given == old(self).given,
            final(self).user_value == old(self).user_value,
    {
        if self.draft.remove(&n) {
            self.draft_visible = true;
        }
    }
}

/// The board of a game: the cells of the surface, indexed by coordinate.
pub struct CubeGrid {
    /// One optional cell per lattice slot (`x * 81 + y * 9 + z`).
    pub cells: Vec<Option<Cell>>,
}

impl CubeGrid {
    /// The cell table covers the 9×9×9 box.
    pub open spec fn wf(&self) -> bool {
        self.cells@.len() == 729
    }

    /// The cells of the board, by coordinate.
    pub open spec fn view(&self) -> Map<CubeCoord, Cell> {
        Map::new(
            |c: CubeCoord| c.in_box() && self.cells@[c.slot()] is Some,
            |c: CubeCoord| self.cells@[c.slot()]->0,
        )
    }

    /// A board without cells.
    pub fn empty() -> (r: Self)
        ensures
            r.wf(),
            r@ == Map::<CubeCoord, Cell>::empty(),
    {
        let mut cells: Vec<Option<Cell>> = Vec::with_capacity(729);
        for i in 0..729usize
            invariant
                cells@.len() == i,
                forall|k: int| 0 <= k < i ==> cells@[k] is None,
        {
            cells.push(None);
        }
        let r = CubeGrid { cells };
        assert(r@ =~= Map::<CubeCoord, Cell>::empty());
        r
    }

    /// A fresh board for a solution: one cell per solved coordinate, holding its answer,
    /// shown when the coordinate is among `given`.
    pub fn from_solution(solution: DigitMap, given: &CoordSet) -> (r: Self)
        ensures
            r.wf(),
            r@.dom() == solution@.dom(),
            forall|c: CubeCoord|
                #[trigger] r@.dom().contains(c) ==> r@[c].is_fresh(solution@[c], given@.contains(c)),
    {
        let mut cells: Vec<Option<Cell>> = Vec::with_capacity(729);
        for i in 0..729usize
            invariant
                cells@.len() == i,
                forall|k: int|
                    0 <= k < i ==> match #[trigger] cells@[k] {
                        Some(cell) => lookup(solution@, crate::cube::coord_at_slot(k)) == Some(
                            cell.answer,
                        ) && cell.is_fresh(
                            cell.answer,
                            given@.contains(crate::cube::coord_at_slot(k)),
                        ),
                        None => lookup(solution@, crate::cube::coord_at_slot(k)) is None,
                    },
        {
            let c = coord_from_slot(i);
            match solution.get(&c) {
                Some(answer) => {
                    let is_given = given.contains(&c);
                    cells.push(Some(Cell::new(answer, is_given)));
                },
                None => {
                    cells.push(None);
                },
            }
        }
        let r = CubeGrid { cells };
        proof {
            assert forall|c: CubeCoord| r@.dom().contains(c) <==> solution@.dom().contains(c) by {
                crate::digits::lemma_solution_keys_in_box(solution, c);
                if c.in_box() {
                    crate::cube::lemma_slot_bijection(c, 0);
                    assert(cells@[c.slot()] == r.cells@[c.slot()]);
                }
            }
            assert(r@.dom() =~= solution@.dom());
            assert forall|c: CubeCoord| #[trigger] r@.dom().contains(c) implies r@[c].is_fresh(
                solution@[c],
                given@.contains(c),
            ) by {
                crate::cube::lemma_slot_bijection(c, 0);
            }
        }
        r
    }

    /// The cell at `coord`, if the board has one.
    pub fn get(&self, coord: &CubeCoord) -> (r: Option<&Cell>)
        requires
            self.wf(),
        ensures
            match r {
                Some(cell) => self@.dom().contains(*coord) && *cell == self@[*coord],
                None => !self@.dom().contains(*coord),
            },
    {
        if coord.x < 9 && coord.y < 9 && coord.z < 9 {
            self.cells[slot_of(*coord)].as_ref()
        } else {
            None
        }
    }

    /// Mutable access to the cell at `coord`, if the board has one.
    pub fn get_mut(&mut self, coord: &CubeCoord) -> (r: Option<&mut Cell>)
        requires
            old(self).wf(),
        ensures
            final(self).wf(),
            match r {
                Some(cell) => old(self)@.dom().contains(*coord) && *cell == old(self)@[*coord]
                    && final(self)@ == old(self)@.insert(*coord, *final(cell)),
                None => !old(self)@.dom().contains(*coord) && final(self)@ == old(self)@,
            },
    {
        if coord.x < 9 && coord.y < 9 && coord.z < 9 {
            let i = slot_of(*coord);
            let r = self.cells[i].as_mut();
            r
        } else {
            None
        }
    }

    /// Every cell holds its answer.
    pub fn is_filled_correctly(&self) -> (r: bool)
        requires
            self.wf(),
        ensures
            r == (forall|c: CubeCoord| #[trigger] self@.dom().contains(c) ==> self@[c].spec_is_correct()),
    {
        let mut i: usize = 0;
        while i < 729
            invariant
                self.wf(),
                i <= 729,
                forall|k: int| 0 <= k < i ==> match #[trigger] self.cells@[k] {
                    Some(cell) => cell.spec_is_correct(),
                    None => true,
                },
            decreases 729 - i,
        {
            if let Some(cell) = &self.cells[i] {
                if !cell.is_correct() {
                    proof {
                        let c = crate::cube::coord_at_slot(i as int);
                        crate::cube::lemma_slot_bijection(c, i as int);
                        assert(self@.dom().contains(c));
                    }
                    return false;
                }
            }
            i += 1;
        }
        proof {
            assert forall|c: CubeCoord| #[trigger] self@.dom().contains(c) implies self@[c].spec_is_correct() by {
                crate::cube::lemma_slot_bijection(c, 0);
            }
        }
        true
    }

    /// Every cell holds a value.
    pub fn is_complete(&self) -> (r: bool)
        requires
            self.wf(),
        ensures
            r == (forall|c: CubeCoord| #[trigger] self@.dom().contains(c) ==> self@[c].user_value is Some),
    {
        let mut i: usize = 0;
        while i < 729
            invariant
                self.wf(),
                i <= 729,
                forall|k: int| 0 <= k < i ==> match #[trigger] self.cells@[k] {
                    Some(cell) => cell.user_value is Some,
                    None => true,
                },
            decreases 729 - i,
        {
            if let Some(cell) = &self.cells[i] {
                if cell.user_value.is_none() {
                    proof {
                        let c = crate::cube::coord_at_slot(i as int);
                        crate::cube::lemma_slot_bijection(c, i as int);
                        assert(self@.dom().contains(c));
                    }
                    return false;
                }
            }
            i += 1;
        }
        proof {
            assert forall|c: CubeCoord| #[trigger] self@.dom().contains(c) implies self@[c].user_value is Some by {
                crate::cube::lemma_slot_bijection(c, 0);
            }
        }
        true
    }

    /// The save-format character of `coord`: the player's value as a digit, `'0'` when
    /// the cell is empty or missing.
    pub open spec fn char_at(&self, coord: CubeCoord) -> char {
        if self@.dom().contains(coord) && self@[coord].user_value is Some {
            digit_char(self@[coord].user_value->0)
        } else {
            '0'
        }
    }

    /// The player's values at `coords`, in order, as digit characters (`'0'` for none).
    pub fn serialize(&self, coords: &[CubeCoord]) -> (r: String)
        requires
            self.wf(),
            forall|i: int|
                0 <= i < coords@.len() && self@.dom().contains(#[trigger] coords@[i])
                    && self@[coords@[i]].user_value is Some ==> self@[coords@[i]].user_value->0 < 208,
        ensures
            r@ == Seq::new(coords@.len(), |i: int| self.char_at(coords@[i])),
    {
        let mut r = String::new();
        for i in 0..coords.len()
            invariant
                self.wf(),
                forall|i: int|
                    0 <= i < coords@.len() && self@.dom().contains(#[trigger] coords@[i])
                        && self@[coords@[i]].user_value is Some ==> self@[coords@[i]].user_value->0 < 208,
                r@ == Seq::new(i as nat, |k: int| self.char_at(coords@[k])),
        {
            let c = coords[i];
            let ch = match self.get(&c) {
                Some(cell) => match cell.user_value {
                    Some(v) => digit_to_char(v),
                    None => '0',
                },
                None => '0',
            };
            push_char(&mut r, ch);
            assert(r@ =~= Seq::new((i + 1) as nat, |k: int| self.char_at(coords@[k])));
        }
        r
    }
}

} // verus!
