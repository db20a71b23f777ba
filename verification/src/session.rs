//! Starting a game: a new one from a generated solution, or a stored one taken up again.

use rand::rngs::StdRng;
use vstd::prelude::*;

use crate::cube::{coord_from_slot, CubeCoord, Difficulty, Face};
use crate::codec::GameRecord;
use crate::digits::{CoordSet, DigitMap};
use crate::game_state::GameState;
use crate::grid::{Cell, CubeGrid};
use crate::puzzle::{at_most_one_completion, extends, generate_puzzle, given_cells, is_solution, restricted};
use crate::text::str_eq;
use crate::wfc::{solution_valid, WfcGenerator};

verus! {

/// A new game of `difficulty`: a generated solution and a puzzle made from it, whose given
/// cells the solution is the one completion of, with as many cells hidden as the difficulty
/// asks or no given cell left that could be hidden keeping one completion, and the middle
/// of the front face selected;
/// none when no solution could be generated.
pub fn new_game(difficulty: Difficulty, rng: &mut StdRng) -> (r: Option<GameState>)
    ensures
        r matches Some(g) ==> {
            &&& g.wf()
            &&& solution_valid(g.solution@)
            &&& is_solution(g.solution@)
            &&& extends(g.solution@, restricted(g.solution@, given_cells(g.grid@)))
            &&& at_most_one_completion(restricted(g.solution@, given_cells(g.grid@)))
            &&& given_cells(g.grid@).finite()
            &&& given_cells(g.grid@).len() + difficulty.spec_hidden_count() >= 386
            &&& exists|hidden: Seq<CubeCoord>|
                {
                    &&& hidden.no_duplicates()
                    &&& hidden.len() <= difficulty.spec_hidden_count()
                    &&& forall|c: CubeCoord| #[trigger] g.grid@.dom().contains(c) ==> (g.grid@[c].given <==> !hidden.contains(c))
                    &&& hidden.len() == difficulty.spec_hidden_count() || forall|c: CubeCoord|
                        #[trigger] given_cells(g.grid@).contains(c) ==> !at_most_one_completion(
                            restricted(g.solution@, given_cells(g.grid@).remove(c)),
                        )
                }
            &&& g.grid@.dom() == g.solution@.dom()
            &&& forall|c: CubeCoord| #[trigger] g.grid@.dom().contains(c) ==> g.grid@[c].is_fresh(g.solution@[c], g.grid@[c].given)
            &&& g.difficulty == difficulty
            &&& g.selected == Some(Face::Front.cube_at(4, 4))
            &&& g.history@.len() == 0
            &&& g.history_index == 0
            &&& !g.completed
        },
{
    let mut generator = WfcGenerator::new();
    let solution = match generator.generate(rng) {
        Some(s) => s,
        None => {
            return None;
        },
    };
    proof {
        crate::wfc::lemma_valid_is_solution(solution@);
    }
    let grid = generate_puzzle(&solution, difficulty, rng);
    let mut game = GameState::new(grid, solution, difficulty);
    game.selected = Some(Face::Front.to_cube(4, 4));
    Some(game)
}

/// The difficulty a stored game names: "简单" is easy, "困难" hard, anything else medium.
pub open spec fn stored_difficulty(name: Seq<char>) -> Difficulty {
    if name == "简单"@ {
        Difficulty::Easy
    } else if name == "困难"@ {
        Difficulty::Hard
    } else {
        Difficulty::Medium
    }
}

/// The cell a stored game gives `c`: fresh for its answer, shown when given, and holding
/// the stored player's value when it is not given.
pub open spec fn restored_cell(c: Cell, answer: u8, given: bool, value: Option<u8>) -> bool {
    &&& c.answer == answer
    &&& c.given == given
    &&& c.user_value == (if given {
        Some(answer)
    } else {
        value
    })
    &&& c.draft@ == Set::<u8>::empty()
    &&& c.draft_visible
}

/// The game of solution `answer` with the `given` cells shown and the player's values of
/// `puzzle` in the others; its difficulty by name, its number, the seconds played so far,
/// and the middle of the front face selected.
fn restore_game(
    answer: DigitMap,
    puzzle: &DigitMap,
    given: &CoordSet,
    difficulty: &str,
    id: i64,
    elapsed_seconds: u64,
) -> (r: GameState)
    ensures
        r.wf(),
        r.solution@ == answer@,
        r.grid@.dom() == answer@.dom(),
        forall|c: CubeCoord| #[trigger] r.grid@.dom().contains(c) ==> restored_cell(
            r.grid@[c],
            answer@[c],
            given@.contains(c),
            crate::digits::lookup(puzzle@, c),
        ),
        r.difficulty == stored_difficulty(difficulty@),
        r.id == Some(id),
        r.elapsed_seconds == elapsed_seconds,
        r.selected == Some(Face::Front.cube_at(4, 4)),
        r.history@.len() == 0,
        r.history_index == 0,
        !r.completed,
{
    let level = if str_eq(difficulty, "简单") {
        Difficulty::Easy
    } else if str_eq(difficulty, "困难") {
        Difficulty::Hard
    } else {
        Difficulty::Medium
    };
    let mut grid = CubeGrid::from_solution(answer, given);
    let ghost g0 = grid@;
    let mut i: usize = 0;
    while i < 729
        invariant
            grid.wf(),
            i <= 729,
            grid@.dom() == g0.dom(),
            g0.dom() == answer@.dom(),
            forall|c: CubeCoord| #[trigger] g0.dom().contains(c) ==> g0[c].is_fresh(answer@[c], given@.contains(c)),
            forall|c: CubeCoord| #[trigger] g0.dom().contains(c) ==> restored_cell(
                grid@[c],
                answer@[c],
                given@.contains(c),
                if c.slot() < i && !given@.contains(c) {
                    crate::digits::lookup(puzzle@, c)
                } else {
                    None
                },
            ),
        decreases 729 - i,
    {
        let c = coord_from_slot(i);
        let stored = puzzle.get(&c);
        let shown = given.contains(&c);
        if !shown {
            if let Some(v) = stored {
                match grid.get_mut(&c) {
                    Some(cell) => {
                        cell.user_value = Some(v);
                    },
                    None => {},
                }
            }
        }
        proof {
            assert forall|d: CubeCoord| #[trigger] g0.dom().contains(d) implies restored_cell(
                grid@[d],
                answer@[d],
                given@.contains(d),
                if d.slot() < i + 1 && !given@.contains(d) {
                    crate::digits::lookup(puzzle@, d)
                } else {
                    None
                },
            ) by {
                crate::cube::lemma_slot_bijection(d, i as int);
                if d != c {
                    assert(d.slot() != i);
                }
            }
            assert(grid@.dom() =~= g0.dom());
        }
        i = i + 1;
    }
    proof {
        assert forall|c: CubeCoord| #[trigger] g0.dom().contains(c) implies c.slot() < 729 by {
            crate::cube::lemma_slot_bijection(c, 0);
        }
    }
    let mut game = GameState::new(grid, answer, level);
    game.id = Some(id);
    game.elapsed_seconds = elapsed_seconds;
    game.selected = Some(Face::Front.to_cube(4, 4));
    game
}

/// Takes up a stored game: the board of its answer with the given cells shown and the
/// stored player's values in the others; its difficulty by name, its number, the seconds
/// played so far, and the middle of the front face selected.
pub fn continue_game(record: &GameRecord) -> (r: GameState)
    ensures
        r.wf(),
        r.solution@ == record.answer@,
        r.grid@.dom() == record.answer@.dom(),
        forall|c: CubeCoord| #[trigger] r.grid@.dom().contains(c) ==> restored_cell(
            r.grid@[c],
            record.answer@[c],
            record.given@.dom().contains(c),
            crate::digits::lookup(record.puzzle@, c),
        ),
        r.difficulty == stored_difficulty(record.difficulty@),
        r.id == Some(record.id),
        r.elapsed_seconds == record.elapsed_seconds as u64,
        r.selected == Some(Face::Front.cube_at(4, 4)),
        r.history@.len() == 0,
        r.history_index == 0,
        !r.completed,
{
    let given = record.given.key_set();
    restore_game(
        record.answer,
        &record.puzzle,
        &given,
        record.difficulty.as_str(),
        record.id,
        record.elapsed_seconds as u64,
    )
}

} // verus!
