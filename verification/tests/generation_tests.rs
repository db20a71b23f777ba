use rand::rngs::StdRng;
use rand::seq::SliceRandom;
use rand::SeedableRng;
use sudokube::cube::{iter_surface_coords, CubeCoord, Difficulty, Face};
use sudokube::digits::{CoordSet, DigitMap};
use sudokube::grid::CubeGrid;
use sudokube::puzzle::{count_solutions, generate_puzzle, puzzle_in_order};
use sudokube::wfc::{face_grid, find_empty, is_partial_valid, is_safe, solve_sudoku, verify_solution, WfcGenerator};

fn solved_cube(seed: u64) -> DigitMap {
    let mut rng = StdRng::seed_from_u64(seed);
    let mut generator = WfcGenerator::new();
    generator.generate(&mut rng).expect("should generate a solution")
}

#[test]
fn generate_and_verify() {
    let mut rng = StdRng::seed_from_u64(7);
    let mut generator = WfcGenerator::new();
    let solution = generator.generate(&mut rng).expect("should generate a solution");
    assert!(verify_solution(&solution));
}

#[test]
fn generated_solution_fills_the_surface_with_digits() {
    let solution = solved_cube(7);
    let mut n = 0;
    for c in iter_surface_coords() {
        let v = solution.get(&c).expect("every surface cell is solved");
        assert!((1..=9).contains(&v));
        n += 1;
    }
    assert_eq!(n, 386);
    assert_eq!(solution.get(&CubeCoord { x: 4, y: 4, z: 4 }), None);
}

#[test]
fn a_changed_digit_breaks_the_solution() {
    let mut solution = solved_cube(11);
    let c = CubeCoord { x: 8, y: 4, z: 4 };
    let v = solution.get(&c).unwrap();
    solution.insert(c, if v == 9 { 1 } else { v + 1 });
    assert!(!verify_solution(&solution));
    assert!(!verify_solution(&DigitMap::new()));
}

#[test]
fn solving_an_empty_face() {
    let mut rng = StdRng::seed_from_u64(3);
    let mut grid = [[0u8; 9]; 9];
    assert!(find_empty(&grid) == Some((0, 0)));
    assert!(solve_sudoku(&mut grid, &mut rng));
    assert!(find_empty(&grid).is_none());
    assert!(is_partial_valid(&grid));
    for row in grid.iter() {
        let mut seen = [false; 10];
        for &v in row.iter() {
            assert!((1..=9).contains(&v));
            assert!(!seen[v as usize]);
            seen[v as usize] = true;
        }
    }
}

#[test]
fn safety_and_validity_of_a_face() {
    let mut grid = [[0u8; 9]; 9];
    grid[0][0] = 5;
    assert!(!is_safe(&grid, 0, 8, 5));
    assert!(!is_safe(&grid, 8, 0, 5));
    assert!(!is_safe(&grid, 2, 2, 5));
    assert!(is_safe(&grid, 4, 4, 5));
    grid[0][3] = 5;
    assert!(!is_partial_valid(&grid));
}

#[test]
fn faces_of_a_solution_read_as_sudoku_grids() {
    let solution = solved_cube(5);
    let g = face_grid(Face::Top, &solution);
    assert!(find_empty(&g).is_none());
    assert!(is_partial_valid(&g));
}

#[test]
fn a_full_solution_has_exactly_one_completion() {
    let solution = solved_cube(13);
    assert_eq!(count_solutions(&solution, 2), 1);
    assert_eq!(count_solutions(&solution, 0), 1);
}

#[test]
fn a_few_holes_keep_one_completion() {
    let solution = solved_cube(17);
    let mut partial = solution;
    let holes = [
        CubeCoord { x: 8, y: 4, z: 4 },
        CubeCoord { x: 0, y: 2, z: 6 },
        CubeCoord { x: 3, y: 8, z: 1 },
    ];
    for h in holes.iter() {
        partial.remove(h);
    }
    assert_eq!(count_solutions(&partial, 2), 1);
}

#[test]
fn a_conflicting_partial_has_no_completion() {
    let mut partial = DigitMap::new();
    partial.insert(CubeCoord { x: 8, y: 4, z: 4 }, 3);
    partial.insert(CubeCoord { x: 8, y: 4, z: 5 }, 3);
    assert_eq!(count_solutions(&partial, 2), 0);
}

#[test]
fn a_generated_puzzle_keeps_the_answers_and_hides_at_most_the_target() {
    let solution = solved_cube(19);
    let mut rng = StdRng::seed_from_u64(23);
    let grid: CubeGrid = generate_puzzle(&solution, Difficulty::Easy, &mut rng);
    let mut hidden = 0;
    let mut givens = DigitMap::new();
    for c in iter_surface_coords() {
        let cell = grid.get(&c).expect("every surface cell has a cell");
        assert_eq!(cell.answer, solution.get(&c).unwrap());
        if cell.given {
            assert_eq!(cell.user_value, Some(cell.answer));
            givens.insert(c, cell.answer);
        } else {
            assert_eq!(cell.user_value, None);
            hidden += 1;
        }
    }
    assert!(hidden <= 100);
    assert!(hidden > 0);
    assert_eq!(count_solutions(&givens, 2), 1);
}

#[test]
fn a_grid_from_a_solution_shows_the_given_cells() {
    let mut solution = DigitMap::new();
    for c in iter_surface_coords() {
        solution.insert(c, 1);
    }
    let mut given = CoordSet::new();
    let c = CubeCoord { x: 0, y: 0, z: 0 };
    given.insert(c);
    let grid = CubeGrid::from_solution(solution, &given);
    assert!(grid.get(&c).unwrap().given);
    assert!(!grid.get(&CubeCoord { x: 8, y: 8, z: 8 }).unwrap().given);
    assert!(!grid.is_complete());
    assert!(!grid.is_filled_correctly());
}

#[test]
fn an_open_face_has_more_than_one_completion() {
    let solution = solved_cube(13);
    let mut partial = DigitMap::new();
    for c in iter_surface_coords() {
        let inner = c.z == 8 && (1..8).contains(&c.x) && (1..8).contains(&c.y);
        if !inner {
            partial.insert(c, solution.get(&c).unwrap());
        }
    }
    assert_eq!(count_solutions(&partial, 2), 2);
    assert_eq!(count_solutions(&partial, 5), 5);
    assert_eq!(count_solutions(&partial, 1), 1);
}

#[test]
fn a_puzzle_in_surface_order_hides_greedily() {
    let solution = solved_cube(19);
    let mut order = iter_surface_coords();
    order.shuffle(&mut StdRng::seed_from_u64(23));
    let grid = puzzle_in_order(&solution, &order, Difficulty::Easy);
    let mut givens = DigitMap::new();
    let mut given_cells = Vec::new();
    for c in iter_surface_coords() {
        let cell = grid.get(&c).unwrap();
        if cell.given {
            givens.insert(c, cell.answer);
            given_cells.push(c);
        }
    }
    assert_eq!(count_solutions(&givens, 2), 1);
    let hidden = 386 - given_cells.len();
    if hidden < 100 {
        // no given cell can be hidden without a second completion
        for c in given_cells.iter().take(2) {
            let mut fewer = givens;
            fewer.remove(c);
            assert_eq!(count_solutions(&fewer, 2), 2);
        }
    } else {
        assert_eq!(hidden, 100);
    }
}
