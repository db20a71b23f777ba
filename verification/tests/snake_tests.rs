use sudokube::cube::{iter_surface_coords, CubeCoord, Face};
use sudokube::digits::{CoordSet, DigitMap};
use sudokube::grid::CubeGrid;
use sudokube::i18n::Lang;
use sudokube::shop::{end_snake_game, jump_cursor_to, start_snake_game, SnakeOutcome, SnakeState};

fn board(all_given: bool) -> CubeGrid {
    let mut solution = DigitMap::new();
    let mut given = CoordSet::new();
    for c in iter_surface_coords() {
        solution.insert(c, 1);
        if all_given {
            given.insert(c);
        }
    }
    CubeGrid::from_solution(solution, &given)
}

#[test]
fn no_snake_game_on_a_full_board() {
    assert!(start_snake_game(&board(true), Face::Front, 3, 99).is_none());
}

#[test]
fn a_snake_game_starts_in_the_middle_of_the_face() {
    let st = start_snake_game(&board(false), Face::Front, 3, 12345).unwrap();
    assert_eq!(st.body.len(), 6);
    assert_eq!(st.body[0], (Face::Front, 4, 4));
    assert_eq!(st.body[5], (Face::Front, 0, 4));
    assert_eq!(st.dir, (1, 0));
    assert!(st.fruits.len() >= 1 && st.fruits.len() <= 3);
    assert!(st.walls.len() <= 3);
    for f in st.fruits.iter() {
        assert!(!st.walls.contains(f));
        assert!(!st.body.contains(f));
    }
    assert_eq!(st.outcome, SnakeOutcome::Running);
    assert_eq!(st.total_fruits, 3);
}

fn fixed_snake() -> SnakeState {
    SnakeState {
        body: vec![(Face::Front, 4, 4), (Face::Front, 3, 4)],
        dir: (1, 0),
        fruits: vec![(Face::Front, 5, 4), (Face::Top, 0, 0)],
        walls: vec![(Face::Front, 7, 4)],
        outcome: SnakeOutcome::Running,
        score: 0,
        total_fruits: 2,
    }
}

#[test]
fn the_snake_eats_grows_and_hits_walls() {
    let mut st = fixed_snake();
    let m = st.advance(false).unwrap();
    assert!(m.ate);
    assert_eq!(m.head, (Face::Front, 5, 4));
    assert_eq!(st.body, vec![(Face::Front, 5, 4), (Face::Front, 4, 4), (Face::Front, 3, 4)]);
    assert_eq!(st.score, 1);
    assert_eq!(st.fruits, vec![(Face::Top, 0, 0)]);
    let m = st.advance(false).unwrap();
    assert!(!m.ate);
    assert_eq!(st.body, vec![(Face::Front, 6, 4), (Face::Front, 5, 4), (Face::Front, 4, 4)]);
    assert!(st.advance(false).is_none());
    assert_eq!(st.outcome, SnakeOutcome::Lost);
    assert!(st.advance(false).is_none());
}

#[test]
fn eating_the_last_fruit_wins_and_time_out_loses() {
    let mut st = fixed_snake();
    st.fruits = vec![(Face::Front, 5, 4)];
    st.advance(false).unwrap();
    assert_eq!(st.outcome, SnakeOutcome::Won);
    let mut late = fixed_snake();
    late.advance(true).unwrap();
    assert_eq!(late.outcome, SnakeOutcome::Lost);
    let mut holder = Some(late);
    assert_eq!(end_snake_game(&mut holder, Lang::En), Some("???"));
    assert!(holder.is_none());
    assert_eq!(end_snake_game(&mut holder, Lang::En), None);
}

#[test]
fn crossing_an_edge() {
    let mut st = fixed_snake();
    st.body = vec![(Face::Front, 8, 4)];
    st.fruits = vec![];
    let m = st.advance(false).unwrap();
    assert_eq!(m.head, (Face::Right, 4, 8));
}

#[test]
fn the_cursor_jumps_to_a_face_showing_the_cell() {
    let corner = CubeCoord { x: 8, y: 8, z: 8 };
    let fc = jump_cursor_to(corner, Face::Front).unwrap();
    assert_eq!(fc.face, Face::Front);
    let fc = jump_cursor_to(corner, Face::Back).unwrap();
    assert_eq!(fc.face, Face::Right);
    assert!(jump_cursor_to(CubeCoord { x: 4, y: 4, z: 4 }, Face::Front).is_none());
}
