use rand::rngs::StdRng;
use rand::SeedableRng;
use sudokube::codec::{
    base64_decode, base64_encode, decrypt_payload, deserialize_grid_from, deserialize_solution_from, export_game,
    export_records, import_games, serialize_given, serialize_solution, xor_crypt, GameRecord,
};
use sudokube::cube::{iter_surface_coords, Difficulty};
use sudokube::digits::{CoordSet, DigitMap};
use sudokube::game_state::GameState;
use sudokube::grid::CubeGrid;
use sudokube::wfc::WfcGenerator;

fn game(seed: u64) -> (GameState, DigitMap) {
    let mut rng = StdRng::seed_from_u64(seed);
    let mut generator = WfcGenerator::new();
    let solution = generator.generate(&mut rng).unwrap();
    let mut given = CoordSet::new();
    for c in iter_surface_coords() {
        if c.y == 8 {
            given.insert(c);
        }
    }
    let grid = CubeGrid::from_solution(solution, &given);
    (GameState::new(grid, solution, Difficulty::Hard), solution)
}

#[test]
fn base64_known_values() {
    assert_eq!(base64_encode(b"Man"), "TWFu");
    assert_eq!(base64_encode(b"Ma"), "TWE=");
    assert_eq!(base64_encode(b"M"), "TQ==");
    assert_eq!(base64_encode(b""), "");
    assert_eq!(base64_encode(&[0xfb, 0xff]), "+/8=");
    assert_eq!(base64_decode("TWFu"), Some(b"Man".to_vec()));
    assert_eq!(base64_decode("TWE="), Some(b"Ma".to_vec()));
    assert_eq!(base64_decode("TQ=="), Some(b"M".to_vec()));
    assert_eq!(base64_decode("T"), Some(Vec::new()));
    assert_eq!(base64_decode("TW=E"), None);
    assert_eq!(base64_decode("T*Fu"), None);
}

#[test]
fn base64_round_trip_and_xor() {
    let data: Vec<u8> = (0..=255u8).collect();
    assert_eq!(base64_decode(&base64_encode(&data)), Some(data.clone()));
    let x = xor_crypt(&data);
    assert_eq!(x[0], 83);
    assert_eq!(x[12], 12 ^ 83);
    assert_eq!(xor_crypt(&x), data);
}

#[test]
fn payload_decryption() {
    let raw = "hello|世界";
    let payload = base64_encode(&xor_crypt(raw.as_bytes()));
    assert_eq!(decrypt_payload(&payload), Some(raw.to_string()));
    let bad = base64_encode(&xor_crypt(&[0xff, 0xfe]));
    assert_eq!(decrypt_payload(&bad), None);
    assert_eq!(decrypt_payload("%%"), None);
}

#[test]
fn solutions_round_trip_through_text() {
    let (_, solution) = game(31);
    let coords = iter_surface_coords();
    let text = serialize_solution(&solution, &coords);
    assert_eq!(text.chars().count(), 386);
    let back = deserialize_solution_from(&text, &coords);
    for c in coords.iter() {
        assert_eq!(back.get(c), solution.get(c));
    }
    let empty = deserialize_solution_from("000", &coords);
    assert_eq!(empty.get(&coords[0]), None);
    let short = deserialize_solution_from("7", &coords);
    assert_eq!(short.get(&coords[0]), Some(7));
    assert_eq!(short.get(&coords[1]), None);
}

#[test]
fn grids_round_trip_through_text() {
    let (mut game, solution) = game(37);
    let coords = iter_surface_coords();
    let free = coords.iter().copied().find(|c| !game.grid.get(c).unwrap().given).unwrap();
    game.set_value(free, Some(5));
    let puzzle = game.grid.serialize(&coords);
    let given = serialize_given(&game.grid, &coords);
    let grid = deserialize_grid_from(&puzzle, &given, &coords);
    for c in coords.iter() {
        let a = game.grid.get(c).unwrap();
        let b = grid.get(c).unwrap();
        assert_eq!(a.given, b.given);
        assert_eq!(a.user_value, b.user_value);
        if a.given {
            assert_eq!(b.answer, solution.get(c).unwrap());
        }
    }
    let f = grid.get(&free).unwrap();
    assert_eq!(f.answer, 5);
    let other = coords.iter().copied().filter(|c| !game.grid.get(c).unwrap().given).nth(1).unwrap();
    let g = grid.get(&other).unwrap();
    assert!(!g.given);
    assert_eq!(g.user_value, None);
    assert_eq!(g.answer, 1);
}

#[test]
fn exports_import_back() {
    let (game, _) = game(41);
    let coords = iter_surface_coords();
    let answer = serialize_solution(&game.solution, &coords);
    let puzzle = game.grid.serialize(&coords);
    let given = serialize_given(&game.grid, &coords);
    let plain = export_game(&game, false);
    assert!(plain.starts_with("SUDOKUBE|困难|"));
    let games = import_games(&plain).unwrap();
    assert_eq!(games, vec![("困难".to_string(), answer.clone(), puzzle.clone(), given.clone())]);
    let secret = export_game(&game, true);
    assert!(secret.starts_with("SUDOKUBE!"));
    let games = import_games(&format!("  {}\n", secret)).unwrap();
    assert_eq!(games, vec![("困难".to_string(), answer, puzzle, given)]);
}

#[test]
fn batch_imports_and_refusals() {
    let batch = "SUDOKUBES|2|简单|1|2|3|中等|4|5|6";
    let games = import_games(batch).unwrap();
    assert_eq!(games.len(), 2);
    assert_eq!(games[1], ("中等".to_string(), "4".to_string(), "5".to_string(), "6".to_string()));
    let secret = format!("SUDOKUBES!{}", base64_encode(&xor_crypt(batch.as_bytes())));
    assert_eq!(import_games(&secret).unwrap(), games);
    assert_eq!(import_games("SUDOKUBES|2|a|b|c|d"), None);
    assert_eq!(import_games("SUDOKUBES|x|a|b|c|d"), None);
    assert_eq!(import_games("SUDOKUBE|a|b|c"), None);
    assert_eq!(
        import_games("SUDOKUBE|a|b|c|d|e"),
        Some(vec![("a".to_string(), "b".to_string(), "c".to_string(), "d|e".to_string())])
    );
    assert_eq!(import_games("hello"), None);
    assert_eq!(import_games("SUDOKUBE!@@"), None);
    assert_eq!(import_games("SUDOKUBES|0"), Some(Vec::new()));
}

fn record(id: i64, difficulty: &str, answer: DigitMap, puzzle: DigitMap, given: DigitMap) -> GameRecord {
    GameRecord {
        id,
        started_at: "2024-05-01 10:00:00".to_string(),
        finished_at: None,
        elapsed_seconds: 12,
        difficulty: difficulty.to_string(),
        completed: false,
        answer,
        puzzle,
        given,
    }
}

#[test]
fn batch_exports_import_back() {
    let (_, first) = game(5);
    let (_, second) = game(6);
    let coords = iter_surface_coords();
    let mut given = DigitMap::new();
    let mut puzzle = DigitMap::new();
    given.insert(coords[0], first.get(&coords[0]).unwrap());
    puzzle.insert(coords[1], 7);
    let records = vec![
        record(1, "简单", first, puzzle, given),
        record(2, "困难", second, DigitMap::new(), DigitMap::new()),
    ];
    let plain = export_records(&records, false);
    assert!(plain.starts_with("SUDOKUBES|2|简单|"));
    let expected: Vec<(String, String, String, String)> = records
        .iter()
        .map(|r| {
            (
                r.difficulty.clone(),
                serialize_solution(&r.answer, &coords),
                serialize_solution(&r.puzzle, &coords),
                serialize_solution(&r.given, &coords),
            )
        })
        .collect();
    assert_eq!(expected[1].2, "0".repeat(386));
    assert_eq!(&expected[0].2[..3], "070");
    assert_eq!(import_games(&plain).unwrap(), expected);
    let secret = export_records(&records, true);
    assert!(secret.starts_with("SUDOKUBES!"));
    assert_eq!(import_games(&secret).unwrap(), expected);
    assert_eq!(export_records(&[], false), "SUDOKUBES|0");
    assert_eq!(import_games(&export_records(&[], true)), Some(Vec::new()));
}
