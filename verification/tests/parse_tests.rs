use game_of_life::life::Cell;
use game_of_life::life::Life;
use game_of_life::parse::parse;
use game_of_life::parse::MalformedInput;

fn must_parse(text: &str) -> Life {
    parse(text).expect("input should parse")
}

#[test]
fn parser_round_trip() {
    let life = must_parse("header\n.#.\n###\n.#.\n");
    assert_eq!(life.rows(), 3);
    assert_eq!(life.cols(), 3);
    let expected = [
        [Cell::Dead, Cell::Alive, Cell::Dead],
        [Cell::Alive, Cell::Alive, Cell::Alive],
        [Cell::Dead, Cell::Alive, Cell::Dead],
    ];
    for i in 0..3 {
        for j in 0..3 {
            assert_eq!(life.get(i, j), expected[i][j]);
        }
    }
}

#[test]
fn parser_accepts_input_without_trailing_newline() {
    let life = must_parse("header\n##\n..");
    assert_eq!(life.rows(), 2);
    assert_eq!(life.cols(), 2);
    assert_eq!(life.get(0, 0), Cell::Alive);
    assert_eq!(life.get(1, 1), Cell::Dead);
}

#[test]
fn non_hash_characters_are_dead() {
    let life = must_parse("header\nx o\n#.#\n");
    assert_eq!(life.get(0, 0), Cell::Dead);
    assert_eq!(life.get(0, 1), Cell::Dead);
    assert_eq!(life.get(0, 2), Cell::Dead);
    assert_eq!(life.get(1, 0), Cell::Alive);
    assert_eq!(life.get(1, 1), Cell::Dead);
    assert_eq!(life.get(1, 2), Cell::Alive);
}

#[test]
fn zero_data_lines_rejected() {
    assert_eq!(parse("header").err(), Some(MalformedInput));
    assert_eq!(parse("header\n").err(), Some(MalformedInput));
    assert_eq!(parse("").err(), Some(MalformedInput));
}

#[test]
fn unequal_row_lengths_rejected() {
    assert_eq!(parse("header\n..\n...\n").err(), Some(MalformedInput));
    assert_eq!(parse("header\n####\n##\n").err(), Some(MalformedInput));
}

#[test]
fn empty_data_rows_rejected() {
    assert_eq!(parse("header\n\n\n").err(), Some(MalformedInput));
}

#[test]
fn from_rows_accepts_rectangles_only() {
    let good = vec![vec![Cell::Alive, Cell::Dead], vec![Cell::Dead, Cell::Dead]];
    let life = Life::from_rows(good).expect("rectangular rows should build");
    assert_eq!(life.rows(), 2);
    assert_eq!(life.cols(), 2);
    assert_eq!(life.get(0, 0), Cell::Alive);
    assert_eq!(life.get(0, 1), Cell::Dead);

    assert!(Life::from_rows(vec![]).is_none());
    assert!(Life::from_rows(vec![vec![], vec![]]).is_none());
    let ragged = vec![vec![Cell::Dead], vec![Cell::Dead, Cell::Dead]];
    assert!(Life::from_rows(ragged).is_none());
}

#[test]
fn render_writes_hash_and_dot_rows() {
    let life = must_parse("header\n.#\n#.\n");
    assert_eq!(life.render(), ".#\n#.\n");
}

#[test]
fn render_round_trips_through_parse() {
    let life = must_parse("header\n..#.\n.##.\n#..#\n");
    let text = format!("header\n{}", life.render());
    let again = must_parse(&text);
    assert_eq!(again.rows(), life.rows());
    assert_eq!(again.cols(), life.cols());
    for i in 0..3 {
        for j in 0..4 {
            assert_eq!(again.get(i, j), life.get(i, j));
        }
    }
}
