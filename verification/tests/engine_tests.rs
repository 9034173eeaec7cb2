use game_of_life::life::Cell;
use game_of_life::life::Life;
use game_of_life::parse::parse;

fn must_parse(text: &str) -> Life {
    parse(text).expect("input should parse")
}

fn cells(life: &Life) -> Vec<Vec<Cell>> {
    let mut out = Vec::new();
    for i in 0..life.rows() {
        let mut row = Vec::new();
        for j in 0..life.cols() {
            row.push(life.get(i, j));
        }
        out.push(row);
    }
    out
}

#[test]
fn add_offsets_with_overflow_reported() {
    assert_eq!(Life::add(5, -3), Some(2));
    assert_eq!(Life::add(7, 0), Some(7));
    assert_eq!(Life::add(0, 1), Some(1));
    assert_eq!(Life::add(0, -1), None);
    assert_eq!(Life::add(usize::MAX, 1), None);
}

#[test]
fn neighbor_count_stays_within_bounds() {
    let life = must_parse("header\n###\n###\n###\n");
    for i in 0..3 {
        for j in 0..3 {
            assert!(life.live_neighbor_count(i, j) <= 8);
        }
    }
    // An interior cell sees all 8 true neighbors.
    assert_eq!(life.live_neighbor_count(1, 1), 8);
    // At a corner, clamping doubles the two orthogonal neighbors:
    // (0,1) and (1,0) are each reached twice, (1,1) once.
    assert_eq!(life.live_neighbor_count(0, 0), 5);
    // At an edge, one neighbor pair is doubled the same way.
    assert_eq!(life.live_neighbor_count(0, 1), 7);
}

#[test]
fn dimensions_survive_advancing() {
    let mut life = must_parse("header\n..#..#.\n.##.#..\n#..#..#\n");
    for _ in 0..5 {
        life.next();
        assert_eq!(life.rows(), 3);
        assert_eq!(life.cols(), 7);
    }
}

#[test]
fn advancing_is_deterministic() {
    let text = "header\n..#..\n.###.\n#...#\n.#.#.\n";
    let mut a = must_parse(text);
    let mut b = must_parse(text);
    for _ in 0..3 {
        a.next();
        b.next();
        assert_eq!(cells(&a), cells(&b));
    }
}

#[test]
fn all_dead_grid_stays_dead() {
    let mut life = must_parse("header\n....\n....\n....\n....\n");
    life.next();
    for i in 0..4 {
        for j in 0..4 {
            assert_eq!(life.get(i, j), Cell::Dead);
        }
    }
}

#[test]
fn block_is_a_still_life() {
    let mut life = must_parse("header\n....\n.##.\n.##.\n....\n");
    let before = cells(&life);
    life.next();
    assert_eq!(cells(&life), before);
}

#[test]
fn lone_cells_starve() {
    // One live cell has no live neighbors; a distant pair gives each
    // member at most one.  All die, and nothing is born.
    let mut life = must_parse("header\n#....\n.....\n..#..\n.....\n.....\n");
    life.next();
    for i in 0..5 {
        for j in 0..5 {
            assert_eq!(life.get(i, j), Cell::Dead);
        }
    }
}

#[test]
fn birth_on_exactly_three_neighbors() {
    // Interior cells, away from any clamping: (2,2) is Dead with the three
    // neighbors (1,1), (1,2) and (1,3); (3,2) is Dead with only (2,2)...
    let mut life = must_parse("header\n.....\n.###.\n.....\n.....\n.....\n");
    life.next();
    // Born: exactly 3 live neighbors.
    assert_eq!(life.get(2, 2), Cell::Alive);
    // Not born: (2,1) saw only 2 live neighbors.
    assert_eq!(life.get(2, 1), Cell::Dead);
    // Not born: (2,4) saw none.
    assert_eq!(life.get(2, 4), Cell::Dead);
}

#[test]
fn survival_on_two_or_three_neighbors() {
    // In the horizontal triple, the middle cell has 2 live neighbors and
    // survives; the ends have 1 and die.
    let mut life = must_parse("header\n.....\n.###.\n.....\n.....\n.....\n");
    life.next();
    assert_eq!(life.get(1, 2), Cell::Alive);
    assert_eq!(life.get(1, 1), Cell::Dead);
    assert_eq!(life.get(1, 3), Cell::Dead);
}

#[test]
fn overcrowded_cell_dies() {
    // The center of a plus shape has 4 live neighbors and dies.
    let mut life = must_parse("header\n.....\n..#..\n.###.\n..#..\n.....\n");
    assert_eq!(life.live_neighbor_count(2, 2), 4);
    life.next();
    assert_eq!(life.get(2, 2), Cell::Dead);
}

#[test]
fn centered_blinker_oscillates_with_period_two() {
    // Centered, so every involved cell is clamp-free; a blinker against an
    // edge would be distorted by the double counting there.
    let text = "header\n.....\n.....\n.###.\n.....\n.....\n";
    let mut life = must_parse(text);
    let start = cells(&life);
    life.next();
    let mut vertical = vec![vec![Cell::Dead; 5]; 5];
    vertical[1][2] = Cell::Alive;
    vertical[2][2] = Cell::Alive;
    vertical[3][2] = Cell::Alive;
    assert_eq!(cells(&life), vertical);
    life.next();
    assert_eq!(cells(&life), start);
}

#[test]
fn whole_grid_block_dies_under_clamping() {
    // A 2x2 grid that is entirely alive: clamping makes every cell count
    // its two orthogonal neighbors twice and its diagonal once, so every
    // cell sees 5 and dies.  (Under true wrap-around it would be a still
    // life; this pins the clamp-to-self policy.)
    let mut life = must_parse("header\n##\n##\n");
    assert_eq!(life.live_neighbor_count(0, 0), 5);
    life.next();
    for i in 0..2 {
        for j in 0..2 {
            assert_eq!(life.get(i, j), Cell::Dead);
        }
    }
}
