//! The grid parser: from a text description to a `Life` engine.
//!
//! The first line of the input is a header and is discarded.  Every later
//! line becomes one grid row, with `#` read as Alive and any other character
//! as Dead.  Input whose data lines do not form a well-formed grid (no data
//! lines, an empty first data line, or lines of differing length) is
//! rejected with `MalformedInput`.

use vstd::prelude::*;

use crate::life::grid_view;
use crate::life::grid_wf;
use crate::life::Cell;
use crate::life::Life;

verus! {

/// The error for input text that does not describe a well-formed grid.
#[derive(Clone, Copy, Debug, PartialEq, Eq, Structural)]
pub struct MalformedInput;

/// Splits `s` into lines at `\n`, with `cur` the partial line read so far.
/// A final line break produces no empty trailing line.
pub open spec fn split_lines_from(s: Seq<char>, cur: Seq<char>) -> Seq<Seq<char>>
    decreases s.len(),
{
    if s.len() == 0 {
        if cur.len() == 0 {
            Seq::empty()
        } else {
            seq![cur]
        }
    } else if s[0] == '\n' {
        seq![cur] + split_lines_from(s.drop_first(), Seq::empty())
    } else {
        split_lines_from(s.drop_first(), cur.push(s[0]))
    }
}

/// The lines of `s`: maximal `\n`-free runs, a trailing `\n` closing the
/// last line rather than opening an empty one.
pub open spec fn split_lines(s: Seq<char>) -> Seq<Seq<char>> {
    split_lines_from(s, Seq::empty())
}

/// The data lines of `s`: every line after the header.
pub open spec fn data_lines(s: Seq<char>) -> Seq<Seq<char>> {
    let ls = split_lines(s);
    if ls.len() == 0 {
        Seq::empty()
    } else {
        ls.drop_first()
    }
}

/// The cell a character denotes: `#` is Alive, anything else Dead.
pub open spec fn spec_cell_of(c: char) -> Cell {
    if c == '#' {
        Cell::Alive
    } else {
        Cell::Dead
    }
}

/// One data line as a row of cells.
pub open spec fn row_cells(line: Seq<char>) -> Seq<Cell> {
    line.map_values(|c: char| spec_cell_of(c))
}

/// The grid described by `s`: its data lines, character by character.
pub open spec fn parsed_grid(s: Seq<char>) -> Seq<Seq<Cell>> {
    data_lines(s).map_values(|line: Seq<char>| row_cells(line))
}

/// Whether `s` parses: its data lines must form a well-formed grid.
pub open spec fn parse_ok(s: Seq<char>) -> bool {
    grid_wf(parsed_grid(s))
}

/// The abstract contents of a vector of lines.
pub open spec fn lines_view(ls: Seq<Vec<char>>) -> Seq<Seq<char>> {
    Seq::new(ls.len(), |i: int| ls[i]@)
}

/// Parses a text description of a board.  The first line is a header and is
/// discarded; each later line becomes one row, `#` meaning Alive and any
/// other character Dead.  Fails with `MalformedInput` exactly when the data
/// lines do not form a well-formed grid: none at all, an empty first line,
/// or lines whose lengths differ.
pub fn parse(text: &str) -> (r: Result<Life, MalformedInput>)
    ensures
        r is Ok <==> parse_ok(text@),
        r matches Ok(life) ==> life.wf() && life@ == parsed_grid(text@),
{
    let n = text.unicode_len();
    let mut lines: Vec<Vec<char>> = Vec::new();
    let mut cur: Vec<char> = Vec::new();
    let mut i: usize = 0;
    proof {
        assert(text@.subrange(0, n as int) =~= text@);
        assert(lines_view(lines@) + split_lines(text@) =~= split_lines(text@));
    }
    while i < n
        invariant
            n == text@.len(),
            i <= n,
            split_lines(text@) == lines_view(lines@) + split_lines_from(
                text@.subrange(i as int, n as int),
                cur@,
            ),
        decreases n - i,
    {
        let ghost lines0 = lines@;
        let ghost cur0 = cur@;
        let ghost rem = text@.subrange(i as int, n as int);
        proof {
            assert(rem.len() > 0);
            assert(rem[0] == text@[i as int]);
            assert(rem.drop_first() =~= text@.subrange(i + 1, n as int));
        }
        let c = text.get_char(i);
        if c == '\n' {
            lines.push(cur);
            cur = Vec::new();
            proof {
                assert(lines_view(lines@) =~= lines_view(lines0) + seq![cur0]);
                assert((lines_view(lines0) + seq![cur0]) + split_lines_from(
                    rem.drop_first(),
                    Seq::empty(),
                ) =~= lines_view(lines0) + (seq![cur0] + split_lines_from(
                    rem.drop_first(),
                    Seq::empty(),
                )));
            }
        } else {
            cur.push(c);
        }
        i += 1;
    }
    proof {
        assert(text@.subrange(n as int, n as int) =~= Seq::<char>::empty());
    }
    let ghost lines0 = lines@;
    let ghost cur0 = cur@;
    if cur.len() > 0 {
        lines.push(cur);
        proof {
            assert(lines_view(lines@) =~= lines_view(lines0) + seq![cur0]);
        }
    } else {
        proof {
            assert(lines_view(lines@) + Seq::<Seq<char>>::empty() =~= lines_view(lines@));
        }
    }
    assert(lines_view(lines@) == split_lines(text@));
    if lines.len() <= 1 {
        proof {
            assert(data_lines(text@).len() == 0);
            assert(parsed_grid(text@).len() == 0);
        }
        return Err(MalformedInput);
    }
    let mut cells: Vec<Vec<Cell>> = Vec::new();
    let mut idx: usize = 1;
    while idx < lines.len()
        invariant
            1 <= idx <= lines@.len(),
            lines@.len() >= 2,
            lines_view(lines@) == split_lines(text@),
            cells@.len() == idx - 1,
            forall|k: int| 0 <= k < idx - 1 ==> #[trigger] cells@[k]@ == parsed_grid(text@)[k],
        decreases lines@.len() - idx,
    {
        let line: &Vec<char> = &lines[idx];
        let mut row: Vec<Cell> = Vec::new();
        let mut j: usize = 0;
        while j < line.len()
            invariant
                j <= line@.len(),
                row@.len() == j,
                forall|k: int| 0 <= k < j ==> row@[k] == spec_cell_of(line@[k]),
            decreases line@.len() - j,
        {
            let c = line[j];
            if c == '#' {
                row.push(Cell::Alive);
            } else {
                row.push(Cell::Dead);
            }
            j += 1;
        }
        proof {
            assert(row@ =~= row_cells(line@));
            assert(data_lines(text@)[idx - 1] == lines_view(lines@)[idx as int]);
            assert(parsed_grid(text@)[idx - 1] == row_cells(lines@[idx as int]@));
        }
        cells.push(row);
        idx += 1;
    }
    proof {
        assert(data_lines(text@).len() == lines@.len() - 1);
        assert(grid_view(cells@) =~= parsed_grid(text@));
    }
    match Life::from_rows(cells) {
        Some(life) => Ok(life),
        None => Err(MalformedInput),
    }
}

} // verus!
