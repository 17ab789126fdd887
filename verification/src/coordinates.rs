//! Reading a square's name, such as `B3` or `3b`.

use vstd::prelude::*;
use vstd::string::StrSliceExecFns;

verus! {

/// The column that a digit names: `1` is the first column, `9` the ninth.
/// Any other character names none.
pub open spec fn column_of(ch: char) -> Option<int> {
    if '1' <= ch <= '9' {
        Some(ch as int - '1' as int)
    } else {
        None
    }
}

/// The row that a letter names, in either case: `A` is the first row, `Z`
/// the twenty-sixth. Any other character names none.
pub open spec fn row_of(ch: char) -> Option<int> {
    if 'A' <= ch <= 'Z' {
        Some(ch as int - 'A' as int)
    } else if 'a' <= ch <= 'z' {
        Some(ch as int - 'a' as int)
    } else {
        None
    }
}

/// The square `(row, column)` that `text` names on a board of side `size`:
/// `text` is a digit and a letter, in either order, and both the row and the
/// column lie on the board.
pub open spec fn parse_coordinates(text: Seq<char>, size: nat) -> Option<(int, int)> {
    if text.len() != 2 {
        None
    } else {
        let named = if column_of(text[0]) is Some && row_of(text[1]) is Some {
            Some((row_of(text[1])->0, column_of(text[0])->0))
        } else if column_of(text[1]) is Some && row_of(text[0]) is Some {
            Some((row_of(text[0])->0, column_of(text[1])->0))
        } else {
            None
        };
        match named {
            Some((row, col)) => if row < size && col < size {
                named
            } else {
                None
            },
            None => None,
        }
    }
}

/// The column that a digit names.
fn column_index(ch: char) -> (col: Option<usize>)
    ensures
        match col {
            Some(n) => column_of(ch) == Some(n as int),
            None => column_of(ch) is None,
        },
{
    if '1' <= ch && ch <= '9' {
        Some((ch as u32 - '1' as u32) as usize)
    } else {
        None
    }
}

/// The row that a letter names.
fn row_index(ch: char) -> (row: Option<usize>)
    ensures
        match row {
            Some(n) => row_of(ch) == Some(n as int),
            None => row_of(ch) is None,
        },
{
    if 'A' <= ch && ch <= 'Z' {
        Some((ch as u32 - 'A' as u32) as usize)
    } else if 'a' <= ch && ch <= 'z' {
        Some((ch as u32 - 'a' as u32) as usize)
    } else {
        None
    }
}

/// Reads the name of a square on a board of side `size` and returns its
/// zero-based `(row, column)`, or `None` where `pos` names no square of the
/// board.
pub fn get_coordinates(pos: &str, size: usize) -> (square: Option<(usize, usize)>)
    ensures
        match square {
            Some((row, col)) => parse_coordinates(pos@, size as nat) == Some(
                (row as int, col as int),
            ),
            None => parse_coordinates(pos@, size as nat) is None,
        },
        square matches Some((row, col)) ==> row < size && col < size,
{
    if pos.unicode_len() != 2 {
        return None;
    }
    let first = pos.get_char(0);
    let second = pos.get_char(1);
    let named = match (column_index(first), row_index(second)) {
        (Some(col), Some(row)) => Some((row, col)),
        _ => match (column_index(second), row_index(first)) {
            (Some(col), Some(row)) => Some((row, col)),
            _ => None,
        },
    };
    match named {
        Some((row, col)) => if row < size && col < size {
            named
        } else {
            None
        },
        None => None,
    }
}

} // verus!
