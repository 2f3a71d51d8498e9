use vstd::prelude::*;
use vstd::string::StringExecFns;

verus! {

/// Why a grid of region labels does not make a board.
#[derive(Debug, Clone, PartialEq, Eq, Structural)]
pub enum GameStateError {
    /// The grid has no rows.
    InexistentBoard,
    /// A row's length differs from the number of rows.
    NonSquareBoard { rows: usize, cols: usize },
    /// Flattening the grid gave another number of cells than rows times rows.
    InvalidCellCount { expected: usize, found: usize },
    /// The grid has more rows than the largest supported side length.
    BoardTooLarge { size: usize, max_size: usize },
    /// The grid holds another number of distinct labels than it has rows.
    RegionCountMismatch { expected: usize, found: usize },
}

/// The decimal digit `d`.
pub open spec fn digit(d: int) -> char {
    if d == 0 {
        '0'
    } else if d == 1 {
        '1'
    } else if d == 2 {
        '2'
    } else if d == 3 {
        '3'
    } else if d == 4 {
        '4'
    } else if d == 5 {
        '5'
    } else if d == 6 {
        '6'
    } else if d == 7 {
        '7'
    } else if d == 8 {
        '8'
    } else {
        '9'
    }
}

/// The decimal numeral of `n`, without leading zeros.
pub open spec fn decimal(n: nat) -> Seq<char>
    decreases n,
{
    if n < 10 {
        seq![digit(n as int)]
    } else {
        decimal(n / 10).push(digit((n % 10) as int))
    }
}

/// The text that describes an error.
pub open spec fn message_of(e: GameStateError) -> Seq<char> {
    match e {
        GameStateError::InexistentBoard => "Board size must be greater than 0"@,
        GameStateError::NonSquareBoard { rows, cols } => "Board is not square: "@ + decimal(
            rows as nat,
        ) + " rows x "@ + decimal(cols as nat) + " columns"@,
        GameStateError::InvalidCellCount { expected, found } => "Invalid cell count: expected "@
            + decimal(expected as nat) + ", found "@ + decimal(found as nat),
        GameStateError::BoardTooLarge { size, max_size } => "Board size "@ + decimal(size as nat)
            + " exceeds maximum supported size "@ + decimal(max_size as nat),
        GameStateError::RegionCountMismatch { expected, found } => "Board has "@ + decimal(
            found as nat,
        ) + " regions, expected "@ + decimal(expected as nat),
    }
}

fn digit_str(d: usize) -> (r: &'static str)
    requires
        d < 10,
    ensures
        r@ == seq![digit(d as int)],
{
    proof {
        reveal_strlit("0");
        reveal_strlit("1");
        reveal_strlit("2");
        reveal_strlit("3");
        reveal_strlit("4");
        reveal_strlit("5");
        reveal_strlit("6");
        reveal_strlit("7");
        reveal_strlit("8");
        reveal_strlit("9");
    }
    match d {
        0 => "0",
        1 => "1",
        2 => "2",
        3 => "3",
        4 => "4",
        5 => "5",
        6 => "6",
        7 => "7",
        8 => "8",
        _ => "9",
    }
}

/// The decimal numeral of `n`.
pub fn decimal_string(n: usize) -> (r: String)
    ensures
        r@ == decimal(n as nat),
    decreases n,
{
    if n < 10 {
        String::from_str(digit_str(n))
    } else {
        let mut s = decimal_string(n / 10);
        s.append(digit_str(n % 10));
        s
    }
}

impl GameStateError {
    /// A sentence that describes the error.
    pub fn message(&self) -> (r: String)
        ensures
            r@ == message_of(*self),
    {
        match self {
            GameStateError::InexistentBoard => String::from_str("Board size must be greater than 0"),
            GameStateError::NonSquareBoard { rows, cols } => {
                let mut s = String::from_str("Board is not square: ");
                s.append(decimal_string(*rows).as_str());
                s.append(" rows x ");
                s.append(decimal_string(*cols).as_str());
                s.append(" columns");
                s
            },
            GameStateError::InvalidCellCount { expected, found } => {
                let mut s = String::from_str("Invalid cell count: expected ");
                s.append(decimal_string(*expected).as_str());
                s.append(", found ");
                s.append(decimal_string(*found).as_str());
                s
            },
            GameStateError::BoardTooLarge { size, max_size } => {
                let mut s = String::from_str("Board size ");
                s.append(decimal_string(*size).as_str());
                s.append(" exceeds maximum supported size ");
                s.append(decimal_string(*max_size).as_str());
                s
            },
            GameStateError::RegionCountMismatch { expected, found } => {
                let mut s = String::from_str("Board has ");
                s.append(decimal_string(*found).as_str());
                s.append(" regions, expected ");
                s.append(decimal_string(*expected).as_str());
                s
            },
        }
    }
}

} // verus!
