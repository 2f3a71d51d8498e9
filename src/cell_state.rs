use vstd::prelude::*;

verus! {

/// The status of one cell of the board.
#[derive(Debug, Clone, Copy, PartialEq, Eq, Hash, Structural)]
pub enum CellState {
    Empty,
    Blocked,
    Queen,
}

/// The numeric code of a cell status: 0 for Empty, 1 for Blocked, 2 for Queen.
pub open spec fn code_of(s: CellState) -> u8 {
    match s {
        CellState::Empty => 0,
        CellState::Blocked => 1,
        CellState::Queen => 2,
    }
}

/// The codes of a sequence of cell statuses, one for one.
pub open spec fn codes_of(s: Seq<CellState>) -> Seq<u8> {
    s.map_values(|c: CellState| code_of(c))
}

impl CellState {
    /// The numeric code of this status.
    pub fn code(&self) -> (r: u8)
        ensures
            r == code_of(*self),
    {
        match self {
            CellState::Empty => 0,
            CellState::Blocked => 1,
            CellState::Queen => 2,
        }
    }

    /// The status with the given code, or `None` for a code above 2.
    pub fn from_code(code: u8) -> (r: Option<CellState>)
        ensures
            code <= 2 ==> r is Some && code_of(r->0) == code,
            code > 2 ==> r is None,
    {
        match code {
            0 => Some(CellState::Empty),
            1 => Some(CellState::Blocked),
            2 => Some(CellState::Queen),
            _ => None,
        }
    }
}

impl From<CellState> for u8 {
    fn from(state: CellState) -> (r: u8) {
        state.code()
    }
}

impl vstd::std_specs::convert::FromSpecImpl<CellState> for u8 {
    open spec fn obeys_from_spec() -> bool {
        true
    }

    open spec fn from_spec(v: CellState) -> u8 {
        code_of(v)
    }
}

} // verus!
