//! Queens on a chessboard: positions are validated to lie on the 8x8 board,
//! and two queens attack one another when they share a rank, a file or a
//! diagonal.

use vstd::prelude::*;

verus! {

#[derive(Debug)]
pub struct ChessPosition {
    rank: i32,
    file: i32,
}

#[derive(Debug)]
pub struct Queen {
    position: ChessPosition,
}

/// Whether a coordinate lies on the board.
pub open spec fn spec_valid_line(line: int) -> bool {
    0 <= line <= 7
}

pub fn is_valid_chess_line(line: i32) -> (r: bool)
    ensures
        r == spec_valid_line(line as int),
{
    line >= 0 && line <= 7
}

impl ChessPosition {
    /// The row coordinate.
    pub closed spec fn rank_of(&self) -> int {
        self.rank as int
    }

    /// The column coordinate.
    pub closed spec fn file_of(&self) -> int {
        self.file as int
    }

    /// Both coordinates lie on the board.
    pub open spec fn wf(&self) -> bool {
        spec_valid_line(self.rank_of()) && spec_valid_line(self.file_of())
    }

    /// Accept a position exactly when both coordinates lie on the board.
    pub fn new(rank: i32, file: i32) -> (r: Option<Self>)
        ensures
            r is Some <==> (spec_valid_line(rank as int) && spec_valid_line(file as int)),
            r matches Some(p) ==> p.rank_of() == rank as int && p.file_of() == file as int
                && p.wf(),
    {
        match (is_valid_chess_line(rank), is_valid_chess_line(file)) {
            (true, true) => Some(ChessPosition { rank, file }),
            _ => None,
        }
    }
}

/// The two queens stand on a common rank or file.
pub open spec fn spec_same_line(a: &Queen, b: &Queen) -> bool {
    a.position_of().file_of() == b.position_of().file_of() || a.position_of().rank_of()
        == b.position_of().rank_of()
}

/// The two queens stand on a common diagonal: their coordinate differences
/// agree up to sign.
pub open spec fn spec_same_diagonal(a: &Queen, b: &Queen) -> bool {
    let df = a.position_of().file_of() - b.position_of().file_of();
    let dr = a.position_of().rank_of() - b.position_of().rank_of();
    df == dr || df == -dr
}

pub fn is_same_line(queen1: &Queen, queen2: &Queen) -> (r: bool)
    ensures
        r == spec_same_line(queen1, queen2),
{
    queen1.position.file == queen2.position.file || queen1.position.rank == queen2.position.rank
}

pub fn is_same_diagonal(queen1: &Queen, queen2: &Queen) -> (r: bool)
    requires
        queen1.wf(),
        queen2.wf(),
    ensures
        r == spec_same_diagonal(queen1, queen2),
{
    let df = queen1.position.file - queen2.position.file;
    let dr = queen1.position.rank - queen2.position.rank;
    let abs_df = if df < 0 { -df } else { df };
    let abs_dr = if dr < 0 { -dr } else { dr };
    abs_df == abs_dr
}

impl Queen {
    /// Where the queen stands.
    pub closed spec fn position_of(&self) -> ChessPosition {
        self.position
    }

    /// The position lies on the board.
    pub open spec fn wf(&self) -> bool {
        self.position_of().wf()
    }

    pub fn new(position: ChessPosition) -> (r: Self)
        ensures
            r.position_of() == position,
    {
        Queen { position }
    }

    /// Whether this queen can attack `other`: they share a rank, a file or a
    /// diagonal.
    pub fn can_attack(&self, other: &Queen) -> (r: bool)
        requires
            self.wf(),
            other.wf(),
        ensures
            r == (spec_same_line(self, other) || spec_same_diagonal(self, other)),
    {
        is_same_line(self, other) || is_same_diagonal(self, other)
    }
}

} // verus!
