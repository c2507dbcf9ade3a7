//! The 8x8 board: the shade of each tile, where each tile stands, and which
//! square the user has selected.

use vstd::prelude::*;
use crate::geometry::{BOARD_SIZE, Position, world_position, world_position_of};

verus! {

/// The two tile shades of the checkered board.
#[derive(Clone, Copy, Debug, PartialEq, Eq, Structural)]
pub enum TileShade {
    Light,
    Dark,
}

/// Shade of the tile at `(file, rank)`: light exactly when
/// `file + rank + 1` is even.
pub open spec fn shade_of(file: int, rank: int) -> TileShade {
    if (file + rank + 1) % 2 == 0 {
        TileShade::Light
    } else {
        TileShade::Dark
    }
}

/// The shade of the tile at `(file, rank)`.
pub fn color_of(file: u8, rank: u8) -> (c: TileShade)
    ensures
        c == shade_of(file as int, rank as int),
{
    if (file as u16 + rank as u16 + 1) % 2 == 0 {
        TileShade::Light
    } else {
        TileShade::Dark
    }
}

/// Diagonal neighbours share a shade and horizontal neighbours do not, so
/// the shades alternate like a chessboard.
pub proof fn lemma_checkered(file: int, rank: int)
    requires
        0 <= file < BOARD_SIZE,
        0 <= rank < BOARD_SIZE,
    ensures
        shade_of(file, rank) == shade_of(file + 1, rank + 1),
        shade_of(file, rank) != shade_of(file + 1, rank),
{
}

/// One cell of the board.
#[derive(Clone, Copy, Debug, PartialEq, Eq, Structural)]
pub struct Square {
    pub file: u8,
    pub rank: u8,
}

impl Square {
    /// The square names a cell of the board.
    pub open spec fn valid(self) -> bool {
        self.file < BOARD_SIZE && self.rank < BOARD_SIZE
    }

    /// Whether the tile is light.
    pub fn is_white(&self) -> (r: bool)
        ensures
            r == (shade_of(self.file as int, self.rank as int) == TileShade::Light),
    {
        match color_of(self.file, self.rank) {
            TileShade::Light => true,
            TileShade::Dark => false,
        }
    }

    /// Where the centre of the tile stands in the world.
    pub fn world_position(&self) -> (p: Position)
        ensures
            p@ == world_position(self.file as int, self.rank as int),
    {
        world_position_of(self.file, self.rank)
    }
}

/// The `i`-th square of the board, files outermost.
pub open spec fn square_at(i: int) -> Square {
    Square { file: (i / BOARD_SIZE as int) as u8, rank: (i % BOARD_SIZE as int) as u8 }
}

/// All 64 squares, by file and then by rank.
pub fn board_squares() -> (v: Vec<Square>)
    ensures
        v@.len() == 64,
        forall|i: int| 0 <= i < 64 ==> #[trigger] v@[i] == square_at(i),
{
    let mut v: Vec<Square> = Vec::new();
    let mut i: u8 = 0;
    while i < 64
        invariant
            i <= 64,
            v@.len() == i,
            forall|j: int| 0 <= j < i ==> #[trigger] v@[j] == square_at(j),
        decreases 64 - i,
    {
        v.push(Square { file: i / BOARD_SIZE, rank: i % BOARD_SIZE });
        i = i + 1;
    }
    v
}

/// Every square that `board_squares` lists is a cell of the board, and no
/// cell is listed twice.
pub proof fn lemma_board_squares_distinct(i: int, j: int)
    requires
        0 <= i < 64,
        0 <= j < 64,
        i != j,
    ensures
        square_at(i).valid(),
        square_at(i) != square_at(j),
{
}

/// The selection state after a square is selected: only the new square
/// counts, whatever was selected before.
pub open spec fn after_select(previous: Option<Square>, square: Square) -> Option<Square> {
    Some(square)
}

/// Selecting one square and then another leaves only the second selected.
pub proof fn lemma_select_overwrites(previous: Option<Square>, a: Square, b: Square)
    ensures
        after_select(after_select(previous, a), b) == Some(b),
{
}

/// The square currently selected, if any.
pub struct SelectedSquare {
    square: Option<Square>,
}

impl View for SelectedSquare {
    type V = Option<Square>;

    closed spec fn view(&self) -> Option<Square> {
        self.square
    }
}

impl SelectedSquare {
    /// Nothing selected.
    pub fn new() -> (s: SelectedSquare)
        ensures
            s@ == None::<Square>,
    {
        SelectedSquare { square: None }
    }

    /// Records `square` as the selection, replacing any earlier one.
    pub fn select_square(&mut self, square: Square)
        ensures
            final(self)@ == after_select(old(self)@, square),
    {
        self.square = Some(square);
    }

    /// The square selected last, if any.
    pub fn current_selection(&self) -> (r: Option<Square>)
        ensures
            r == self@,
    {
        self.square
    }
}

} // verus!
