//! Chess pieces: the starting placement of all 32, the meshes each kind is
//! drawn with, and per-frame movement of their rendered positions.

use vstd::prelude::*;
use crate::animation::{in_range, move_toward, step_toward, travel};
use crate::geometry::{BOARD_SIZE, Position, world_position, world_position_of};

verus! {

#[derive(Clone, Copy, Debug, PartialEq, Eq, Structural)]
pub enum PieceColor {
    White,
    Black,
}

#[derive(Clone, Copy, Debug, PartialEq, Eq, Structural)]
pub enum PieceType {
    King,
    Queen,
    Bishop,
    Knight,
    Rook,
    Pawn,
}

/// A piece and the board cell it stands on, or is moving to.
#[derive(Clone, Copy, Debug, PartialEq, Eq, Structural)]
pub struct Piece {
    pub color: PieceColor,
    pub piece_type: PieceType,
    pub file: u8,
    pub rank: u8,
}

impl Piece {
    /// The piece's cell is on the board.
    pub open spec fn valid(self) -> bool {
        self.file < BOARD_SIZE && self.rank < BOARD_SIZE
    }

    /// World position of the piece's cell.
    pub open spec fn target(self) -> (int, int, int) {
        world_position(self.file as int, self.rank as int)
    }

    /// Where the piece belongs in the world: the centre of its cell.
    pub fn target_position(&self) -> (p: Position)
        ensures
            p@ == self.target(),
    {
        world_position_of(self.file, self.rank)
    }
}

/// Kind of the piece that starts on `file` of a back rank.
pub open spec fn back_rank_type(file: int) -> PieceType {
    if file == 0 || file == 7 {
        PieceType::Rook
    } else if file == 1 || file == 6 {
        PieceType::Knight
    } else if file == 2 || file == 5 {
        PieceType::Bishop
    } else if file == 3 {
        PieceType::Queen
    } else {
        PieceType::King
    }
}

/// Rank of the `row`-th group of eight in the starting placement: White's
/// back rank, White's pawns, Black's back rank, Black's pawns.
pub open spec fn row_rank(row: int) -> int {
    if row == 0 {
        0
    } else if row == 1 {
        1
    } else if row == 2 {
        7
    } else {
        6
    }
}

/// The `i`-th of the 32 pieces in their starting placement.
pub open spec fn initial_piece(i: int) -> Piece {
    let row = i / 8;
    let file = i % 8;
    Piece {
        color: if row < 2 {
            PieceColor::White
        } else {
            PieceColor::Black
        },
        piece_type: if row == 1 || row == 3 {
            PieceType::Pawn
        } else {
            back_rank_type(file)
        },
        file: file as u8,
        rank: row_rank(row) as u8,
    }
}

/// The starting placement of all pieces.
pub open spec fn initial_layout() -> Seq<Piece> {
    Seq::new(32, |i: int| initial_piece(i))
}

fn back_rank_piece_type(file: u8) -> (t: PieceType)
    ensures
        t == back_rank_type(file as int),
{
    if file == 0 || file == 7 {
        PieceType::Rook
    } else if file == 1 || file == 6 {
        PieceType::Knight
    } else if file == 2 || file == 5 {
        PieceType::Bishop
    } else if file == 3 {
        PieceType::Queen
    } else {
        PieceType::King
    }
}

/// All 32 pieces where a game starts: White's back rank, White's pawns,
/// Black's back rank, Black's pawns, each by file.
pub fn initial_pieces() -> (v: Vec<Piece>)
    ensures
        v@ == initial_layout(),
{
    let mut v: Vec<Piece> = Vec::new();
    let mut i: u8 = 0;
    while i < 32
        invariant
            i <= 32,
            v@.len() == i,
            forall|j: int| 0 <= j < i ==> #[trigger] v@[j] == initial_piece(j),
        decreases 32 - i,
    {
        let row: u8 = i / 8;
        let file: u8 = i % 8;
        let color = if row < 2 {
            PieceColor::White
        } else {
            PieceColor::Black
        };
        let piece_type = if row == 1 || row == 3 {
            PieceType::Pawn
        } else {
            back_rank_piece_type(file)
        };
        let rank: u8 = if row == 0 {
            0
        } else if row == 1 {
            1
        } else if row == 2 {
            7
        } else {
            6
        };
        v.push(Piece { color, piece_type, file, rank });
        i = i + 1;
    }
    assert(v@ =~= initial_layout());
    v
}

/// The starting placement: 32 pieces on distinct cells of the board, the
/// first 16 White on ranks 0 and 1 and the last 16 Black on ranks 7 and 6;
/// each back rank holds Rook, Knight, Bishop, Queen, King, Bishop, Knight,
/// Rook by file, and each pawn rank holds only pawns.
pub proof fn lemma_initial_layout()
    ensures
        initial_layout().len() == 32,
        forall|i: int|
            0 <= i < 32 ==> {
                let p = #[trigger] initial_layout()[i];
                &&& p.valid()
                &&& (p.color == PieceColor::White <==> i < 16)
                &&& (p.color == PieceColor::White ==> p.rank == 0 || p.rank == 1)
                &&& (p.color == PieceColor::Black ==> p.rank == 7 || p.rank == 6)
                &&& (p.rank == 0 || p.rank == 7 ==> p.piece_type == back_rank_type(p.file as int))
                &&& (p.rank == 1 || p.rank == 6 ==> p.piece_type == PieceType::Pawn)
            },
        forall|i: int, j: int|
            0 <= i < 32 && 0 <= j < 32 && i != j ==> {
                let (p, q) = (#[trigger] initial_layout()[i], #[trigger] initial_layout()[j]);
                p.file != q.file || p.rank != q.rank
            },
{
}

/// Meshes of the piece model set; a piece is drawn with one or two of them.
#[derive(Clone, Copy, Debug, PartialEq, Eq, Structural)]
pub enum PieceMesh {
    KingBody,
    KingCross,
    Pawn,
    KnightBase,
    KnightBlade,
    Rook,
    Bishop,
    Queen,
}

/// Position of a mesh in the model set.
pub open spec fn mesh_index(m: PieceMesh) -> int {
    match m {
        PieceMesh::KingBody => 0,
        PieceMesh::KingCross => 1,
        PieceMesh::Pawn => 2,
        PieceMesh::KnightBase => 3,
        PieceMesh::KnightBlade => 4,
        PieceMesh::Rook => 5,
        PieceMesh::Bishop => 6,
        PieceMesh::Queen => 7,
    }
}

impl PieceMesh {
    /// Position of this mesh in the model set.
    pub fn asset_index(&self) -> (i: u8)
        ensures
            i == mesh_index(*self),
    {
        match self {
            PieceMesh::KingBody => 0,
            PieceMesh::KingCross => 1,
            PieceMesh::Pawn => 2,
            PieceMesh::KnightBase => 3,
            PieceMesh::KnightBlade => 4,
            PieceMesh::Rook => 5,
            PieceMesh::Bishop => 6,
            PieceMesh::Queen => 7,
        }
    }
}

/// Uniform scale of every part mesh, in units per tile (0.2).
pub const PART_SCALE: i64 = 200_000;

/// One mesh of a piece's model, placed relative to the piece's origin.
#[derive(Clone, Copy, Debug, PartialEq, Eq, Structural)]
pub struct MeshPart {
    pub mesh: PieceMesh,
    pub offset: Position,
}

/// Offset, in the piece's local frame, at which the parts of a kind are drawn.
pub open spec fn part_offset(kind: PieceType) -> (int, int, int) {
    match kind {
        PieceType::King => (-200_000, 0, -1_900_000),
        PieceType::Knight => (-200_000, 0, 900_000),
        PieceType::Queen => (-200_000, 0, -950_000),
        PieceType::Bishop => (-100_000, 0, 0),
        PieceType::Rook => (-100_000, 0, 1_800_000),
        PieceType::Pawn => (-200_000, 0, 2_600_000),
    }
}

/// The meshes a kind is drawn with: King and Knight with two, the others
/// with one.
pub open spec fn part_meshes(kind: PieceType) -> Seq<PieceMesh> {
    match kind {
        PieceType::King => seq![PieceMesh::KingBody, PieceMesh::KingCross],
        PieceType::Knight => seq![PieceMesh::KnightBase, PieceMesh::KnightBlade],
        PieceType::Queen => seq![PieceMesh::Queen],
        PieceType::Bishop => seq![PieceMesh::Bishop],
        PieceType::Rook => seq![PieceMesh::Rook],
        PieceType::Pawn => seq![PieceMesh::Pawn],
    }
}

/// The parts a piece of kind `kind` is drawn with, each at the kind's offset
/// and scaled by `PART_SCALE`.
pub fn mesh_parts(kind: PieceType) -> (v: Vec<MeshPart>)
    ensures
        v@.len() == part_meshes(kind).len(),
        forall|i: int|
            0 <= i < v@.len() ==> (#[trigger] v@[i]).mesh == part_meshes(kind)[i]
                && v@[i].offset@ == part_offset(kind),
{
    let (meshes, offset) = match kind {
        PieceType::King => (
            vec![PieceMesh::KingBody, PieceMesh::KingCross],
            Position { x: -200_000, y: 0, z: -1_900_000 },
        ),
        PieceType::Knight => (
            vec![PieceMesh::KnightBase, PieceMesh::KnightBlade],
            Position { x: -200_000, y: 0, z: 900_000 },
        ),
        PieceType::Queen => (vec![PieceMesh::Queen], Position { x: -200_000, y: 0, z: -950_000 }),
        PieceType::Bishop => (vec![PieceMesh::Bishop], Position { x: -100_000, y: 0, z: 0 }),
        PieceType::Rook => (vec![PieceMesh::Rook], Position { x: -100_000, y: 0, z: 1_800_000 }),
        PieceType::Pawn => (vec![PieceMesh::Pawn], Position { x: -200_000, y: 0, z: 2_600_000 }),
    };
    assert(meshes@ =~= part_meshes(kind));
    let mut v: Vec<MeshPart> = Vec::new();
    let mut i: usize = 0;
    while i < meshes.len()
        invariant
            meshes@ == part_meshes(kind),
            offset@ == part_offset(kind),
            i <= meshes@.len(),
            v@.len() == i,
            forall|j: int|
                0 <= j < i ==> (#[trigger] v@[j]).mesh == meshes@[j] && v@[j].offset == offset,
        decreases meshes@.len() - i,
    {
        v.push(MeshPart { mesh: meshes[i], offset });
        i = i + 1;
    }
    v
}

/// Advances a piece's rendered position by one frame of `delta_micros`
/// microseconds toward the piece's cell.
pub fn move_piece(piece: &Piece, rendered: &mut Position, delta_micros: u64)
    requires
        piece.valid(),
        in_range(old(rendered)@),
    ensures
        final(rendered)@ == step_toward(old(rendered)@, piece.target(), travel(delta_micros as int)),
        in_range(final(rendered)@),
{
    let target = piece.target_position();
    move_toward(rendered, target, delta_micros);
}

/// Advances every piece's rendered position by one frame; `rendered[i]`
/// belongs to `pieces[i]`.
pub fn move_pieces(pieces: &Vec<Piece>, rendered: &mut Vec<Position>, delta_micros: u64)
    requires
        old(rendered)@.len() == pieces@.len(),
        forall|i: int| 0 <= i < pieces@.len() ==> (#[trigger] pieces@[i]).valid(),
        forall|i: int| 0 <= i < old(rendered)@.len() ==> in_range((#[trigger] old(rendered)@[i])@),
    ensures
        final(rendered)@.len() == pieces@.len(),
        forall|i: int|
            0 <= i < pieces@.len() ==> (#[trigger] final(rendered)@[i])@ == step_toward(
                old(rendered)@[i]@,
                pieces@[i].target(),
                travel(delta_micros as int),
            ),
        forall|i: int| 0 <= i < final(rendered)@.len() ==> in_range((#[trigger] final(rendered)@[i])@),
{
    let mut i: usize = 0;
    while i < pieces.len()
        invariant
            i <= pieces@.len(),
            rendered@.len() == pieces@.len(),
            forall|j: int| 0 <= j < pieces@.len() ==> (#[trigger] pieces@[j]).valid(),
            forall|j: int| 0 <= j < rendered@.len() ==> in_range((#[trigger] rendered@[j])@),
            forall|j: int|
                0 <= j < i ==> (#[trigger] rendered@[j])@ == step_toward(
                    old(rendered)@[j]@,
                    pieces@[j].target(),
                    travel(delta_micros as int),
                ),
            forall|j: int| i <= j < rendered@.len() ==> #[trigger] rendered@[j] == old(rendered)@[j],
        decreases pieces@.len() - i,
    {
        let mut p = rendered[i];
        move_piece(&pieces[i], &mut p, delta_micros);
        rendered.set(i, p);
        i = i + 1;
    }
}

} // verus!
