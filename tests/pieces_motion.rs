use chessboard::animation::{move_toward, SNAP_DISTANCE};
use chessboard::geometry::Position;
use chessboard::pieces::{
    initial_pieces, mesh_parts, move_piece, move_pieces, Piece, PieceColor, PieceMesh, PieceType,
};

fn dist_sq(a: &Position, b: &Position) -> i128 {
    let dx = (b.x - a.x) as i128;
    let dy = (b.y - a.y) as i128;
    let dz = (b.z - a.z) as i128;
    dx * dx + dy * dy + dz * dz
}

fn snap_sq() -> i128 {
    (SNAP_DISTANCE as i128) * (SNAP_DISTANCE as i128)
}

const BACK_RANK: [PieceType; 8] = [
    PieceType::Rook,
    PieceType::Knight,
    PieceType::Bishop,
    PieceType::Queen,
    PieceType::King,
    PieceType::Bishop,
    PieceType::Knight,
    PieceType::Rook,
];

#[test]
fn initial_placement_has_thirty_two_pieces() {
    let pieces = initial_pieces();
    assert_eq!(pieces.len(), 32);
    let white: Vec<&Piece> = pieces.iter().filter(|p| p.color == PieceColor::White).collect();
    let black: Vec<&Piece> = pieces.iter().filter(|p| p.color == PieceColor::Black).collect();
    assert_eq!(white.len(), 16);
    assert_eq!(black.len(), 16);
    assert!(white.iter().all(|p| p.rank == 0 || p.rank == 1));
    assert!(black.iter().all(|p| p.rank == 7 || p.rank == 6));
}

#[test]
fn initial_placement_back_ranks_and_pawns() {
    let pieces = initial_pieces();
    for file in 0..8u8 {
        for (rank, color) in [(0u8, PieceColor::White), (7u8, PieceColor::Black)] {
            let here: Vec<&Piece> =
                pieces.iter().filter(|p| p.file == file && p.rank == rank).collect();
            assert_eq!(here.len(), 1);
            assert_eq!(here[0].piece_type, BACK_RANK[file as usize]);
            assert_eq!(here[0].color, color);
        }
        for (rank, color) in [(1u8, PieceColor::White), (6u8, PieceColor::Black)] {
            let here: Vec<&Piece> =
                pieces.iter().filter(|p| p.file == file && p.rank == rank).collect();
            assert_eq!(here.len(), 1);
            assert_eq!(here[0].piece_type, PieceType::Pawn);
            assert_eq!(here[0].color, color);
        }
    }
    assert_eq!(
        pieces[0],
        Piece { color: PieceColor::White, piece_type: PieceType::Rook, file: 0, rank: 0 }
    );
    assert_eq!(
        pieces[20],
        Piece { color: PieceColor::Black, piece_type: PieceType::King, file: 4, rank: 7 }
    );
}

#[test]
fn mesh_parts_per_kind() {
    let king = mesh_parts(PieceType::King);
    assert_eq!(king.len(), 2);
    assert_eq!(king[0].mesh, PieceMesh::KingBody);
    assert_eq!(king[1].mesh, PieceMesh::KingCross);
    assert_eq!(king[0].offset, Position { x: -200_000, y: 0, z: -1_900_000 });
    assert_eq!(king[1].offset, Position { x: -200_000, y: 0, z: -1_900_000 });

    let knight = mesh_parts(PieceType::Knight);
    assert_eq!(knight.len(), 2);
    assert_eq!(knight[0].mesh, PieceMesh::KnightBase);
    assert_eq!(knight[1].mesh, PieceMesh::KnightBlade);
    assert_eq!(knight[0].offset, Position { x: -200_000, y: 0, z: 900_000 });

    let single = [
        (PieceType::Queen, PieceMesh::Queen, Position { x: -200_000, y: 0, z: -950_000 }),
        (PieceType::Bishop, PieceMesh::Bishop, Position { x: -100_000, y: 0, z: 0 }),
        (PieceType::Rook, PieceMesh::Rook, Position { x: -100_000, y: 0, z: 1_800_000 }),
        (PieceType::Pawn, PieceMesh::Pawn, Position { x: -200_000, y: 0, z: 2_600_000 }),
    ];
    for (kind, mesh, offset) in single {
        let parts = mesh_parts(kind);
        assert_eq!(parts.len(), 1);
        assert_eq!(parts[0].mesh, mesh);
        assert_eq!(parts[0].offset, offset);
    }
}

#[test]
fn mesh_asset_indices() {
    let meshes = [
        PieceMesh::KingBody,
        PieceMesh::KingCross,
        PieceMesh::Pawn,
        PieceMesh::KnightBase,
        PieceMesh::KnightBlade,
        PieceMesh::Rook,
        PieceMesh::Bishop,
        PieceMesh::Queen,
    ];
    for (i, m) in meshes.iter().enumerate() {
        assert_eq!(m.asset_index() as usize, i);
    }
}

#[test]
fn piece_target_is_its_cell() {
    let p = Piece { color: PieceColor::Black, piece_type: PieceType::Queen, file: 3, rank: 7 };
    assert_eq!(p.target_position(), Position { x: 3_000_000, y: 0, z: 7_000_000 });
}

#[test]
fn straight_step_covers_speed_times_time() {
    let mut p = Position { x: 0, y: 0, z: 0 };
    move_toward(&mut p, Position { x: 0, y: 0, z: 3_000_000 }, 1_000_000);
    assert_eq!(p, Position { x: 0, y: 0, z: 1_000_000 });
}

#[test]
fn diagonal_step_follows_direction() {
    let mut p = Position { x: 0, y: 0, z: 0 };
    move_toward(&mut p, Position { x: 3_000_000, y: 0, z: 4_000_000 }, 1_000_000);
    assert_eq!(p, Position { x: 600_000, y: 0, z: 800_000 });
}

#[test]
fn step_rounds_away_from_zero() {
    let mut p = Position { x: 0, y: 0, z: 0 };
    move_toward(&mut p, Position { x: 1_000_000, y: 0, z: 1_000_000 }, 1_000);
    assert_eq!(p, Position { x: 708, y: 0, z: 708 });
    let mut q = Position { x: 1_000_000, y: 0, z: 1_000_000 };
    move_toward(&mut q, Position { x: 0, y: 0, z: 0 }, 1_000);
    assert_eq!(q, Position { x: 999_292, y: 0, z: 999_292 });
}

#[test]
fn within_snap_distance_nothing_moves() {
    let mut p = Position { x: 0, y: 0, z: 50_000 };
    move_toward(&mut p, Position { x: 0, y: 0, z: 0 }, 1_000_000);
    assert_eq!(p, Position { x: 0, y: 0, z: 50_000 });
    let mut edge = Position { x: 100_000, y: 0, z: 0 };
    move_toward(&mut edge, Position { x: 0, y: 0, z: 0 }, 1_000_000);
    assert_eq!(edge, Position { x: 100_000, y: 0, z: 0 });
}

#[test]
fn step_past_target_lands_on_it() {
    let mut p = Position { x: 0, y: 0, z: 0 };
    move_toward(&mut p, Position { x: 0, y: 0, z: 500_000 }, 600_000);
    assert_eq!(p, Position { x: 0, y: 0, z: 500_000 });
    let mut far = Position { x: 0, y: 0, z: 0 };
    move_toward(&mut far, Position { x: 7_000_000, y: 0, z: 7_000_000 }, 100_000_000);
    assert_eq!(far, Position { x: 7_000_000, y: 0, z: 7_000_000 });
}

#[test]
fn zero_duration_frame_does_not_move() {
    let mut p = Position { x: 0, y: 0, z: 0 };
    move_toward(&mut p, Position { x: 2_000_000, y: 0, z: 0 }, 0);
    assert_eq!(p, Position { x: 0, y: 0, z: 0 });
}

#[test]
fn piece_at_rest_does_not_drift() {
    let piece = Piece { color: PieceColor::White, piece_type: PieceType::Knight, file: 1, rank: 0 };
    let start = piece.target_position();
    let mut p = start;
    for delta in [0u64, 1, 16_667, 1_000_000, 100_000_000] {
        for _ in 0..50 {
            move_piece(&piece, &mut p, delta);
            assert_eq!(p, start);
        }
    }
}

#[test]
fn moving_piece_converges_monotonically_within_bound() {
    let target = Position { x: 0, y: 0, z: 3_000_000 };
    let mut p = Position { x: 0, y: 0, z: 0 };
    let step: i64 = 10_000;
    let bound = (3_000_000 - SNAP_DISTANCE + step - 1) / step;
    assert_eq!(bound, 290);
    let mut calls = 0;
    while dist_sq(&p, &target) > snap_sq() {
        let before = dist_sq(&p, &target);
        move_toward(&mut p, target, step as u64);
        assert!(dist_sq(&p, &target) < before);
        calls += 1;
        assert!(calls <= bound);
    }
    assert_eq!(calls, 290);
    assert_eq!(p, Position { x: 0, y: 0, z: 2_900_000 });
}

#[test]
fn diagonal_move_converges_within_bound() {
    let target = Position { x: 7_000_000, y: 0, z: 5_000_000 };
    let mut p = Position { x: 1_000_000, y: 0, z: 2_000_000 };
    let step: i64 = 16_667;
    let d_ceil: i64 = 6_708_204; // ceil(sqrt(6e6^2 + 3e6^2))
    assert!((d_ceil as i128) * (d_ceil as i128) >= dist_sq(&p, &target));
    let bound = (d_ceil - SNAP_DISTANCE + step - 1) / step;
    let mut calls = 0;
    while dist_sq(&p, &target) > snap_sq() {
        let before = dist_sq(&p, &target);
        move_toward(&mut p, target, step as u64);
        assert!(dist_sq(&p, &target) < before);
        calls += 1;
        assert!(calls <= bound);
    }
}

#[test]
fn changed_target_redirects_piece() {
    let mut piece = Piece { color: PieceColor::Black, piece_type: PieceType::Pawn, file: 2, rank: 6 };
    let mut p = piece.target_position();
    piece.rank = 4;
    move_piece(&piece, &mut p, 500_000);
    assert_eq!(p, Position { x: 2_000_000, y: 0, z: 5_500_000 });
    piece.file = 3;
    piece.rank = 6;
    move_piece(&piece, &mut p, 0);
    assert_eq!(p, Position { x: 2_000_000, y: 0, z: 5_500_000 });
    move_piece(&piece, &mut p, 100_000_000);
    assert_eq!(p, Position { x: 3_000_000, y: 0, z: 6_000_000 });
}

#[test]
fn rook_moves_three_squares_in_three_seconds() {
    let mut pieces = initial_pieces();
    let rook = Piece { color: PieceColor::White, piece_type: PieceType::Rook, file: 0, rank: 0 };
    let found: Vec<usize> = (0..pieces.len()).filter(|&i| pieces[i] == rook).collect();
    assert_eq!(found.len(), 1);
    let idx = found[0];
    let mut rendered: Vec<Position> = pieces.iter().map(|p| p.target_position()).collect();
    let start = rendered.clone();
    pieces[idx].rank = 3;
    let delta: u64 = 10_000;
    for _ in 0..300 {
        move_pieces(&pieces, &mut rendered, delta);
    }
    let goal = Position { x: 0, y: 0, z: 3_000_000 };
    assert!(dist_sq(&rendered[idx], &goal) <= snap_sq());
    for i in 0..pieces.len() {
        if i != idx {
            assert_eq!(rendered[i], start[i]);
        }
    }
}
