use chess_rules::board::Square;
use chess_rules::pieces::{
    get_piece_at, is_path_free, piece_index_at, starting_pieces, Piece, PieceColor, PieceType,
};

const KINDS: [PieceType; 6] = [
    PieceType::King,
    PieceType::Queen,
    PieceType::Rook,
    PieceType::Bishop,
    PieceType::Knight,
    PieceType::Pawn,
];

fn at(x: u8, y: u8) -> Square {
    Square { x, y }
}

fn piece(kind: PieceType, color: PieceColor, x: u8, y: u8) -> Piece {
    Piece { kind, color, square: at(x, y) }
}

fn white(kind: PieceType, x: u8, y: u8) -> Piece {
    piece(kind, PieceColor::White, x, y)
}

fn black(kind: PieceType, x: u8, y: u8) -> Piece {
    piece(kind, PieceColor::Black, x, y)
}

/// The targets that `mover` may reach on the board `pieces`, rank by rank.
fn reach(mover: Piece, pieces: &Vec<Piece>) -> Vec<(u8, u8)> {
    let mut found = Vec::new();
    for y in 0..8u8 {
        for x in 0..8u8 {
            if mover.is_valid_move(at(x, y), pieces.clone()) {
                found.push((x, y));
            }
        }
    }
    found
}

#[test]
fn king_at_start_cannot_take_own_pawn() {
    let pieces = starting_pieces();
    let king = pieces[4];
    assert_eq!(king, white(PieceType::King, 4, 7));
    assert!(!king.is_valid_move(at(4, 6), pieces.clone()));
}

#[test]
fn king_steps_diagonally_onto_empty_square() {
    let mut pieces = starting_pieces();
    let king = pieces[4];
    // with the pawn still on (5, 6) the king may not go there
    assert!(!king.is_valid_move(at(5, 6), pieces.clone()));
    pieces.retain(|p| p.square != at(5, 6));
    assert!(king.is_valid_move(at(5, 6), pieces.clone()));
}

#[test]
fn king_moves_one_step_in_every_direction() {
    let king = white(PieceType::King, 3, 3);
    let pieces = vec![king];
    assert_eq!(
        reach(king, &pieces),
        vec![(2, 2), (3, 2), (4, 2), (2, 3), (4, 3), (2, 4), (3, 4), (4, 4)]
    );
}

#[test]
fn rook_passes_along_a_free_file() {
    let rook = white(PieceType::Rook, 0, 0);
    let pieces = vec![rook, black(PieceType::Bishop, 5, 0)];
    assert!(rook.is_valid_move(at(0, 7), pieces.clone()));
    let mut blocked = pieces.clone();
    blocked.push(black(PieceType::Pawn, 0, 3));
    assert!(!rook.is_valid_move(at(0, 7), blocked));
}

#[test]
fn rook_is_stopped_by_a_bishop_on_its_file() {
    let rook = white(PieceType::Rook, 0, 0);
    let pieces = vec![rook, black(PieceType::Bishop, 0, 5)];
    assert!(!rook.is_valid_move(at(0, 7), pieces.clone()));
    assert!(!rook.is_valid_move(at(0, 6), pieces.clone()));
    assert!(rook.is_valid_move(at(0, 5), pieces.clone()));
    assert!(rook.is_valid_move(at(0, 4), pieces.clone()));
    let alone = vec![rook];
    assert!(rook.is_valid_move(at(0, 7), alone));
}

#[test]
fn rook_moves_along_ranks_and_files_only() {
    let rook = black(PieceType::Rook, 2, 5);
    let pieces = vec![rook];
    let found = reach(rook, &pieces);
    assert_eq!(found.len(), 14);
    for (x, y) in found {
        assert!((x == 2) != (y == 5));
    }
}

#[test]
fn bishop_moves_along_diagonals_only() {
    let bishop = white(PieceType::Bishop, 2, 5);
    let pieces = vec![bishop];
    assert_eq!(
        reach(bishop, &pieces),
        vec![(7, 0), (6, 1), (5, 2), (0, 3), (4, 3), (1, 4), (3, 4), (1, 6), (3, 6), (0, 7), (4, 7)]
    );
}

#[test]
fn queen_moves_like_rook_and_bishop() {
    let queen = white(PieceType::Queen, 3, 3);
    let rook = white(PieceType::Rook, 3, 3);
    let bishop = white(PieceType::Bishop, 3, 3);
    let pieces = vec![queen, black(PieceType::Pawn, 3, 5), black(PieceType::Pawn, 5, 5)];
    for y in 0..8u8 {
        for x in 0..8u8 {
            let expected = rook.is_valid_move(at(x, y), pieces.clone())
                || bishop.is_valid_move(at(x, y), pieces.clone());
            assert_eq!(queen.is_valid_move(at(x, y), pieces.clone()), expected);
        }
    }
    assert!(queen.is_valid_move(at(3, 5), pieces.clone()));
    assert!(!queen.is_valid_move(at(3, 6), pieces.clone()));
    assert!(queen.is_valid_move(at(5, 5), pieces.clone()));
    assert!(!queen.is_valid_move(at(6, 6), pieces.clone()));
    assert!(!queen.is_valid_move(at(4, 5), pieces.clone()));
}

#[test]
fn sliders_are_blocked_by_either_color_and_freed_again() {
    let targets = [
        (PieceType::Rook, at(3, 7)),
        (PieceType::Bishop, at(6, 6)),
        (PieceType::Queen, at(3, 7)),
        (PieceType::Queen, at(6, 6)),
    ];
    let blockers = [at(3, 5), at(5, 5), at(3, 5), at(5, 5)];
    for i in 0..4 {
        let (kind, target) = targets[i];
        let slider = white(kind, 3, 3);
        let pieces = vec![slider, black(PieceType::King, 0, 0)];
        assert!(slider.is_valid_move(target, pieces.clone()));
        for color in [PieceColor::White, PieceColor::Black] {
            let mut blocked = pieces.clone();
            blocked.insert(1, piece(PieceType::Pawn, color, blockers[i].x, blockers[i].y));
            assert!(!slider.is_valid_move(target, blocked.clone()));
            blocked.remove(1);
            assert!(slider.is_valid_move(target, blocked));
        }
    }
}

#[test]
fn knight_jumps_to_eight_squares() {
    let knight = white(PieceType::Knight, 3, 3);
    let pieces = vec![knight];
    assert_eq!(
        reach(knight, &pieces),
        vec![(2, 1), (4, 1), (1, 2), (5, 2), (1, 4), (5, 4), (2, 5), (4, 5)]
    );
}

#[test]
fn knight_ignores_pieces_in_between() {
    let knight = white(PieceType::Knight, 3, 3);
    let alone = vec![knight];
    let mut crowded = vec![knight];
    for y in 2..5u8 {
        for x in 2..5u8 {
            if (x, y) != (3, 3) {
                crowded.push(black(PieceType::Pawn, x, y));
            }
        }
    }
    for (x, y) in [(2, 1), (4, 1), (1, 2), (5, 2), (1, 4), (5, 4), (2, 5), (4, 5)] {
        assert!(knight.is_valid_move(at(x, y), alone.clone()));
        assert!(knight.is_valid_move(at(x, y), crowded.clone()));
    }
    for (x, y) in [(3, 5), (5, 5), (3, 1), (0, 0)] {
        assert!(!knight.is_valid_move(at(x, y), alone.clone()));
        assert!(!knight.is_valid_move(at(x, y), crowded.clone()));
    }
}

#[test]
fn no_piece_moves_onto_its_own_color() {
    for color in [PieceColor::White, PieceColor::Black] {
        for kind in KINDS {
            let mover = piece(kind, color, 3, 3);
            for y in 0..8u8 {
                for x in 0..8u8 {
                    let pieces = vec![mover, piece(PieceType::Pawn, color, x, y)];
                    assert!(!mover.is_valid_move(at(x, y), pieces));
                }
            }
        }
    }
}

#[test]
fn no_piece_on_the_board_moves_to_its_own_square() {
    for kind in KINDS {
        let mover = white(kind, 3, 3);
        assert!(!mover.is_valid_move(at(3, 3), vec![mover]));
    }
}

#[test]
fn queen_and_bishop_reach_their_own_square_on_an_empty_board() {
    assert!(white(PieceType::Queen, 3, 3).is_valid_move(at(3, 3), vec![]));
    assert!(white(PieceType::Bishop, 3, 3).is_valid_move(at(3, 3), vec![]));
    assert!(white(PieceType::Rook, 3, 3).is_valid_move(at(3, 3), vec![]));
    assert!(!white(PieceType::King, 3, 3).is_valid_move(at(3, 3), vec![]));
    assert!(!white(PieceType::Knight, 3, 3).is_valid_move(at(3, 3), vec![]));
    assert!(!white(PieceType::Pawn, 3, 3).is_valid_move(at(3, 3), vec![]));
}

#[test]
fn white_pawn_single_step_needs_an_empty_square() {
    let pawn = white(PieceType::Pawn, 4, 6);
    assert!(pawn.is_valid_move(at(4, 5), vec![pawn]));
    assert!(!pawn.is_valid_move(at(4, 5), vec![pawn, black(PieceType::Pawn, 4, 5)]));
    assert!(!pawn.is_valid_move(at(4, 5), vec![pawn, white(PieceType::Pawn, 4, 5)]));
}

#[test]
fn white_pawn_double_step_needs_two_empty_squares() {
    let pawn = white(PieceType::Pawn, 4, 6);
    assert!(pawn.is_valid_move(at(4, 4), vec![pawn]));
    assert!(!pawn.is_valid_move(at(4, 4), vec![pawn, black(PieceType::Pawn, 4, 5)]));
    assert!(!pawn.is_valid_move(at(4, 4), vec![pawn, black(PieceType::Pawn, 4, 4)]));
    assert!(!pawn.is_valid_move(at(4, 4), vec![pawn, white(PieceType::Pawn, 4, 5)]));
    assert!(!pawn.is_valid_move(
        at(4, 4),
        vec![pawn, black(PieceType::Pawn, 4, 5), black(PieceType::Pawn, 4, 4)]
    ));
    assert!(pawn.is_valid_move(at(4, 4), vec![pawn, black(PieceType::Pawn, 4, 3)]));
}

#[test]
fn white_pawn_never_advances_three_squares() {
    let pawn = white(PieceType::Pawn, 4, 6);
    assert!(!pawn.is_valid_move(at(4, 3), vec![pawn]));
    assert!(!pawn.is_valid_move(at(4, 3), vec![pawn, black(PieceType::Pawn, 4, 3)]));
    assert!(!pawn.is_valid_move(at(4, 3), vec![pawn, white(PieceType::Pawn, 4, 3)]));
    assert!(!pawn.is_valid_move(at(4, 3), vec![pawn, black(PieceType::Pawn, 4, 5)]));
}

#[test]
fn white_pawn_takes_diagonally_only() {
    let pawn = white(PieceType::Pawn, 4, 6);
    assert!(pawn.is_valid_move(at(3, 5), vec![pawn, black(PieceType::Knight, 3, 5)]));
    assert!(pawn.is_valid_move(at(5, 5), vec![pawn, black(PieceType::Knight, 5, 5)]));
    assert!(!pawn.is_valid_move(at(3, 5), vec![pawn]));
    assert!(!pawn.is_valid_move(at(3, 5), vec![pawn, white(PieceType::Knight, 3, 5)]));
    assert!(!pawn.is_valid_move(at(3, 5), vec![pawn, black(PieceType::Knight, 5, 5)]));
}

#[test]
fn pawn_double_step_only_from_its_own_rank() {
    let advanced = white(PieceType::Pawn, 4, 5);
    assert!(advanced.is_valid_move(at(4, 4), vec![advanced]));
    assert!(!advanced.is_valid_move(at(4, 3), vec![advanced]));
    let black_home = black(PieceType::Pawn, 2, 1);
    assert!(black_home.is_valid_move(at(2, 3), vec![black_home]));
    let black_on_six = black(PieceType::Pawn, 2, 6);
    assert!(black_on_six.is_valid_move(at(2, 7), vec![black_on_six]));
    let white_on_one = white(PieceType::Pawn, 2, 1);
    assert!(!white_on_one.is_valid_move(at(2, 3), vec![white_on_one]));
}

#[test]
fn pawns_do_not_go_backwards_or_sideways() {
    let pawn = white(PieceType::Pawn, 4, 4);
    assert!(!pawn.is_valid_move(at(4, 5), vec![pawn]));
    assert!(!pawn.is_valid_move(at(4, 6), vec![pawn]));
    assert!(!pawn.is_valid_move(at(3, 5), vec![pawn, black(PieceType::Pawn, 3, 5)]));
    assert!(!pawn.is_valid_move(at(3, 4), vec![pawn]));
    assert!(!pawn.is_valid_move(at(3, 4), vec![pawn, black(PieceType::Pawn, 3, 4)]));
    let dark = black(PieceType::Pawn, 4, 4);
    assert!(dark.is_valid_move(at(4, 5), vec![dark]));
    assert!(!dark.is_valid_move(at(4, 3), vec![dark]));
    assert!(dark.is_valid_move(at(5, 5), vec![dark, white(PieceType::Pawn, 5, 5)]));
    assert!(!dark.is_valid_move(at(5, 3), vec![dark, white(PieceType::Pawn, 5, 3)]));
}

#[test]
fn pawn_reach_from_the_start() {
    let pieces = starting_pieces();
    let white_pawn = pieces[16 + 2 * 4];
    assert_eq!(white_pawn, white(PieceType::Pawn, 4, 6));
    assert_eq!(reach(white_pawn, &pieces), vec![(4, 4), (4, 5)]);
    let black_pawn = pieces[16 + 2 * 4 + 1];
    assert_eq!(black_pawn, black(PieceType::Pawn, 4, 1));
    assert_eq!(reach(black_pawn, &pieces), vec![(4, 2), (4, 3)]);
}

#[test]
fn only_knights_and_pawns_move_at_the_start() {
    let pieces = starting_pieces();
    for p in pieces.iter() {
        let found = reach(*p, &pieces);
        match p.kind {
            PieceType::Pawn | PieceType::Knight => assert_eq!(found.len(), 2),
            _ => assert!(found.is_empty()),
        }
    }
}

#[test]
fn the_first_piece_on_a_square_is_found() {
    let pieces = vec![
        white(PieceType::Rook, 0, 0),
        black(PieceType::Pawn, 1, 1),
        white(PieceType::Pawn, 1, 1),
    ];
    assert_eq!(get_piece_at(&pieces, at(1, 1)), Some(&black(PieceType::Pawn, 1, 1)));
    assert_eq!(get_piece_at(&pieces, at(0, 0)), Some(&white(PieceType::Rook, 0, 0)));
    assert_eq!(get_piece_at(&pieces, at(2, 2)), None);
    assert_eq!(piece_index_at(&pieces, at(1, 1)), Some(1));
    assert_eq!(piece_index_at(&pieces, at(0, 0)), Some(0));
    assert_eq!(piece_index_at(&pieces, at(2, 2)), None);
    assert_eq!(get_piece_at(&vec![], at(0, 0)), None);
}

#[test]
fn the_first_piece_on_the_target_decides() {
    let king = white(PieceType::King, 3, 3);
    let shared = vec![king, black(PieceType::Pawn, 3, 4), white(PieceType::Pawn, 3, 4)];
    assert!(king.is_valid_move(at(3, 4), shared));
    let shared = vec![king, white(PieceType::Pawn, 3, 4), black(PieceType::Pawn, 3, 4)];
    assert!(!king.is_valid_move(at(3, 4), shared));
}

#[test]
fn a_path_is_free_without_a_piece_strictly_between() {
    let pieces = vec![white(PieceType::Rook, 0, 0), black(PieceType::Pawn, 0, 3)];
    assert!(!is_path_free(at(0, 0), at(0, 7), &pieces));
    assert!(!is_path_free(at(0, 7), at(0, 0), &pieces));
    assert!(is_path_free(at(0, 0), at(0, 3), &pieces));
    assert!(is_path_free(at(0, 3), at(0, 7), &pieces));
    assert!(is_path_free(at(0, 0), at(7, 7), &pieces));
    assert!(is_path_free(at(0, 0), at(1, 2), &pieces));
    assert!(is_path_free(at(0, 0), at(0, 7), &vec![]));
}

#[test]
fn starting_pieces_are_the_standard_setup() {
    let pieces = starting_pieces();
    assert_eq!(pieces.len(), 32);
    let back = [
        PieceType::Rook,
        PieceType::Knight,
        PieceType::Bishop,
        PieceType::Queen,
        PieceType::King,
        PieceType::Bishop,
        PieceType::Knight,
        PieceType::Rook,
    ];
    for file in 0..8usize {
        assert_eq!(pieces[file], white(back[file], file as u8, 7));
        assert_eq!(pieces[8 + file], black(back[file], file as u8, 0));
        assert_eq!(pieces[16 + 2 * file], white(PieceType::Pawn, file as u8, 6));
        assert_eq!(pieces[17 + 2 * file], black(PieceType::Pawn, file as u8, 1));
    }
}

#[test]
fn starting_pieces_stand_on_different_squares_of_the_board() {
    let pieces = starting_pieces();
    for (i, a) in pieces.iter().enumerate() {
        assert!(a.square.x < 8 && a.square.y < 8);
        for b in pieces.iter().skip(i + 1) {
            assert_ne!(a.square, b.square);
        }
    }
}
