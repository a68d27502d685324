use crate::board::Square;
use vstd::prelude::*;

verus! {

/// The kinds of pieces.
#[derive(Clone, Copy, PartialEq, Eq, Hash, Structural, Debug)]
pub enum PieceType {
    King,
    Queen,
    Rook,
    Bishop,
    Knight,
    Pawn,
}

/// The two players' colors.
#[derive(Clone, Copy, PartialEq, Eq, Hash, Structural, Debug)]
pub enum PieceColor {
    White,
    Black,
}

/// A piece and the square it stands on.
#[derive(Clone, Copy, PartialEq, Eq, Structural, Debug)]
pub struct Piece {
    pub kind: PieceType,
    pub color: PieceColor,
    pub square: Square,
}

impl PieceColor {
    /// The other color.
    pub open spec fn opponent(self) -> PieceColor {
        match self {
            PieceColor::White => PieceColor::Black,
            PieceColor::Black => PieceColor::White,
        }
    }

    /// The rank on which the pawns of this color start, and from which alone they
    /// may advance two squares.
    pub open spec fn pawn_rank(self) -> int {
        match self {
            PieceColor::White => 6,
            PieceColor::Black => 1,
        }
    }

    /// A pawn of this color going from `from` to `to` does not go backwards: white
    /// pawns walk towards rank 0, black pawns away from it.
    pub open spec fn not_backwards(self, from: Square, to: Square) -> bool {
        match self {
            PieceColor::White => to.y <= from.y,
            PieceColor::Black => to.y >= from.y,
        }
    }
}

/// The index of the first of `pieces` that stands on `square`, if any does.
pub open spec fn first_at(pieces: Seq<Piece>, square: Square) -> Option<int>
    decreases pieces.len(),
{
    if pieces.len() == 0 {
        None
    } else {
        match first_at(pieces.drop_last(), square) {
            Some(earlier) => Some(earlier),
            None => if pieces.last().square == square {
                Some(pieces.len() - 1)
            } else {
                None
            },
        }
    }
}

/// The piece that stands on `square`: the first of `pieces` found there, if any.
pub open spec fn occupant(pieces: Seq<Piece>, square: Square) -> Option<Piece> {
    match first_at(pieces, square) {
        Some(i) => Some(pieces[i]),
        None => None,
    }
}

/// The color of the piece that stands on `square`, if any does.
pub open spec fn color_at(pieces: Seq<Piece>, square: Square) -> Option<PieceColor> {
    match occupant(pieces, square) {
        Some(p) => Some(p.color),
        None => None,
    }
}

/// Some piece stands on `square`.
pub open spec fn occupied(pieces: Seq<Piece>, square: Square) -> bool {
    exists|i: int| 0 <= i < pieces.len() && (#[trigger] pieces[i]).square == square
}

/// No piece stands strictly between `begin` and `end`.
pub open spec fn path_free(begin: Square, end: Square, pieces: Seq<Piece>) -> bool {
    forall|i: int|
        0 <= i < pieces.len() ==> !(#[trigger] pieces[i]).square.in_between(begin, end)
}

/// The shape of a knight's jump: two squares one way and one the other.
pub open spec fn knight_jump(from: Square, to: Square) -> bool {
    ||| from.rank_distance(to) == 2 && from.file_distance(to) == 1
    ||| from.rank_distance(to) == 1 && from.file_distance(to) == 2
}

/// The moves of a pawn of `color` from `from` to `to`: one square straight ahead onto
/// an empty square; two squares straight ahead from its starting rank, both squares
/// empty; or one square diagonally ahead onto an opposing piece.
pub open spec fn pawn_move(color: PieceColor, from: Square, to: Square, pieces: Seq<Piece>) -> bool {
    &&& color.not_backwards(from, to)
    &&& {
        ||| from.same_file(to) && from.rank_distance(to) == 1 && color_at(pieces, to) is None
        ||| from.same_file(to) && from.rank_distance(to) == 2 && from.y == color.pawn_rank()
            && color_at(pieces, to) is None && path_free(from, to, pieces)
        ||| from.diagonal(to) && from.chebyshev_distance(to) == 1 && color_at(pieces, to) == Some(
            color.opponent(),
        )
    }
}

impl Piece {
    /// The piece may move to `target` on the board that holds `pieces`: no piece of
    /// its own color stands there, and the move has the shape that its kind allows,
    /// along a free path where the kind needs one.
    pub open spec fn valid_move(self, target: Square, pieces: Seq<Piece>) -> bool {
        let from = self.square;
        let free = path_free(from, target, pieces);
        &&& color_at(pieces, target) != Some(self.color)
        &&& match self.kind {
            PieceType::King => from.chebyshev_distance(target) == 1,
            PieceType::Queen => (from.diagonal(target) || from.orthogonal(target)) && free,
            PieceType::Rook => from.orthogonal(target) && free,
            PieceType::Bishop => from.diagonal(target) && free,
            PieceType::Knight => knight_jump(from, target),
            PieceType::Pawn => pawn_move(self.color, from, target, pieces),
        }
    }

    /// The piece may move to `square` on the board that holds `pieces`.
    pub fn is_valid_move(&self, square: Square, pieces: Vec<Piece>) -> (r: bool)
        ensures
            r == self.valid_move(square, pieces@),
            color_at(pieces@, square) == Some(self.color) ==> !r,
    {
        let at_target: Option<&Piece> = get_piece_at(&pieces, square);
        if let Some(own) = at_target {
            if own.color == self.color {
                return false;
            }
        }
        match self.kind {
            PieceType::King => self.square.chebyshev_distance_to(square) == 1,
            PieceType::Queen => {
                (self.square.is_diagonal_to(square) || self.square.is_orthogonal_to(square))
                    && is_path_free(self.square, square, &pieces)
            },
            PieceType::Rook => {
                self.square.is_orthogonal_to(square) && is_path_free(self.square, square, &pieces)
            },
            PieceType::Bishop => {
                self.square.is_diagonal_to(square) && is_path_free(self.square, square, &pieces)
            },
            PieceType::Knight => {
                let rank_distance: u8 = self.square.rank_distance_to(square);
                let file_distance: u8 = self.square.file_distance_to(square);
                (rank_distance == 2 && file_distance == 1)
                    || (rank_distance == 1 && file_distance == 2)
            },
            PieceType::Pawn => {
                let opponent_color: PieceColor;
                let two_square_advance_rank: u8;
                match self.color {
                    PieceColor::White => {
                        if square.y > self.square.y {
                            return false;
                        }
                        opponent_color = PieceColor::Black;
                        two_square_advance_rank = 6;
                    },
                    PieceColor::Black => {
                        if square.y < self.square.y {
                            return false;
                        }
                        opponent_color = PieceColor::White;
                        two_square_advance_rank = 1;
                    },
                }
                if self.square.is_on_same_file(square) {
                    let rank_distance: u8 = self.square.rank_distance_to(square);
                    if rank_distance == 1 {
                        return at_target.is_none();
                    }
                    if rank_distance == 2 {
                        return self.square.y == two_square_advance_rank
                            && at_target.is_none()
                            && is_path_free(self.square, square, &pieces);
                    }
                }
                if self.square.is_diagonal_to(square)
                    && self.square.chebyshev_distance_to(square) == 1
                {
                    return match at_target {
                        Some(taken) => taken.color == opponent_color,
                        None => false,
                    };
                }
                false
            },
        }
    }
}

/// The place in `pieces` of the first piece that stands on `square`.
pub fn piece_index_at(pieces: &Vec<Piece>, square: Square) -> (found: Option<usize>)
    ensures
        match found {
            Some(i) => first_at(pieces@, square) == Some(i as int) && i < pieces.len(),
            None => first_at(pieces@, square) is None,
        },
{
    let mut i: usize = 0;
    while i < pieces.len()
        invariant
            i <= pieces.len(),
            forall|j: int| 0 <= j < i ==> (#[trigger] pieces@[j]).square != square,
        decreases pieces.len() - i,
    {
        if pieces[i].square == square {
            proof {
                lemma_first_is_found(pieces@, square, i as int);
            }
            return Some(i);
        }
        i = i + 1;
    }
    proof {
        lemma_first_at(pieces@, square);
    }
    None
}

/// The first piece of `pieces` that stands on `square`.
pub fn get_piece_at(pieces: &Vec<Piece>, square: Square) -> (found: Option<&Piece>)
    ensures
        found == match occupant(pieces@, square) {
            Some(p) => Some(&p),
            None => None,
        },
{
    match piece_index_at(pieces, square) {
        Some(i) => Some(&pieces[i]),
        None => None,
    }
}

/// No piece of `pieces` stands strictly between `begin` and `end`.
pub fn is_path_free(begin: Square, end: Square, pieces: &Vec<Piece>) -> (free: bool)
    ensures
        free == path_free(begin, end, pieces@),
{
    let mut i: usize = 0;
    while i < pieces.len()
        invariant
            i <= pieces.len(),
            forall|j: int| 0 <= j < i ==> !(#[trigger] pieces@[j]).square.in_between(begin, end),
        decreases pieces.len() - i,
    {
        if pieces[i].square.is_inbetween(begin, end) {
            return false;
        }
        i = i + 1;
    }
    true
}

/// The piece at index `i` stands on `square`, and no earlier piece does.
pub open spec fn stands_first(pieces: Seq<Piece>, square: Square, i: int) -> bool {
    &&& 0 <= i < pieces.len()
    &&& pieces[i].square == square
    &&& forall|j: int| 0 <= j < i ==> (#[trigger] pieces[j]).square != square
}

/// No two pieces share a square.
pub open spec fn one_piece_per_square(pieces: Seq<Piece>) -> bool {
    forall|i: int, j: int|
        0 <= i < j < pieces.len() ==> (#[trigger] pieces[i]).square != (#[trigger] pieces[j]).square
}

/// Every piece stands on a square of the board.
pub open spec fn all_on_board(pieces: Seq<Piece>) -> bool {
    forall|i: int| 0 <= i < pieces.len() ==> (#[trigger] pieces[i]).square.on_board()
}

/// `first_at` finds the first piece that stands on the square, and finds none
/// exactly when the square is not occupied.
pub proof fn lemma_first_at(pieces: Seq<Piece>, square: Square)
    ensures
        first_at(pieces, square) matches Some(i) ==> stands_first(pieces, square, i),
        first_at(pieces, square) is Some <==> occupied(pieces, square),
        occupant(pieces, square) is Some <==> occupied(pieces, square),
        occupant(pieces, square) matches Some(p) ==> p.square == square,
    decreases pieces.len(),
{
    if pieces.len() > 0 {
        let earlier = pieces.drop_last();
        lemma_first_at(earlier, square);
        if first_at(earlier, square) is Some {
            let i: int = first_at(earlier, square)->0;
            assert forall|j: int| 0 <= j < i implies (#[trigger] pieces[j]).square != square by {
                assert(earlier[j].square != square);
            }
        } else {
            assert forall|j: int| 0 <= j < pieces.len() - 1 implies (#[trigger] pieces[j]).square
                != square by {
                assert(earlier[j].square != square);
            }
        }
    }
}

/// The first piece on a square is the one that `first_at` finds, and the occupant.
pub proof fn lemma_first_is_found(pieces: Seq<Piece>, square: Square, i: int)
    requires
        stands_first(pieces, square, i),
    ensures
        first_at(pieces, square) == Some(i),
        occupant(pieces, square) == Some(pieces[i]),
{
    lemma_first_at(pieces, square);
}

/// Where no two pieces share a square, any piece on a square is its occupant.
pub proof fn lemma_only_piece_is_occupant(pieces: Seq<Piece>, i: int)
    requires
        one_piece_per_square(pieces),
        0 <= i < pieces.len(),
    ensures
        first_at(pieces, pieces[i].square) == Some(i),
        occupant(pieces, pieces[i].square) == Some(pieces[i]),
{
    lemma_first_is_found(pieces, pieces[i].square, i);
}

/// A piece put on the board, at any place in the list, changes the occupant of no
/// square but its own.
pub proof fn lemma_occupant_elsewhere(pieces: Seq<Piece>, square: Square, placed: Piece, at: int)
    requires
        0 <= at <= pieces.len(),
        placed.square != square,
    ensures
        occupant(pieces.insert(at, placed), square) == occupant(pieces, square),
{
    let after = pieces.insert(at, placed);
    lemma_first_at(pieces, square);
    lemma_first_at(after, square);
    if first_at(pieces, square) is Some {
        let i: int = first_at(pieces, square)->0;
        let k: int = if i < at { i } else { i + 1 };
        assert(stands_first(after, square, k));
        lemma_first_is_found(after, square, k);
    } else if first_at(after, square) is Some {
        let k: int = first_at(after, square)->0;
        assert(after[k].square == square);
        assert(occupied(pieces, square)) by {
            if k < at {
                assert(pieces[k] == after[k]);
            } else {
                assert(pieces[k - 1] == after[k]);
            }
        }
    }
}

/// With a piece put on the board, a path is free exactly when it was free before
/// and the new piece does not stand on it.
pub proof fn lemma_path_with_piece(
    pieces: Seq<Piece>,
    begin: Square,
    end: Square,
    placed: Piece,
    at: int,
)
    requires
        0 <= at <= pieces.len(),
    ensures
        path_free(begin, end, pieces.insert(at, placed)) <==> (path_free(begin, end, pieces)
            && !placed.square.in_between(begin, end)),
{
    let after = pieces.insert(at, placed);
    assert(after[at] == placed);
    if path_free(begin, end, after) {
        assert forall|i: int| 0 <= i < pieces.len() implies !(#[trigger] pieces[i]).square.in_between(
            begin,
            end,
        ) by {
            if i < at {
                assert(after[i] == pieces[i]);
            } else {
                assert(after[i + 1] == pieces[i]);
            }
        }
    }
    if path_free(begin, end, pieces) && !placed.square.in_between(begin, end) {
        assert forall|i: int| 0 <= i < after.len() implies !(#[trigger] after[i]).square.in_between(
            begin,
            end,
        ) by {
            if i > at {
                assert(after[i] == pieces[i - 1]);
            }
        }
    }
}

/// A piece never moves onto a piece of its own color, whatever its kind. Where
/// several pieces share the target, this holds of the one that comes first, so of a
/// piece that has no piece of the other color before it.
pub proof fn lemma_own_piece_in_the_way(mover: Piece, target: Square, pieces: Seq<Piece>, i: int)
    requires
        0 <= i < pieces.len(),
        pieces[i].square == target,
        pieces[i].color == mover.color,
        forall|j: int|
            0 <= j < i && (#[trigger] pieces[j]).square == target ==> pieces[j].color
                == mover.color,
    ensures
        !mover.valid_move(target, pieces),
{
    lemma_first_at(pieces, target);
    let k: int = first_at(pieces, target)->0;
    assert(k <= i) by {
        if i < k {
            assert(pieces[i].square != target);
        }
    }
    assert(pieces[k].color == mover.color);
}

/// A piece that is itself on the board never moves to the square it stands on.
pub proof fn lemma_no_move_on_the_spot(pieces: Seq<Piece>, i: int)
    requires
        one_piece_per_square(pieces),
        0 <= i < pieces.len(),
    ensures
        !pieces[i].valid_move(pieces[i].square, pieces),
{
    lemma_only_piece_is_occupant(pieces, i);
}

/// A knight jumps: a piece put on any square but the target changes nothing about
/// where the knight may go.
pub proof fn lemma_knight_jumps_over(
    knight: Piece,
    target: Square,
    pieces: Seq<Piece>,
    placed: Piece,
    at: int,
)
    requires
        knight.kind == PieceType::Knight,
        0 <= at <= pieces.len(),
        placed.square != target,
    ensures
        knight.valid_move(target, pieces.insert(at, placed)) == knight.valid_move(target, pieces),
{
    lemma_occupant_elsewhere(pieces, target, placed, at);
}

/// A rook, bishop or queen does not pass a piece of either color: with a piece
/// strictly between it and the target the move is not legal, and once that piece
/// is taken off again the move is as legal as it was before.
pub proof fn lemma_slider_blocked(
    slider: Piece,
    target: Square,
    pieces: Seq<Piece>,
    blocker: Piece,
    at: int,
)
    requires
        slider.kind == PieceType::Rook || slider.kind == PieceType::Bishop || slider.kind
            == PieceType::Queen,
        0 <= at <= pieces.len(),
        blocker.square.in_between(slider.square, target),
    ensures
        !slider.valid_move(target, pieces.insert(at, blocker)),
        slider.valid_move(target, pieces.insert(at, blocker).remove(at)) == slider.valid_move(
            target,
            pieces,
        ),
{
    lemma_path_with_piece(pieces, slider.square, target, blocker, at);
    assert(pieces.insert(at, blocker).remove(at) =~= pieces);
}

/// A pawn steps one square straight ahead exactly when that square is empty.
pub proof fn lemma_pawn_single_step(pawn: Piece, target: Square, pieces: Seq<Piece>)
    requires
        pawn.kind == PieceType::Pawn,
        pawn.color.not_backwards(pawn.square, target),
        pawn.square.same_file(target),
        pawn.square.rank_distance(target) == 1,
    ensures
        pawn.valid_move(target, pieces) <==> !occupied(pieces, target),
{
    lemma_first_at(pieces, target);
}

/// A pawn advances two squares exactly when it stands on its starting rank and both
/// the square it passes and the square it reaches are empty.
pub proof fn lemma_pawn_double_step(pawn: Piece, target: Square, pieces: Seq<Piece>)
    requires
        pawn.kind == PieceType::Pawn,
        pawn.color.not_backwards(pawn.square, target),
        pawn.square.same_file(target),
        pawn.square.rank_distance(target) == 2,
    ensures
        pawn.valid_move(target, pieces) <==> {
            let passed = Square { x: pawn.square.x, y: ((pawn.square.y + target.y) / 2) as u8 };
            &&& pawn.square.y == pawn.color.pawn_rank()
            &&& !occupied(pieces, passed)
            &&& !occupied(pieces, target)
        },
{
    let passed = Square { x: pawn.square.x, y: ((pawn.square.y + target.y) / 2) as u8 };
    lemma_first_at(pieces, target);
    assert(passed.in_between(pawn.square, target));
    if path_free(pawn.square, target, pieces) {
        assert forall|i: int| 0 <= i < pieces.len() implies (#[trigger] pieces[i]).square
            != passed by {
            assert(!pieces[i].square.in_between(pawn.square, target));
        }
    }
    if !occupied(pieces, passed) {
        assert forall|i: int| 0 <= i < pieces.len() implies !(#[trigger] pieces[i]).square.in_between(
            pawn.square,
            target,
        ) by {
            assert(pieces[i].square != passed);
        }
    }
}

/// A pawn never advances three squares or more, and never leaves its file by more
/// than one square.
pub proof fn lemma_pawn_reach(pawn: Piece, target: Square, pieces: Seq<Piece>)
    requires
        pawn.kind == PieceType::Pawn,
        pawn.valid_move(target, pieces),
    ensures
        pawn.square.rank_distance(target) == 1 || pawn.square.rank_distance(target) == 2,
        pawn.square.file_distance(target) <= 1,
        pawn.color.not_backwards(pawn.square, target),
{
}

/// A pawn steps one square diagonally ahead exactly when it takes a piece of the
/// other color there.
pub proof fn lemma_pawn_capture(pawn: Piece, target: Square, pieces: Seq<Piece>)
    requires
        pawn.kind == PieceType::Pawn,
        pawn.color.not_backwards(pawn.square, target),
        pawn.square.rank_distance(target) == 1,
        pawn.square.file_distance(target) == 1,
    ensures
        pawn.valid_move(target, pieces) <==> color_at(pieces, target) == Some(
            pawn.color.opponent(),
        ),
        !occupied(pieces, target) ==> !pawn.valid_move(target, pieces),
{
    lemma_first_at(pieces, target);
}

/// The kind of piece that starts on `file` of its player's back rank.
pub open spec fn back_rank_kind(file: int) -> PieceType {
    if file == 0 || file == 7 {
        PieceType::Rook
    } else if file == 1 || file == 6 {
        PieceType::Knight
    } else if file == 2 || file == 5 {
        PieceType::Bishop
    } else if file == 3 {
        PieceType::Queen
    } else {
        PieceType::King
    }
}

/// The `i`-th piece of the starting position: the white back rank on rank 7, the
/// black back rank on rank 0, each from file 0 to file 7, then for each file in turn
/// the white pawn on rank 6 and the black pawn on rank 1.
pub open spec fn starting_piece(i: int) -> Piece {
    if i < 8 {
        Piece {
            kind: back_rank_kind(i),
            color: PieceColor::White,
            square: Square { x: i as u8, y: 7 },
        }
    } else if i < 16 {
        Piece {
            kind: back_rank_kind(i - 8),
            color: PieceColor::Black,
            square: Square { x: (i - 8) as u8, y: 0 },
        }
    } else if (i - 16) % 2 == 0 {
        Piece {
            kind: PieceType::Pawn,
            color: PieceColor::White,
            square: Square { x: ((i - 16) / 2) as u8, y: 6 },
        }
    } else {
        Piece {
            kind: PieceType::Pawn,
            color: PieceColor::Black,
            square: Square { x: ((i - 16) / 2) as u8, y: 1 },
        }
    }
}

/// The 32 pieces at the start of a game.
pub open spec fn starting_position() -> Seq<Piece> {
    Seq::new(32, |i: int| starting_piece(i))
}

/// The pieces at the start of a game.
pub fn starting_pieces() -> (pieces: Vec<Piece>)
    ensures
        pieces@ == starting_position(),
{
    let mut pieces: Vec<Piece> = vec![
        Piece { kind: PieceType::Rook, color: PieceColor::White, square: Square { x: 0, y: 7 } },
        Piece { kind: PieceType::Knight, color: PieceColor::White, square: Square { x: 1, y: 7 } },
        Piece { kind: PieceType::Bishop, color: PieceColor::White, square: Square { x: 2, y: 7 } },
        Piece { kind: PieceType::Queen, color: PieceColor::White, square: Square { x: 3, y: 7 } },
        Piece { kind: PieceType::King, color: PieceColor::White, square: Square { x: 4, y: 7 } },
        Piece { kind: PieceType::Bishop, color: PieceColor::White, square: Square { x: 5, y: 7 } },
        Piece { kind: PieceType::Knight, color: PieceColor::White, square: Square { x: 6, y: 7 } },
        Piece { kind: PieceType::Rook, color: PieceColor::White, square: Square { x: 7, y: 7 } },
        Piece { kind: PieceType::Rook, color: PieceColor::Black, square: Square { x: 0, y: 0 } },
        Piece { kind: PieceType::Knight, color: PieceColor::Black, square: Square { x: 1, y: 0 } },
        Piece { kind: PieceType::Bishop, color: PieceColor::Black, square: Square { x: 2, y: 0 } },
        Piece { kind: PieceType::Queen, color: PieceColor::Black, square: Square { x: 3, y: 0 } },
        Piece { kind: PieceType::King, color: PieceColor::Black, square: Square { x: 4, y: 0 } },
        Piece { kind: PieceType::Bishop, color: PieceColor::Black, square: Square { x: 5, y: 0 } },
        Piece { kind: PieceType::Knight, color: PieceColor::Black, square: Square { x: 6, y: 0 } },
        Piece { kind: PieceType::Rook, color: PieceColor::Black, square: Square { x: 7, y: 0 } },
    ];
    let mut file: u8 = 0;
    while file < 8
        invariant
            file <= 8,
            pieces@.len() == 16 + 2 * file,
            forall|k: int| 0 <= k < pieces@.len() ==> pieces@[k] == starting_piece(k),
        decreases 8 - file,
    {
        pieces.push(
            Piece { kind: PieceType::Pawn, color: PieceColor::White, square: Square { x: file, y: 6 } },
        );
        pieces.push(
            Piece { kind: PieceType::Pawn, color: PieceColor::Black, square: Square { x: file, y: 1 } },
        );
        file = file + 1;
    }
    assert(pieces@ =~= starting_position());
    pieces
}

/// The starting position stays on the board and puts no two pieces on one square.
pub proof fn lemma_starting_position_is_sound()
    ensures
        starting_position().len() == 32,
        one_piece_per_square(starting_position()),
        all_on_board(starting_position()),
{
}

} // verus!
