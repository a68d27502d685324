use crate::board::Square;
use crate::pieces::{
    all_on_board, first_at, lemma_first_at, lemma_only_piece_is_occupant, occupant,
    one_piece_per_square, piece_index_at, Piece, PieceColor,
};
use vstd::prelude::*;

verus! {

/// What the player has picked so far: the square clicked last, and the piece found
/// on it, named by its place in the list of pieces.
#[derive(Clone, Copy, PartialEq, Eq, Debug)]
pub struct Selection {
    pub square: Option<Square>,
    pub piece: Option<usize>,
}

/// A click of the player.
#[derive(Clone, Copy, PartialEq, Eq, Debug)]
pub enum Click {
    /// On a square of the board.
    Board(Square),
    /// Beside the board.
    Outside,
}

/// A move for the front end to carry out: the piece at place `piece` goes to
/// `target`, and the pieces at the places in `captured` leave the board.
#[derive(PartialEq, Eq, Debug)]
pub struct Move {
    pub piece: usize,
    pub target: Square,
    pub captured: Vec<usize>,
}

/// What a click leads to: the selection after it, and the move it made, if any.
#[derive(PartialEq, Eq, Debug)]
pub struct Outcome {
    pub selection: Selection,
    pub moved: Option<Move>,
}

/// How a square is drawn.
#[derive(Clone, Copy, PartialEq, Eq, Structural, Debug)]
pub enum Shade {
    Selected,
    Highlighted,
    White,
    Black,
}

/// The places below `n` that `wanted` holds of, in ascending order.
pub open spec fn places(n: int, wanted: spec_fn(int) -> bool) -> Seq<int>
    decreases n,
{
    if n <= 0 {
        Seq::empty()
    } else if wanted(n - 1) {
        places(n - 1, wanted).push(n - 1)
    } else {
        places(n - 1, wanted)
    }
}

/// The piece at place `j` is taken when a piece of `color` moves to `target`: it
/// stands there and is of the other color.
pub open spec fn is_taken(pieces: Seq<Piece>, color: PieceColor, target: Square, j: int) -> bool {
    pieces[j].square == target && pieces[j].color != color
}

/// The places of the pieces that a piece of `color` takes by moving to `target`.
pub open spec fn taken(pieces: Seq<Piece>, color: PieceColor, target: Square) -> Seq<int> {
    places(pieces.len() as int, |j: int| is_taken(pieces, color, target, j))
}

/// The piece at place `j` is still on the board once the piece at place `mover`
/// has gone to `target`: it is the mover, or it was not taken.
pub open spec fn stays(pieces: Seq<Piece>, mover: int, target: Square, j: int) -> bool {
    j == mover || !is_taken(pieces, pieces[mover].color, target, j)
}

/// The piece at place `j` once the piece at place `mover` has gone to `target`.
pub open spec fn piece_after(pieces: Seq<Piece>, mover: int, target: Square, j: int) -> Piece {
    if j == mover {
        Piece { kind: pieces[j].kind, color: pieces[j].color, square: target }
    } else {
        pieces[j]
    }
}

/// The places of the pieces that are still on the board once the piece at place
/// `mover` has gone to `target`.
pub open spec fn kept(pieces: Seq<Piece>, mover: int, target: Square) -> Seq<int> {
    places(pieces.len() as int, |j: int| stays(pieces, mover, target, j))
}

/// The board once the piece at place `mover` has gone to `target`: the pieces that
/// it took are gone, the others are in their old order, the mover on its new square.
pub open spec fn board_after(pieces: Seq<Piece>, mover: int, target: Square) -> Seq<Piece> {
    Seq::new(
        kept(pieces, mover, target).len(),
        |k: int| piece_after(pieces, mover, target, kept(pieces, mover, target)[k]),
    )
}

/// The places held in a vector, as numbers.
pub open spec fn as_places(v: Seq<usize>) -> Seq<int> {
    Seq::new(v.len(), |k: int| v[k] as int)
}

impl Selection {
    /// Nothing is selected.
    pub open spec fn cleared() -> Selection {
        Selection { square: None, piece: None }
    }

    /// The selection fits the board: a selected piece is one of `pieces` and stands on
    /// the selected square.
    pub open spec fn fits(self, pieces: Seq<Piece>) -> bool {
        self.piece matches Some(i) ==> i < pieces.len() && self.square == Some(
            pieces[i as int].square,
        )
    }

    /// The click makes a move: it falls on a square while a piece is selected, and
    /// that piece may move there.
    pub open spec fn moves(self, click: Click, pieces: Seq<Piece>) -> bool {
        &&& click matches Click::Board(target)
        &&& self.piece matches Some(i)
        &&& i < pieces.len()
        &&& pieces[i as int].valid_move(target, pieces)
    }

    /// The selection after the click. A click beside the board clears it. So does a
    /// click on a square while a piece is selected, whether the piece moves or not.
    /// With no piece selected the click selects the square and the piece on it.
    pub open spec fn after(self, click: Click, pieces: Seq<Piece>) -> Selection {
        match click {
            Click::Outside => Selection::cleared(),
            Click::Board(square) => if self.piece is Some {
                Selection::cleared()
            } else {
                Selection {
                    square: Some(square),
                    piece: match first_at(pieces, square) {
                        Some(i) => Some(i as usize),
                        None => None,
                    },
                }
            },
        }
    }
}

/// How `square` is drawn: as selected if it is the selected square, else as
/// highlighted if the pointer is over it, else in its own color.
pub open spec fn shade_of(square: Square, selected: Option<Square>, hovered: Option<Square>) -> Shade {
    if selected == Some(square) {
        Shade::Selected
    } else if hovered == Some(square) {
        Shade::Highlighted
    } else if square.white() {
        Shade::White
    } else {
        Shade::Black
    }
}

/// How `square` is drawn, given the selected square and the square under the pointer.
pub fn square_shade(square: Square, selected: Option<Square>, hovered: Option<Square>) -> (shade:
    Shade)
    ensures
        shade == shade_of(square, selected, hovered),
{
    if let Some(s) = selected {
        if s == square {
            return Shade::Selected;
        }
    }
    if let Some(h) = hovered {
        if h == square {
            return Shade::Highlighted;
        }
    }
    if square.is_white() {
        Shade::White
    } else {
        Shade::Black
    }
}

/// The places of the pieces that a piece of `color` takes by moving to `target`.
pub fn pieces_taken(pieces: &Vec<Piece>, color: PieceColor, target: Square) -> (captured: Vec<usize>)
    ensures
        as_places(captured@) == taken(pieces@, color, target),
{
    let mut captured: Vec<usize> = Vec::new();
    let mut i: usize = 0;
    while i < pieces.len()
        invariant
            i <= pieces.len(),
            as_places(captured@) == places(
                i as int,
                |j: int| is_taken(pieces@, color, target, j),
            ),
        decreases pieces.len() - i,
    {
        let ghost before = as_places(captured@);
        if pieces[i].square == target && pieces[i].color != color {
            captured.push(i);
            assert(as_places(captured@) =~= before.push(i as int));
        }
        i = i + 1;
    }
    captured
}

/// What a click does, given the selection so far and the pieces on the board.
///
/// A click beside the board clears the selection. A click on a square while a piece
/// is selected moves that piece there if it may go there, taking every piece of the
/// other color on that square, and clears the selection whether it moved or not. A
/// click on a square with no piece selected selects the square and the first piece
/// that stands on it.
pub fn select_square(selection: Selection, click: Click, pieces: &Vec<Piece>) -> (outcome: Outcome)
    ensures
        outcome.selection == selection.after(click, pieces@),
        outcome.selection.fits(pieces@),
        outcome.moved is Some == selection.moves(click, pieces@),
        outcome.moved matches Some(made) ==> {
            &&& Some(made.piece) == selection.piece
            &&& Click::Board(made.target) == click
            &&& as_places(made.captured@) == taken(
                pieces@,
                pieces@[made.piece as int].color,
                made.target,
            )
            &&& made.piece < pieces.len()
            &&& forall|k: int|
                0 <= k < made.captured.len() ==> (#[trigger] made.captured[k]) < pieces.len()
                    && made.captured[k] != made.piece
        },
{
    proof {
        lemma_selection_fits(selection, click, pieces@);
    }
    match click {
        Click::Outside => Outcome { selection: Selection { square: None, piece: None }, moved: None },
        Click::Board(square) => match selection.piece {
            Some(i) => {
                let mut moved: Option<Move> = None;
                if i < pieces.len() {
                    let mover: Piece = pieces[i];
                    if mover.is_valid_move(square, pieces.clone()) {
                        let captured: Vec<usize> = pieces_taken(pieces, mover.color, square);
                        proof {
                            lemma_taken_places(pieces@, mover.color, square);
                            assert forall|k: int| 0 <= k < captured.len() implies (
                            #[trigger] captured[k]) < pieces.len() && captured[k] != i by {
                                assert(as_places(captured@)[k] == captured[k]);
                            }
                        }
                        moved = Some(Move { piece: i, target: square, captured });
                    }
                }
                Outcome { selection: Selection { square: None, piece: None }, moved }
            },
            None => Outcome {
                selection: Selection { square: Some(square), piece: piece_index_at(pieces, square) },
                moved: None,
            },
        },
    }
}

/// The board once the piece at place `mover` has gone to `target`.
pub fn apply_move(pieces: &Vec<Piece>, mover: usize, target: Square) -> (next: Vec<Piece>)
    requires
        mover < pieces.len(),
    ensures
        next@ == board_after(pieces@, mover as int, target),
{
    let color: PieceColor = pieces[mover].color;
    let mut next: Vec<Piece> = Vec::new();
    let mut i: usize = 0;
    while i < pieces.len()
        invariant
            i <= pieces.len(),
            mover < pieces.len(),
            color == pieces@[mover as int].color,
            next@.len() == places(
                i as int,
                |j: int| stays(pieces@, mover as int, target, j),
            ).len(),
            forall|k: int|
                0 <= k < next@.len() ==> next@[k] == piece_after(
                    pieces@,
                    mover as int,
                    target,
                    places(i as int, |j: int| stays(pieces@, mover as int, target, j))[k],
                ),
        decreases pieces.len() - i,
    {
        let piece: Piece = pieces[i];
        if i == mover {
            next.push(Piece { kind: piece.kind, color: piece.color, square: target });
        } else if !(piece.square == target && piece.color != color) {
            next.push(piece);
        }
        i = i + 1;
    }
    assert(next@ =~= board_after(pieces@, mover as int, target));
    next
}

/// `places` lists, in ascending order and each once, exactly the places below `n`
/// that `wanted` holds of.
pub proof fn lemma_places(n: int, wanted: spec_fn(int) -> bool)
    ensures
        places(n, wanted).len() <= if n >= 0 { n } else { 0 },
        forall|k: int|
            0 <= k < places(n, wanted).len() ==> 0 <= #[trigger] places(n, wanted)[k] < n && wanted(
                places(n, wanted)[k],
            ),
        forall|a: int, b: int|
            0 <= a < b < places(n, wanted).len() ==> #[trigger] places(n, wanted)[a]
                < #[trigger] places(n, wanted)[b],
        forall|j: int| 0 <= j < n && wanted(j) ==> #[trigger] places(n, wanted).contains(j),
    decreases n,
{
    if n > 0 {
        lemma_places(n - 1, wanted);
        let earlier = places(n - 1, wanted);
        let all = places(n, wanted);
        assert forall|j: int| 0 <= j < n && wanted(j) implies #[trigger] all.contains(j) by {
            if j < n - 1 {
                assert(earlier.contains(j));
                let k: int = choose|k: int| 0 <= k < earlier.len() && earlier[k] == j;
                assert(all[k] == j);
            } else {
                assert(all[all.len() - 1] == j);
            }
        }
    }
}

/// Where each place below `n` is wanted by exactly one of two lists, the two lists
/// share out the `n` places between them.
pub proof fn lemma_places_split(n: int, wanted: spec_fn(int) -> bool, other: spec_fn(int) -> bool)
    requires
        0 <= n,
        forall|j: int| 0 <= j < n ==> #[trigger] wanted(j) != other(j),
    ensures
        places(n, wanted).len() + places(n, other).len() == n,
    decreases n,
{
    if n > 0 {
        lemma_places_split(n - 1, wanted, other);
    }
}

/// The pieces taken are the pieces of the other color on the target, and no others:
/// each is on the list, and each piece is taken once.
pub proof fn lemma_taken_places(pieces: Seq<Piece>, color: PieceColor, target: Square)
    ensures
        forall|j: int|
            #[trigger] taken(pieces, color, target).contains(j) <==> (0 <= j < pieces.len()
                && pieces[j].square == target && pieces[j].color != color),
        forall|k: int|
            0 <= k < taken(pieces, color, target).len() ==> {
                let j = #[trigger] taken(pieces, color, target)[k];
                0 <= j < pieces.len() && pieces[j].square == target && pieces[j].color != color
            },
        forall|a: int, b: int|
            0 <= a < b < taken(pieces, color, target).len() ==> #[trigger] taken(
                pieces,
                color,
                target,
            )[a] < #[trigger] taken(pieces, color, target)[b],
{
    lemma_places(pieces.len() as int, |j: int| is_taken(pieces, color, target, j));
}

/// Where no two pieces share a square, a move takes one piece at most, and the piece
/// it takes is the occupant of the target.
pub proof fn lemma_at_most_one_taken(pieces: Seq<Piece>, color: PieceColor, target: Square)
    requires
        one_piece_per_square(pieces),
    ensures
        taken(pieces, color, target).len() <= 1,
        taken(pieces, color, target).len() == 1 ==> first_at(pieces, target) == Some(
            taken(pieces, color, target)[0],
        ),
{
    let t = taken(pieces, color, target);
    lemma_places(pieces.len() as int, |j: int| is_taken(pieces, color, target, j));
    if t.len() >= 2 {
        assert(pieces[t[0]].square == pieces[t[1]].square);
    }
    if t.len() == 1 {
        lemma_only_piece_is_occupant(pieces, t[0]);
    }
}

/// A move takes nothing off the board but the pieces it captures, and puts nothing
/// on it: the pieces left are the old ones in their old order, kind and color, the
/// mover on the target and the others where they stood.
pub proof fn lemma_move_leaves_the_rest(pieces: Seq<Piece>, mover: int, target: Square)
    requires
        0 <= mover < pieces.len(),
    ensures
        board_after(pieces, mover, target).len() + taken(
            pieces,
            pieces[mover].color,
            target,
        ).len() == pieces.len(),
        !taken(pieces, pieces[mover].color, target).contains(mover),
        forall|j: int|
            0 <= j < pieces.len() && !taken(pieces, pieces[mover].color, target).contains(j)
                ==> board_after(pieces, mover, target).contains(
                #[trigger] piece_after(pieces, mover, target, j),
            ),
        forall|k: int|
            0 <= k < board_after(pieces, mover, target).len() ==> {
                let j = kept(pieces, mover, target)[k];
                &&& 0 <= j < pieces.len()
                &&& #[trigger] board_after(pieces, mover, target)[k] == piece_after(
                    pieces,
                    mover,
                    target,
                    j,
                )
                &&& !taken(pieces, pieces[mover].color, target).contains(j)
            },
{
    let color = pieces[mover].color;
    let after = board_after(pieces, mover, target);
    let origins = kept(pieces, mover, target);
    lemma_places(pieces.len() as int, |j: int| stays(pieces, mover, target, j));
    lemma_taken_places(pieces, color, target);
    lemma_places_split(
        pieces.len() as int,
        |j: int| stays(pieces, mover, target, j),
        |j: int| is_taken(pieces, color, target, j),
    );
    assert forall|j: int|
        0 <= j < pieces.len() && !taken(pieces, color, target).contains(j) implies after.contains(
        #[trigger] piece_after(pieces, mover, target, j),
    ) by {
        assert(origins.contains(j));
        let k: int = choose|k: int| 0 <= k < origins.len() && origins[k] == j;
        assert(after[k] == piece_after(pieces, mover, target, j));
    }
}

/// A legal move on a board where no two pieces share a square leads to such a board
/// again: the mover stands on the target, alone.
pub proof fn lemma_move_keeps_pieces_apart(pieces: Seq<Piece>, mover: int, target: Square)
    requires
        one_piece_per_square(pieces),
        0 <= mover < pieces.len(),
        pieces[mover].valid_move(target, pieces),
    ensures
        one_piece_per_square(board_after(pieces, mover, target)),
        occupant(board_after(pieces, mover, target), target) == Some(
            piece_after(pieces, mover, target, mover),
        ),
{
    let after = board_after(pieces, mover, target);
    let origins = kept(pieces, mover, target);
    lemma_places(pieces.len() as int, |j: int| stays(pieces, mover, target, j));
    assert forall|a: int, b: int| 0 <= a < b < after.len() implies (#[trigger] after[a]).square != (
    #[trigger] after[b]).square by {
        let j: int = origins[a];
        let k: int = origins[b];
        if j == mover && pieces[k].square == target {
            lemma_only_piece_is_occupant(pieces, k);
        }
        if k == mover && pieces[j].square == target {
            lemma_only_piece_is_occupant(pieces, j);
        }
    }
    assert(origins.contains(mover));
    let m: int = choose|m: int| 0 <= m < origins.len() && origins[m] == mover;
    lemma_only_piece_is_occupant(after, m);
}

/// A move to a square of the board keeps every piece on the board.
pub proof fn lemma_move_stays_on_board(pieces: Seq<Piece>, mover: int, target: Square)
    requires
        all_on_board(pieces),
        0 <= mover < pieces.len(),
        target.on_board(),
    ensures
        all_on_board(board_after(pieces, mover, target)),
{
    lemma_places(pieces.len() as int, |j: int| stays(pieces, mover, target, j));
}

/// Whatever was selected before, the selection after a click fits the board.
pub proof fn lemma_selection_fits(selection: Selection, click: Click, pieces: Seq<Piece>)
    requires
        pieces.len() <= usize::MAX,
    ensures
        selection.after(click, pieces).fits(pieces),
{
    if let Click::Board(square) = click {
        lemma_first_at(pieces, square);
    }
}

} // verus!
