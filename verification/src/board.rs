use vstd::prelude::*;

verus! {

/// A square of the board: `x` is the file and `y` the rank, each counted from 0.
#[derive(Clone, Copy, PartialEq, Eq, Structural, Debug)]
pub struct Square {
    pub x: u8,
    pub y: u8,
}

/// The distance between two coordinates on one axis.
pub open spec fn axis_distance(a: int, b: int) -> int {
    if a <= b {
        b - a
    } else {
        a - b
    }
}

/// `v` lies strictly inside the span whose ends are `a` and `b`, in either order.
pub open spec fn strictly_inside(v: int, a: int, b: int) -> bool {
    (a < v && v < b) || (b < v && v < a)
}

impl Square {
    /// The square lies on the 8 by 8 board.
    pub open spec fn on_board(self) -> bool {
        self.x < 8 && self.y < 8
    }

    /// The square is a light one: the sum of its coordinates is odd.
    pub open spec fn white(self) -> bool {
        (self.x + self.y) % 2 == 1
    }

    /// How many ranks apart the two squares are.
    pub open spec fn rank_distance(self, other: Square) -> int {
        axis_distance(self.y as int, other.y as int)
    }

    /// How many files apart the two squares are.
    pub open spec fn file_distance(self, other: Square) -> int {
        axis_distance(self.x as int, other.x as int)
    }

    /// Both squares are on one rank.
    pub open spec fn same_rank(self, other: Square) -> bool {
        self.rank_distance(other) == 0
    }

    /// Both squares are on one file.
    pub open spec fn same_file(self, other: Square) -> bool {
        self.file_distance(other) == 0
    }

    /// Both squares are on one rank or on one file.
    pub open spec fn orthogonal(self, other: Square) -> bool {
        self.same_rank(other) || self.same_file(other)
    }

    /// Both distances agree. A square is diagonal to itself.
    pub open spec fn diagonal(self, other: Square) -> bool {
        self.rank_distance(other) == self.file_distance(other)
    }

    /// The larger of the two distances: the number of king steps between the squares.
    pub open spec fn chebyshev_distance(self, other: Square) -> int {
        if self.rank_distance(other) >= self.file_distance(other) {
            self.rank_distance(other)
        } else {
            self.file_distance(other)
        }
    }

    /// The square lies strictly between `a` and `b` on the rank, file or diagonal
    /// that joins them.
    pub open spec fn in_between(self, a: Square, b: Square) -> bool {
        let x_inside = strictly_inside(self.x as int, a.x as int, b.x as int);
        let y_inside = strictly_inside(self.y as int, a.y as int, b.y as int);
        ||| a.same_rank(b) && self.same_rank(a) && x_inside
        ||| a.same_file(b) && self.same_file(a) && y_inside
        ||| a.diagonal(b) && self.diagonal(a) && self.diagonal(b) && x_inside && y_inside
    }

    /// The square is a light one.
    pub fn is_white(&self) -> (r: bool)
        ensures
            r == self.white(),
    {
        (self.x % 2 == 0) != (self.y % 2 == 0)
    }

    /// The square lies strictly between `square1` and `square2` on the rank, file
    /// or diagonal that joins them.
    pub fn is_inbetween(&self, square1: Square, square2: Square) -> (r: bool)
        ensures
            r == self.in_between(square1, square2),
    {
        let min_x: u8 = if square1.x <= square2.x { square1.x } else { square2.x };
        let max_x: u8 = if square1.x <= square2.x { square2.x } else { square1.x };
        let min_y: u8 = if square1.y <= square2.y { square1.y } else { square2.y };
        let max_y: u8 = if square1.y <= square2.y { square2.y } else { square1.y };
        (square1.is_on_same_rank(square2)
            && self.is_on_same_rank(square1)
            && (min_x < self.x && self.x < max_x))
            || (square1.is_on_same_file(square2)
                && self.is_on_same_file(square1)
                && (min_y < self.y && self.y < max_y))
            || (square1.is_diagonal_to(square2)
                && self.is_diagonal_to(square1)
                && (min_x < self.x && self.x < max_x)
                && (min_y < self.y && self.y < max_y))
    }

    /// The larger of the rank distance and the file distance to `square`.
    pub fn chebyshev_distance_to(&self, square: Square) -> (d: u8)
        ensures
            d as int == self.chebyshev_distance(square),
    {
        let rank: u8 = self.rank_distance_to(square);
        let file: u8 = self.file_distance_to(square);
        if rank >= file {
            rank
        } else {
            file
        }
    }

    /// `square` is on the same rank or on the same file.
    pub fn is_orthogonal_to(&self, square: Square) -> (r: bool)
        ensures
            r == self.orthogonal(square),
    {
        self.is_on_same_rank(square) || self.is_on_same_file(square)
    }

    /// `square` is as many ranks away as files. A square is diagonal to itself.
    pub fn is_diagonal_to(&self, square: Square) -> (r: bool)
        ensures
            r == self.diagonal(square),
    {
        self.rank_distance_to(square) == self.file_distance_to(square)
    }

    /// `square` is on the same rank.
    pub fn is_on_same_rank(&self, square: Square) -> (r: bool)
        ensures
            r == self.same_rank(square),
    {
        self.rank_distance_to(square) == 0
    }

    /// `square` is on the same file.
    pub fn is_on_same_file(&self, square: Square) -> (r: bool)
        ensures
            r == self.same_file(square),
    {
        self.file_distance_to(square) == 0
    }

    /// How many ranks away `square` is.
    pub fn rank_distance_to(&self, square: Square) -> (d: u8)
        ensures
            d as int == self.rank_distance(square),
    {
        if self.y <= square.y {
            square.y - self.y
        } else {
            self.y - square.y
        }
    }

    /// How many files away `square` is.
    pub fn file_distance_to(&self, square: Square) -> (d: u8)
        ensures
            d as int == self.file_distance(square),
    {
        if self.x <= square.x {
            square.x - self.x
        } else {
            self.x - square.x
        }
    }
}

/// The square at place `i` when the board is read rank by rank, each rank from
/// file 0 to file 7.
pub open spec fn square_at(i: int) -> Square {
    Square { x: (i % 8) as u8, y: (i / 8) as u8 }
}

/// The 64 squares of the board, rank by rank.
pub open spec fn all_squares() -> Seq<Square> {
    Seq::new(64, |i: int| square_at(i))
}

/// The squares of the board, rank by rank.
pub fn board_squares() -> (squares: Vec<Square>)
    ensures
        squares@ == all_squares(),
{
    let mut squares: Vec<Square> = Vec::new();
    let mut rank: u8 = 0;
    while rank < 8
        invariant
            rank <= 8,
            squares@.len() == 8 * rank,
            forall|k: int| 0 <= k < squares@.len() ==> squares@[k] == square_at(k),
        decreases 8 - rank,
    {
        let mut file: u8 = 0;
        while file < 8
            invariant
                rank < 8,
                file <= 8,
                squares@.len() == 8 * rank + file,
                forall|k: int| 0 <= k < squares@.len() ==> squares@[k] == square_at(k),
            decreases 8 - file,
        {
            squares.push(Square { x: file, y: rank });
            file = file + 1;
        }
        rank = rank + 1;
    }
    assert(squares@ =~= all_squares());
    squares
}

/// Every square of the board is listed once, at the place that its rank and file
/// give, and nothing else is listed.
pub proof fn lemma_all_squares_cover_the_board()
    ensures
        forall|s: Square| s.on_board() ==> all_squares()[s.y * 8 + s.x] == s,
        forall|i: int| 0 <= i < 64 ==> (#[trigger] all_squares()[i]).on_board(),
        forall|i: int, j: int|
            0 <= i < j < 64 ==> (#[trigger] all_squares()[i]) != (#[trigger] all_squares()[j]),
{
}

/// Where `from` moves to after `k` steps towards `to` on one axis.
pub open spec fn stepped_towards(from: int, to: int, k: int) -> int {
    if from < to {
        from + k
    } else if to < from {
        from - k
    } else {
        from
    }
}

/// Nothing lies between a square and itself, whatever square is asked about; in
/// particular no square is between itself and itself.
pub proof fn lemma_nothing_inside_empty_span(s: Square, a: Square)
    ensures
        !s.in_between(a, a),
        !s.in_between(s, s),
{
}

/// The ends of a span are not inside it.
pub proof fn lemma_ends_are_not_between(a: Square, b: Square)
    ensures
        !a.in_between(a, b),
        !b.in_between(a, b),
{
}

/// Between two different squares of one rank lie exactly the squares of that rank
/// whose file is strictly between theirs.
pub proof fn lemma_between_on_rank(s: Square, a: Square, b: Square)
    requires
        a != b,
        a.same_rank(b),
    ensures
        s.in_between(a, b) <==> (s.y == a.y && strictly_inside(s.x as int, a.x as int, b.x as int)),
{
}

/// Between two different squares of one file lie exactly the squares of that file
/// whose rank is strictly between theirs.
pub proof fn lemma_between_on_file(s: Square, a: Square, b: Square)
    requires
        a != b,
        a.same_file(b),
    ensures
        s.in_between(a, b) <==> (s.x == a.x && strictly_inside(s.y as int, a.y as int, b.y as int)),
{
}

/// Every relation between two squares reads the same from either side.
pub proof fn lemma_relations_symmetric(a: Square, b: Square)
    ensures
        a.chebyshev_distance(b) == b.chebyshev_distance(a),
        a.rank_distance(b) == b.rank_distance(a),
        a.file_distance(b) == b.file_distance(a),
        a.same_rank(b) == b.same_rank(a),
        a.same_file(b) == b.same_file(a),
        a.orthogonal(b) == b.orthogonal(a),
        a.diagonal(b) == b.diagonal(a),
{
}

/// The order of the two ends does not matter.
pub proof fn lemma_between_symmetric(s: Square, a: Square, b: Square)
    ensures
        s.in_between(a, b) == s.in_between(b, a),
{
}

/// The squares between `a` and `b` are those reached from `a` by walking towards `b`
/// along a rank, file or diagonal, after at least one step and before the last.
pub proof fn lemma_between_is_on_the_way(s: Square, a: Square, b: Square)
    ensures
        s.in_between(a, b) <==> {
            let k: int = a.chebyshev_distance(s);
            &&& a.orthogonal(b) || a.diagonal(b)
            &&& 0 < k < a.chebyshev_distance(b)
            &&& s.x == stepped_towards(a.x as int, b.x as int, k)
            &&& s.y == stepped_towards(a.y as int, b.y as int, k)
        },
{
}

/// A square between two squares of the board is on the board.
pub proof fn lemma_between_stays_on_board(s: Square, a: Square, b: Square)
    requires
        a.on_board(),
        b.on_board(),
        s.in_between(a, b),
    ensures
        s.on_board(),
{
}

} // verus!
