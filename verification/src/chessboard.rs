use vstd::prelude::*;
use vstd::string::StringExecFns;

verus! {

/// Shade of a board square, derived from coordinate parity.
#[derive(Copy, Clone, Debug, PartialEq, Eq, Structural)]
pub enum SquareColor {
    White,
    Black,
}

/// A single chessboard square, identified by a row label ('1'..='8') and a
/// column label ('a'..='h').  Row '8' is the topmost rank (y = 0) and column
/// 'a' is the leftmost file (x = 0).
#[derive(Copy, Clone, Debug, PartialEq, Eq, Hash, Structural)]
pub struct BoardSquare {
    pub row: char,
    pub column: char,
}

/// The x coordinate encoded by a column label; labels outside 'a'..='h' map to 7.
pub open spec fn char_x(c: char) -> int {
    match c {
        'a' => 0,
        'b' => 1,
        'c' => 2,
        'd' => 3,
        'e' => 4,
        'f' => 5,
        'g' => 6,
        _ => 7,
    }
}

/// The y coordinate encoded by a row label; row '8' is y = 0, row '1' is y = 7.
pub open spec fn char_y(c: char) -> int {
    match c {
        '8' => 0,
        '7' => 1,
        '6' => 2,
        '5' => 3,
        '4' => 4,
        '3' => 5,
        '2' => 6,
        _ => 7,
    }
}

/// The column label of an x coordinate in 0..8.
pub open spec fn file_char(x: int) -> char {
    if x == 0 {
        'a'
    } else if x == 1 {
        'b'
    } else if x == 2 {
        'c'
    } else if x == 3 {
        'd'
    } else if x == 4 {
        'e'
    } else if x == 5 {
        'f'
    } else if x == 6 {
        'g'
    } else {
        'h'
    }
}

/// The row label of a y coordinate in 0..8.
pub open spec fn rank_char(y: int) -> char {
    if y == 0 {
        '8'
    } else if y == 1 {
        '7'
    } else if y == 2 {
        '6'
    } else if y == 3 {
        '5'
    } else if y == 4 {
        '4'
    } else if y == 5 {
        '3'
    } else if y == 6 {
        '2'
    } else {
        '1'
    }
}

/// The square with the given coordinates (each expected in 0..8).
pub open spec fn square_mk(x: int, y: int) -> BoardSquare {
    BoardSquare { row: rank_char(y), column: file_char(x) }
}

impl BoardSquare {
    /// The x coordinate of this square as a mathematical integer.
    pub open spec fn sx(self) -> int {
        char_x(self.column)
    }

    /// The y coordinate of this square as a mathematical integer.
    pub open spec fn sy(self) -> int {
        char_y(self.row)
    }

    /// Whether the labels of this square denote a real board square.
    pub open spec fn valid(self) -> bool {
        '1' <= self.row && self.row <= '8' && 'a' <= self.column && self.column <= 'h'
    }

    /// The shade of this square in the model: light squares are those where
    /// file parity and rank-label parity agree in the usual checkerboard way.
    pub open spec fn spec_color(self) -> SquareColor {
        match self.row {
            '8' | '6' | '4' | '2' => match self.column {
                'a' | 'c' | 'e' | 'g' => SquareColor::White,
                _ => SquareColor::Black,
            },
            _ => match self.column {
                'a' | 'c' | 'e' | 'g' => SquareColor::Black,
                _ => SquareColor::White,
            },
        }
    }

    pub fn new(row: char, column: char) -> (r: BoardSquare)
        ensures
            r == (BoardSquare { row, column }),
    {
        BoardSquare { row, column }
    }

    /// x position of this square: column 'a' is x = 0.
    pub fn x(&self) -> (r: i8)
        ensures
            r as int == self.sx(),
    {
        match self.column {
            'a' => 0,
            'b' => 1,
            'c' => 2,
            'd' => 3,
            'e' => 4,
            'f' => 5,
            'g' => 6,
            _ => 7,
        }
    }

    /// y position of this square: row '8' is y = 0.
    pub fn y(&self) -> (r: i8)
        ensures
            r as int == self.sy(),
    {
        match self.row {
            '8' => 0,
            '7' => 1,
            '6' => 2,
            '5' => 3,
            '4' => 4,
            '3' => 5,
            '2' => 6,
            _ => 7,
        }
    }

    /// The row label of this square as a string.
    pub fn row(&self) -> (r: String)
        requires
            self.valid(),
        ensures
            r@ =~= seq![self.row],
    {
        label_string(self.row)
    }

    /// The columns are called files; this is the column label as a string.
    pub fn column(&self) -> (r: String)
        requires
            self.valid(),
        ensures
            r@ =~= seq![self.column],
    {
        label_string(self.column)
    }

    /// The rows are called ranks.
    pub fn rank(&self) -> (r: String)
        requires
            self.valid(),
        ensures
            r@ =~= seq![self.row],
    {
        self.row()
    }

    /// The columns are called files.
    pub fn file(&self) -> (r: String)
        requires
            self.valid(),
        ensures
            r@ =~= seq![self.column],
    {
        self.column()
    }

    pub fn position(&self) -> (r: (i8, i8))
        ensures
            r.0 as int == self.sx(),
            r.1 as int == self.sy(),
    {
        (self.x(), self.y())
    }

    pub fn color(&self) -> (r: SquareColor)
        ensures
            r == self.spec_color(),
    {
        match self.row {
            '8' | '6' | '4' | '2' => match self.column {
                'a' | 'c' | 'e' | 'g' => SquareColor::White,
                _ => SquareColor::Black,
            },
            _ => match self.column {
                'a' | 'c' | 'e' | 'g' => SquareColor::Black,
                _ => SquareColor::White,
            },
        }
    }
}

/// Exec mirror of `square_mk`.
pub fn make_square(x: i8, y: i8) -> (r: BoardSquare)
    requires
        0 <= x < 8,
        0 <= y < 8,
    ensures
        r == square_mk(x as int, y as int),
        r.valid(),
        r.sx() == x as int,
        r.sy() == y as int,
{
    let row: char = match y {
        0 => '8',
        1 => '7',
        2 => '6',
        3 => '5',
        4 => '4',
        5 => '3',
        6 => '2',
        _ => '1',
    };
    let column: char = match x {
        0 => 'a',
        1 => 'b',
        2 => 'c',
        3 => 'd',
        4 => 'e',
        5 => 'f',
        6 => 'g',
        _ => 'h',
    };
    BoardSquare { row, column }
}

/// A valid square is exactly the square made from its own coordinates,
/// and made squares decode to the coordinates they were made from.
pub proof fn lemma_square_coords(sq: BoardSquare)
    requires
        sq.valid(),
    ensures
        square_mk(sq.sx(), sq.sy()) == sq,
        0 <= sq.sx() < 8,
        0 <= sq.sy() < 8,
{
}

/// Coordinates in range make a valid square that decodes to them.
pub proof fn lemma_square_mk_coords(x: int, y: int)
    requires
        0 <= x < 8,
        0 <= y < 8,
    ensures
        square_mk(x, y).valid(),
        square_mk(x, y).sx() == x,
        square_mk(x, y).sy() == y,
{
}

/// One-character string for a board label.
fn label_string(c: char) -> (r: String)
    requires
        ('1' <= c && c <= '8') || ('a' <= c && c <= 'h'),
    ensures
        r@ =~= seq![c],
{
    if c == '1' {
        proof { reveal_strlit("1"); }
        String::from_str("1")
    } else if c == '2' {
        proof { reveal_strlit("2"); }
        String::from_str("2")
    } else if c == '3' {
        proof { reveal_strlit("3"); }
        String::from_str("3")
    } else if c == '4' {
        proof { reveal_strlit("4"); }
        String::from_str("4")
    } else if c == '5' {
        proof { reveal_strlit("5"); }
        String::from_str("5")
    } else if c == '6' {
        proof { reveal_strlit("6"); }
        String::from_str("6")
    } else if c == '7' {
        proof { reveal_strlit("7"); }
        String::from_str("7")
    } else if c == '8' {
        proof { reveal_strlit("8"); }
        String::from_str("8")
    } else if c == 'a' {
        proof { reveal_strlit("a"); }
        String::from_str("a")
    } else if c == 'b' {
        proof { reveal_strlit("b"); }
        String::from_str("b")
    } else if c == 'c' {
        proof { reveal_strlit("c"); }
        String::from_str("c")
    } else if c == 'd' {
        proof { reveal_strlit("d"); }
        String::from_str("d")
    } else if c == 'e' {
        proof { reveal_strlit("e"); }
        String::from_str("e")
    } else if c == 'f' {
        proof { reveal_strlit("f"); }
        String::from_str("f")
    } else if c == 'g' {
        proof { reveal_strlit("g"); }
        String::from_str("g")
    } else {
        proof { reveal_strlit("h"); }
        String::from_str("h")
    }
}

/// A single chessboard consisting of 64 squares, organized in rows and columns.
#[derive(Debug)]
pub struct Chessboard {
    pub squares: Vec<BoardSquare>,
}

/// The fixed layout of the board: 64 squares, top-left to bottom-right.
pub open spec fn board_wf(b: Chessboard) -> bool {
    &&& b.squares@.len() == 64
    &&& forall|i: int| 0 <= i < 64 ==> b.squares@[i] == square_mk(i % 8, i / 8)
}

/// The square at the given coordinates when they are on the board.
pub open spec fn spec_square_at(x: int, y: int) -> Option<BoardSquare> {
    if 0 <= x < 8 && 0 <= y < 8 {
        Some(square_mk(x, y))
    } else {
        None
    }
}

impl Clone for Chessboard {
    fn clone(&self) -> (r: Self)
        ensures
            r.squares@ == self.squares@,
    {
        let mut squares: Vec<BoardSquare> = Vec::new();
        let mut i: usize = 0;
        while i < self.squares.len()
            invariant
                i <= self.squares@.len(),
                squares@ =~= self.squares@.take(i as int),
            decreases self.squares@.len() - i,
        {
            squares.push(self.squares[i]);
            i += 1;
        }
        proof {
            assert(squares@ =~= self.squares@);
        }
        Chessboard { squares }
    }
}

impl Chessboard {
    /// Build the standard 8x8 board, rows '8' down to '1', columns 'a' to 'h'.
    pub fn new() -> (r: Self)
        ensures
            board_wf(r),
    {
        let mut squares: Vec<BoardSquare> = Vec::new();
        let mut y: i8 = 0;
        while y < 8
            invariant
                0 <= y <= 8,
                squares@.len() == y * 8,
                forall|i: int| 0 <= i < squares@.len() ==> squares@[i] == square_mk(i % 8, i / 8),
            decreases 8 - y,
        {
            let mut x: i8 = 0;
            while x < 8
                invariant
                    0 <= y < 8,
                    0 <= x <= 8,
                    squares@.len() == y * 8 + x,
                    forall|i: int| 0 <= i < squares@.len() ==> squares@[i] == square_mk(
                        i % 8,
                        i / 8,
                    ),
                decreases 8 - x,
            {
                let sq = make_square(x, y);
                squares.push(sq);
                x += 1;
            }
            y += 1;
        }
        Chessboard { squares }
    }

    /// All the squares of this board in the order from top-left to bottom-right.
    pub fn squares(&self) -> (r: Vec<BoardSquare>)
        ensures
            r@ == self.squares@,
    {
        self.clone().squares
    }

    /// The optional square at a given coordinate. None if not on the board.
    pub fn square_at(&self, coord: (i8, i8)) -> (r: Option<BoardSquare>)
        requires
            board_wf(*self),
        ensures
            r == spec_square_at(coord.0 as int, coord.1 as int),
    {
        if 0 <= coord.0 && coord.0 < 8 && 0 <= coord.1 && coord.1 < 8 {
            let idx: usize = (coord.1 as usize) * 8 + (coord.0 as usize);
            let sq = self.squares[idx];
            proof {
                assert(idx == coord.1 * 8 + coord.0);
                assert(idx as int % 8 == coord.0 as int) by (nonlinear_arith)
                    requires
                        idx == coord.1 * 8 + coord.0,
                        0 <= coord.0 < 8,
                        0 <= coord.1 < 8,
                ;
                assert(idx as int / 8 == coord.1 as int) by (nonlinear_arith)
                    requires
                        idx == coord.1 * 8 + coord.0,
                        0 <= coord.0 < 8,
                        0 <= coord.1 < 8,
                ;
            }
            Some(sq)
        } else {
            None
        }
    }

    /// Get a square positioned relatively to a given square.
    pub fn square_relative(&self, square: BoardSquare, delta: (i8, i8)) -> (r: Option<BoardSquare>)
        requires
            board_wf(*self),
            -64 <= delta.0 <= 64,
            -64 <= delta.1 <= 64,
        ensures
            r == spec_square_at(square.sx() + delta.0 as int, square.sy() + delta.1 as int),
    {
        let pos = square.position();
        self.square_at((pos.0 + delta.0, pos.1 + delta.1))
    }

    /// All squares between two given squares of equal rank, both included.
    /// Empty if the squares are not on the same rank.
    pub fn all_squares_between(&self, sq1: BoardSquare, sq2: BoardSquare) -> (r: Vec<BoardSquare>)
        requires
            board_wf(*self),
            sq1.valid(),
            sq2.valid(),
        ensures
            r@ == spec_between(sq1, sq2),
    {
        let mut result: Vec<BoardSquare> = Vec::new();
        if sq1.y() == sq2.y() {
            let lo: i8 = if sq1.x() < sq2.x() {
                sq1.x()
            } else {
                sq2.x()
            };
            let hi: i8 = if sq1.x() < sq2.x() {
                sq2.x()
            } else {
                sq1.x()
            };
            let mut x: i8 = lo;
            proof {
                lemma_square_coords(sq1);
                lemma_square_coords(sq2);
            }
            while x <= hi
                invariant
                    0 <= lo <= x,
                    x <= hi + 1,
                    hi < 8,
                    0 <= sq1.sy() < 8,
                    board_wf(*self),
                    result@ =~= Seq::new((x - lo) as nat, |i: int| square_mk(lo + i, sq1.sy())),
                decreases hi + 1 - x,
            {
                let sq = self.square_at((x, sq1.y()));
                result.push(sq.unwrap());
                x += 1;
            }
            proof {
                assert(result@ =~= spec_between(sq1, sq2));
            }
        } else {
            proof {
                assert(result@ =~= spec_between(sq1, sq2));
            }
        }
        result
    }
}

/// The inclusive run of squares between two same-rank squares, left to right;
/// empty when the squares do not share a rank.
pub open spec fn spec_between(sq1: BoardSquare, sq2: BoardSquare) -> Seq<BoardSquare> {
    if sq1.sy() == sq2.sy() {
        let lo = if sq1.sx() < sq2.sx() {
            sq1.sx()
        } else {
            sq2.sx()
        };
        let hi = if sq1.sx() < sq2.sx() {
            sq2.sx()
        } else {
            sq1.sx()
        };
        Seq::new((hi - lo + 1) as nat, |i: int| square_mk(lo + i, sq1.sy()))
    } else {
        Seq::empty()
    }
}

} // verus!
