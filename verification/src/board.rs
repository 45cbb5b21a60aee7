use vstd::prelude::*;

verus! {

/// Number of squares along each side of the board.
pub const MAX: u8 = 8;

/// One square of the board as it is drawn: its file `x`, its rank `y`,
/// and whether it is a light square.
#[derive(Clone, Copy, PartialEq, Eq, Debug, Structural)]
pub struct BoardSquare {
    pub x: u8,
    pub y: u8,
    pub white: bool,
}

/// Whether the square at file `x` and rank `y` is light: the corner (0, 0)
/// is light and the colours alternate along files and ranks.
pub open spec fn is_light(x: int, y: int) -> bool {
    (x + y) % 2 == 0
}

/// The `k`-th square drawn: squares are laid out file by file, and
/// rank by rank within a file.
pub open spec fn square_at(k: int) -> BoardSquare {
    BoardSquare { x: (k / 8) as u8, y: (k % 8) as u8, white: is_light(k / 8, k % 8) }
}

/// Every square of the board in the order in which it is drawn, with its colour.
/// The colour flips from each square to the next one along a file, and
/// once more between files.
pub fn load_sprites() -> (squares: Vec<BoardSquare>)
    ensures
        squares@.len() == 64,
        forall|k: int| 0 <= k < 64 ==> #[trigger] squares@[k] == square_at(k),
{
    let mut squares: Vec<BoardSquare> = Vec::new();
    let mut choice: bool = true;
    let mut i: u8 = 0;
    while i < MAX
        invariant
            i <= 8,
            squares@.len() == 8 * i,
            choice == is_light(i as int, 0),
            forall|k: int| 0 <= k < squares@.len() ==> #[trigger] squares@[k] == square_at(k),
        decreases 8 - i,
    {
        let mut j: u8 = 0;
        while j < MAX
            invariant
                i < 8,
                j <= 8,
                squares@.len() == 8 * i + j,
                choice == is_light(i as int, j as int),
                forall|k: int| 0 <= k < squares@.len() ==> #[trigger] squares@[k] == square_at(k),
            decreases 8 - j,
        {
            proof {
                let k = 8 * i + j;
                assert(k / 8 == i && k % 8 == j);
            }
            squares.push(BoardSquare { x: i, y: j, white: choice });
            choice = !choice;
            j = j + 1;
        }
        choice = !choice;
        i = i + 1;
    }
    squares
}

/// The texture drawn on a square of the given colour.
pub fn square_texture(white: bool) -> (texture: &'static str)
    ensures
        white ==> texture@ == "ARABIAN CHESS/sprites/board/board_square_white.png"@,
        !white ==> texture@ == "ARABIAN CHESS/sprites/board/board_square_black.png"@,
{
    if white {
        "ARABIAN CHESS/sprites/board/board_square_white.png"
    } else {
        "ARABIAN CHESS/sprites/board/board_square_black.png"
    }
}

/// The board is a checkerboard whose squares each appear once: the drawn
/// squares cover every file and rank below `MAX` exactly once, the corner
/// (0, 0) is light, and two squares that share a side have different colours.
pub proof fn lemma_board_pattern(k: int, l: int)
    requires
        0 <= k < 64,
        0 <= l < 64,
    ensures
        square_at(k).x < MAX && square_at(k).y < MAX,
        (square_at(k).x == square_at(l).x && square_at(k).y == square_at(l).y) ==> k == l,
        square_at(0).white,
        (square_at(k).x == square_at(l).x && (square_at(k).y + 1 == square_at(l).y
            || square_at(l).y + 1 == square_at(k).y)) ==> square_at(k).white != square_at(l).white,
        (square_at(k).y == square_at(l).y && (square_at(k).x + 1 == square_at(l).x
            || square_at(l).x + 1 == square_at(k).x)) ==> square_at(k).white != square_at(l).white,
{
}

/// Every square of the board is drawn: the square at file `x` and rank `y`
/// is the one drawn at position `8 * x + y`.
pub proof fn lemma_board_covers(x: int, y: int)
    requires
        0 <= x < MAX,
        0 <= y < MAX,
    ensures
        square_at(8 * x + y).x == x,
        square_at(8 * x + y).y == y,
        square_at(8 * x + y).white == is_light(x, y),
{
}

} // verus!
