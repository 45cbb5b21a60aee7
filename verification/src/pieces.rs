use vstd::prelude::*;

use crate::board::MAX;
use vstd::string::*;

verus! {

/// The side a piece belongs to.
#[derive(Clone, Copy, PartialEq, Eq, Debug, Structural)]
pub enum PieceColor {
    White,
    Black,
}

impl Default for PieceColor {
    fn default() -> (c: PieceColor)
        ensures
            c == PieceColor::White,
    {
        PieceColor::White
    }
}

/// The kind of a piece.
#[derive(Clone, Copy, PartialEq, Eq, Debug, Structural)]
pub enum PieceType {
    King,
    Queen,
    Bishop,
    Knight,
    Rook,
    Pawn,
}

/// A piece on the board: its kind, its side, and its square (`x` is the file, `y` the rank).
#[derive(Clone, Copy, PartialEq, Eq, Debug, Structural)]
pub struct Piece {
    pub my_type: PieceType,
    pub color: PieceColor,
    pub x: u8,
    pub y: u8,
}

/// The kind and file of the `p`-th back-rank entry of the starting layout:
/// king, queen, the two rooks, the two bishops, the two knights.
pub open spec fn back_rank_entry(p: int) -> (PieceType, u8) {
    if p == 0 {
        (PieceType::King, 4)
    } else if p == 1 {
        (PieceType::Queen, 3)
    } else if p == 2 {
        (PieceType::Rook, 0)
    } else if p == 3 {
        (PieceType::Rook, 7)
    } else if p == 4 {
        (PieceType::Bishop, 1)
    } else if p == 5 {
        (PieceType::Bishop, 6)
    } else if p == 6 {
        (PieceType::Knight, 2)
    } else {
        (PieceType::Knight, 5)
    }
}

/// The `k`-th piece of the starting layout. Pieces come in pairs, the
/// white one first and then the black one on the mirrored rank: the eight
/// back-rank entries first (ranks 0 and 7), then a pawn for each file
/// (ranks 1 and 6).
pub open spec fn initial_piece(k: int) -> Piece {
    let color = if k % 2 == 0 { PieceColor::White } else { PieceColor::Black };
    if k < 16 {
        Piece {
            my_type: back_rank_entry(k / 2).0,
            color,
            x: back_rank_entry(k / 2).1,
            y: if k % 2 == 0 { 0 } else { 7 },
        }
    } else {
        Piece {
            my_type: PieceType::Pawn,
            color,
            x: ((k - 16) / 2) as u8,
            y: if k % 2 == 0 { 1 } else { 6 },
        }
    }
}

/// The starting layout: the thirty-two pieces in the order in which they are placed.
pub open spec fn initial_layout() -> Seq<Piece> {
    Seq::new(32, |k: int| initial_piece(k))
}

/// The table the starting layout is built from: each kind with the squares
/// of its white pieces.
pub open spec fn setup_table() -> Seq<(PieceType, Seq<(u8, u8)>)> {
    seq![
        (PieceType::King, seq![(4u8, 0u8)]),
        (PieceType::Queen, seq![(3u8, 0u8)]),
        (PieceType::Rook, seq![(0u8, 0u8), (7u8, 0u8)]),
        (PieceType::Bishop, seq![(1u8, 0u8), (6u8, 0u8)]),
        (PieceType::Knight, seq![(2u8, 0u8), (5u8, 0u8)]),
        (PieceType::Pawn, Seq::new(8, |x: int| (x as u8, 1u8))),
    ]
}

/// Index in the starting layout of the first piece of the `g`-th table entry.
pub open spec fn group_start(g: int) -> int {
    if g <= 2 {
        2 * g
    } else if g == 3 {
        8
    } else if g == 4 {
        12
    } else if g == 5 {
        16
    } else {
        32
    }
}

/// Consecutive table entries follow each other in the starting layout.
proof fn lemma_group_sizes(g: int)
    requires
        0 <= g < 6,
    ensures
        group_start(g) + 2 * setup_table()[g].1.len() == group_start(g + 1),
{
}

/// The table lays out the starting layout: the `i`-th square of the `g`-th
/// entry gives the white piece at index `group_start(g) + 2 * i` and the black
/// piece, on the mirrored rank, right after it.
proof fn lemma_setup_table(g: int, i: int)
    requires
        0 <= g < 6,
        0 <= i < setup_table()[g].1.len(),
    ensures
        group_start(g) + 2 * i + 1 < group_start(g + 1),
        setup_table()[g].1[i].1 <= 1,
        initial_piece(group_start(g) + 2 * i) == (Piece {
            my_type: setup_table()[g].0,
            color: PieceColor::White,
            x: setup_table()[g].1[i].0,
            y: setup_table()[g].1[i].1,
        }),
        initial_piece(group_start(g) + 2 * i + 1) == (Piece {
            my_type: setup_table()[g].0,
            color: PieceColor::Black,
            x: setup_table()[g].1[i].0,
            y: (7 - setup_table()[g].1[i].1) as u8,
        }),
{
    if g == 5 {
        assert(setup_table()[5].1[i] == (i as u8, 1u8));
    }
}

/// Places the pieces for a new game, white and black, in the order of the
/// starting layout.
pub fn spawn_pieces() -> (pieces: Vec<Piece>)
    ensures
        pieces@ == initial_layout(),
{
    let mut pawns: Vec<(u8, u8)> = Vec::new();
    let mut x: u8 = 0;
    while x < MAX
        invariant
            x <= MAX,
            pawns@.len() == x,
            forall|j: int| 0 <= j < x ==> #[trigger] pawns@[j] == (j as u8, 1u8),
        decreases MAX - x,
    {
        pawns.push((x, 1));
        x = x + 1;
    }
    let chess_pieces: Vec<(PieceType, Vec<(u8, u8)>)> = vec![
        (PieceType::King, vec![(4, 0)]),
        (PieceType::Queen, vec![(3, 0)]),
        (PieceType::Rook, vec![(0, 0), (7, 0)]),
        (PieceType::Bishop, vec![(1, 0), (6, 0)]),
        (PieceType::Knight, vec![(2, 0), (5, 0)]),
        (PieceType::Pawn, pawns),
    ];
    assert(chess_pieces@.len() == 6);
    assert(chess_pieces@[5].1@ =~= setup_table()[5].1);
    assert forall|g: int| 0 <= g < 6 implies #[trigger] chess_pieces@[g].0 == setup_table()[g].0
        && chess_pieces@[g].1@ == setup_table()[g].1 by {
        if g < 5 {
            assert(chess_pieces@[g].1@ =~= setup_table()[g].1);
        }
    }
    let mut pieces: Vec<Piece> = Vec::new();
    for g in 0..chess_pieces.len()
        invariant
            chess_pieces@.len() == 6,
            forall|h: int| 0 <= h < 6 ==> #[trigger] chess_pieces@[h].0 == setup_table()[h].0
                && chess_pieces@[h].1@ == setup_table()[h].1,
            pieces@.len() == group_start(g as int),
            forall|k: int| 0 <= k < pieces@.len() ==> #[trigger] pieces@[k] == initial_piece(k),
    {
        let my_type = chess_pieces[g].0;
        let pos_arr = &chess_pieces[g].1;
        for i in 0..pos_arr.len()
            invariant
                0 <= g < 6,
                pos_arr@ == setup_table()[g as int].1,
                my_type == setup_table()[g as int].0,
                pieces@.len() == group_start(g as int) + 2 * i,
                forall|k: int| 0 <= k < pieces@.len() ==> #[trigger] pieces@[k] == initial_piece(k),
        {
            proof {
                lemma_setup_table(g as int, i as int);
            }
            let pos = pos_arr[i];
            pieces.push(Piece { my_type: my_type, color: PieceColor::White, x: pos.0, y: pos.1 });
            pieces.push(Piece { my_type: my_type, color: PieceColor::Black, x: pos.0, y: MAX - 1 - pos.1 });
        }
        proof {
            lemma_group_sizes(g as int);
        }
    }
    assert(pieces@ =~= initial_layout());
    pieces
}

/// The position in the starting layout of the piece that starts on file
/// `x` and rank `y`.
pub open spec fn initial_index(x: int, y: int) -> int {
    if y == 0 || y == 7 {
        let p: int = if x == 4 {
            0
        } else if x == 3 {
            1
        } else if x == 0 {
            2
        } else if x == 7 {
            3
        } else if x == 1 {
            4
        } else if x == 6 {
            5
        } else if x == 2 {
            6
        } else {
            7
        };
        2 * p + if y == 7 { 1int } else { 0int }
    } else {
        16 + 2 * x + if y == 6 { 1int } else { 0int }
    }
}

/// The square of a piece in the starting layout determines its position.
proof fn lemma_initial_index(k: int)
    requires
        0 <= k < 32,
    ensures
        initial_index(initial_piece(k).x as int, initial_piece(k).y as int) == k,
{
    if k < 16 {
        let p = k / 2;
        assert(0 <= p < 8);
        if p == 0 {} else if p == 1 {} else if p == 2 {} else if p == 3 {}
        else if p == 4 {} else if p == 5 {} else if p == 6 {} else {}
    }
}

/// The starting layout: thirty-two pieces, all on the board, no two on one
/// square. White holds ranks 0 and 1 and black ranks 6 and 7; each white piece
/// is followed by a black piece of the same kind on the same file and the
/// mirrored rank, so each side has sixteen pieces and the sides mirror each
/// other. Each side has exactly one king, on file 4.
pub proof fn lemma_initial_layout()
    ensures
        initial_layout().len() == 32,
        on_board(initial_layout()),
        squares_distinct(initial_layout()),
        forall|k: int| 0 <= k < 32 && #[trigger] initial_layout()[k].color == PieceColor::White
            ==> initial_layout()[k].y <= 1,
        forall|k: int| 0 <= k < 32 && #[trigger] initial_layout()[k].color == PieceColor::Black
            ==> initial_layout()[k].y >= 6,
        forall|p: int| 0 <= p < 16 ==> {
            &&& (#[trigger] initial_layout()[2 * p]).color == PieceColor::White
            &&& initial_layout()[2 * p + 1] == (Piece {
                my_type: initial_layout()[2 * p].my_type,
                color: PieceColor::Black,
                x: initial_layout()[2 * p].x,
                y: (7 - initial_layout()[2 * p].y) as u8,
            })
        },
        forall|k: int| 0 <= k < 32 && (#[trigger] initial_layout()[k]).my_type == PieceType::King
            ==> initial_layout()[k].x == 4 && (k == 0 || k == 1),
{
    let s = initial_layout();
    assert forall|k: int| 0 <= k < s.len() implies #[trigger] s[k].x < MAX && s[k].y < MAX by {
        if k < 16 {
            let p = k / 2;
            if p == 0 {} else if p == 1 {} else if p == 2 {} else if p == 3 {}
            else if p == 4 {} else if p == 5 {} else if p == 6 {} else {}
        }
    }
    assert forall|i: int, j: int|
        0 <= i < s.len() && 0 <= j < s.len() && i != j implies !same_square(#[trigger] s[i], #[trigger] s[j]) by {
        lemma_initial_index(i);
        lemma_initial_index(j);
    }
    assert forall|k: int| 0 <= k < 32 && (#[trigger] s[k]).my_type == PieceType::King
        implies s[k].x == 4 && (k == 0 || k == 1) by {
        if k < 16 {
            let p = k / 2;
            if p == 0 {} else if p == 1 {} else if p == 2 {} else if p == 3 {}
            else if p == 4 {} else if p == 5 {} else if p == 6 {} else {}
        }
    }
}

impl PieceColor {
    /// The name of the side, in lower case.
    pub open spec fn spec_name(self) -> Seq<char> {
        match self {
            PieceColor::White => "white"@,
            PieceColor::Black => "black"@,
        }
    }

    /// The name of the side, in lower case.
    pub fn name(&self) -> (name: &'static str)
        ensures
            name@ == self.spec_name(),
    {
        match self {
            PieceColor::White => "white",
            PieceColor::Black => "black",
        }
    }
}

impl PieceType {
    /// The name of the kind, in lower case.
    pub open spec fn spec_name(self) -> Seq<char> {
        match self {
            PieceType::King => "king"@,
            PieceType::Queen => "queen"@,
            PieceType::Bishop => "bishop"@,
            PieceType::Knight => "knight"@,
            PieceType::Rook => "rook"@,
            PieceType::Pawn => "pawn"@,
        }
    }

    /// The name of the kind, in lower case.
    pub fn name(&self) -> (name: &'static str)
        ensures
            name@ == self.spec_name(),
    {
        match self {
            PieceType::King => "king",
            PieceType::Queen => "queen",
            PieceType::Bishop => "bishop",
            PieceType::Knight => "knight",
            PieceType::Rook => "rook",
            PieceType::Pawn => "pawn",
        }
    }
}

/// The texture of a piece: the side's name and the kind's name, joined by
/// an underscore, in the pieces' sprite folder; the whole path in lower case.
pub open spec fn sprite_path(p: Piece) -> Seq<char> {
    "arabian chess/sprites/pieces/"@ + p.color.spec_name() + "_"@ + p.my_type.spec_name() + ".png"@
}

/// The texture of one piece.
pub fn piece_sprite_path(piece: &Piece) -> (path: String)
    ensures
        path@ == sprite_path(*piece),
{
    let mut path = String::from_str("arabian chess/sprites/pieces/");
    path.append(piece.color.name());
    path.append("_");
    path.append(piece.my_type.name());
    path.append(".png");
    path
}

/// The texture of each piece, in the order of the pieces.
pub fn load_sprites(pieces: &Vec<Piece>) -> (paths: Vec<String>)
    ensures
        paths@.len() == pieces@.len(),
        forall|i: int| 0 <= i < pieces@.len() ==> #[trigger] paths@[i]@ == sprite_path(pieces@[i]),
{
    let mut paths: Vec<String> = Vec::new();
    for i in 0..pieces.len()
        invariant
            paths@.len() == i,
            forall|j: int| 0 <= j < i ==> #[trigger] paths@[j]@ == sprite_path(pieces@[j]),
    {
        let path = piece_sprite_path(&pieces[i]);
        paths.push(path);
    }
    paths
}

/// Whether the squares strictly between `from` and `to` are free of pieces.
/// No square is checked yet: every path counts as free.
pub fn path_empty(from: (u8, u8), to: (u8, u8), pieces: Vec<&Piece>) -> (empty: bool)
    ensures
        empty,
{
    true
}

/// The squares a player has picked: the square of the piece to move and
/// the square it should go to. `None` stands for a square not picked yet.
#[derive(Clone, Copy, PartialEq, Eq, Debug)]
pub struct Selection {
    pub from: Option<(u8, u8)>,
    pub to: Option<(u8, u8)>,
}

/// What a call of `move_pieces` did. Indices refer to the pieces as they
/// were before the call.
#[derive(Clone, Copy, PartialEq, Eq, Debug, Structural)]
pub enum MoveOutcome {
    /// No target square is picked: nothing happens.
    NoTarget,
    /// No piece stands on the picked start square: nothing happens.
    NoMover,
    /// A piece of the mover's own side stands on the target and the two do
    /// not form a king and a rook: the target is dropped, the start stays picked.
    Blocked,
    /// A king and a rook of one side swap their squares.
    Castled { mover: usize, partner: usize },
    /// The mover goes to the target; a piece of the other side that stood
    /// there, if any, is taken off the board.
    Moved { mover: usize, captured: Option<usize> },
}

impl MoveOutcome {
    /// Whether the move is over and the other side is to play.
    pub open spec fn spec_passes_turn(self) -> bool {
        self is Castled || self is Moved
    }

    /// Whether the move is over and the other side is to play.
    pub fn passes_turn(&self) -> (r: bool)
        ensures
            r == self.spec_passes_turn(),
    {
        match self {
            MoveOutcome::Castled { .. } => true,
            MoveOutcome::Moved { .. } => true,
            _ => false,
        }
    }
}

/// Whether `p` stands on the square `sq`.
pub open spec fn stands_on(p: Piece, sq: (u8, u8)) -> bool {
    p.x == sq.0 && p.y == sq.1
}

/// The highest index below `n` of a piece of `s` that stands on `sq`.
pub open spec fn last_at(s: Seq<Piece>, sq: (u8, u8), n: int) -> Option<int>
    decreases n,
{
    if n <= 0 {
        None
    } else if stands_on(s[n - 1], sq) {
        Some(n - 1)
    } else {
        last_at(s, sq, n - 1)
    }
}

/// `p` put on the square `sq`.
pub open spec fn placed_on(p: Piece, sq: (u8, u8)) -> Piece {
    Piece { my_type: p.my_type, color: p.color, x: sq.0, y: sq.1 }
}

/// Whether the two kinds are a king and a rook, in either order.
pub open spec fn is_king_rook(a: PieceType, b: PieceType) -> bool {
    (a == PieceType::King && b == PieceType::Rook) || (a == PieceType::Rook && b == PieceType::King)
}

/// The selection with nothing picked.
pub open spec fn cleared() -> Selection {
    Selection { from: None, to: None }
}

/// The pieces, the selection and the outcome after the selected move is
/// carried out on `s`.
///
/// The mover is the last piece on the start square; the piece on the
/// target is the last piece there, and there is none when the target is
/// the start square.
pub open spec fn move_result(s: Seq<Piece>, sel: Selection) -> (Seq<Piece>, Selection, MoveOutcome) {
    match sel.to {
        None => (s, sel, MoveOutcome::NoTarget),
        Some(to) => match sel.from {
            None => (s, sel, MoveOutcome::NoMover),
            Some(from) => match last_at(s, from, s.len() as int) {
                None => (s, sel, MoveOutcome::NoMover),
                Some(a) => {
                    let target = if from == to { None } else { last_at(s, to, s.len() as int) };
                    match target {
                        None => (
                            s.update(a, placed_on(s[a], to)),
                            cleared(),
                            MoveOutcome::Moved { mover: a as usize, captured: None },
                        ),
                        Some(d) => if s[d].color == s[a].color {
                            if is_king_rook(s[a].my_type, s[d].my_type) {
                                (
                                    s.update(d, placed_on(s[d], from)).update(a, placed_on(s[a], to)),
                                    cleared(),
                                    MoveOutcome::Castled { mover: a as usize, partner: d as usize },
                                )
                            } else {
                                (s, Selection { from: sel.from, to: None }, MoveOutcome::Blocked)
                            }
                        } else {
                            (
                                s.update(a, placed_on(s[a], to)).remove(d),
                                cleared(),
                                MoveOutcome::Moved { mover: a as usize, captured: Some(d as usize) },
                            )
                        },
                    }
                },
            },
        },
    }
}

/// `last_at` finds the last piece on the square among the first `n`.
pub proof fn lemma_last_at(s: Seq<Piece>, sq: (u8, u8), n: int)
    requires
        0 <= n <= s.len(),
    ensures
        match last_at(s, sq, n) {
            Some(i) => 0 <= i < n && stands_on(s[i], sq) && forall|j: int|
                i < j < n ==> !stands_on(#[trigger] s[j], sq),
            None => forall|j: int| 0 <= j < n ==> !stands_on(#[trigger] s[j], sq),
        },
    decreases n,
{
    if n > 0 {
        lemma_last_at(s, sq, n - 1);
    }
}

/// The index of a piece as an integer.
pub open spec fn index_of(o: Option<usize>) -> Option<int> {
    match o {
        Some(i) => Some(i as int),
        None => None,
    }
}

/// Carries out the selected move.
///
/// The mover is the last piece on the start square. When the target holds
/// a piece of the same side, a king and a rook swap squares, and anything
/// else only drops the target. Otherwise the mover goes to the target and a
/// piece of the other side there is taken off the board. A finished move
/// clears the selection; `MoveOutcome::passes_turn` tells whether the other
/// side is to play.
pub fn move_pieces(pieces: &mut Vec<Piece>, selection: &mut Selection) -> (outcome: MoveOutcome)
    ensures
        (final(pieces)@, *final(selection), outcome) == move_result(old(pieces)@, *old(selection)),
{
    let to = match selection.to {
        None => {
            return MoveOutcome::NoTarget;
        },
        Some(t) => t,
    };
    let from = match selection.from {
        None => {
            return MoveOutcome::NoMover;
        },
        Some(f) => f,
    };
    let n = pieces.len();
    let mut attacker: Option<usize> = None;
    let mut defender: Option<usize> = None;
    for i in 0..n
        invariant
            n == pieces@.len(),
            index_of(attacker) == last_at(pieces@, from, i as int),
            index_of(defender) == (if from == to { None } else { last_at(pieces@, to, i as int) }),
    {
        let p = pieces[i];
        if p.x == from.0 && p.y == from.1 {
            attacker = Some(i);
        } else if p.x == to.0 && p.y == to.1 {
            defender = Some(i);
        }
    }
    proof {
        lemma_last_at(pieces@, from, n as int);
        lemma_last_at(pieces@, to, n as int);
    }
    let a = match attacker {
        None => {
            return MoveOutcome::NoMover;
        },
        Some(a) => a,
    };
    let mover = pieces[a];
    match defender {
        Some(d) => {
            let partner = pieces[d];
            if partner.color == mover.color {
                let king_rook = (mover.my_type == PieceType::King && partner.my_type == PieceType::Rook)
                    || (mover.my_type == PieceType::Rook && partner.my_type == PieceType::King);
                if king_rook {
                    pieces[d] = Piece { my_type: partner.my_type, color: partner.color, x: from.0, y: from.1 };
                    pieces[a] = Piece { my_type: mover.my_type, color: mover.color, x: to.0, y: to.1 };
                    *selection = Selection { from: None, to: None };
                    return MoveOutcome::Castled { mover: a, partner: d };
                }
                selection.to = None;
                return MoveOutcome::Blocked;
            }
            pieces[a] = Piece { my_type: mover.my_type, color: mover.color, x: to.0, y: to.1 };
            pieces.remove(d);
            *selection = Selection { from: None, to: None };
            MoveOutcome::Moved { mover: a, captured: Some(d) }
        },
        None => {
            pieces[a] = Piece { my_type: mover.my_type, color: mover.color, x: to.0, y: to.1 };
            *selection = Selection { from: None, to: None };
            MoveOutcome::Moved { mover: a, captured: None }
        },
    }
}

/// Whether `p` and `q` stand on the same square.
pub open spec fn same_square(p: Piece, q: Piece) -> bool {
    p.x == q.x && p.y == q.y
}

/// No two pieces of `s` share a square.
pub open spec fn squares_distinct(s: Seq<Piece>) -> bool {
    forall|i: int, j: int|
        0 <= i < s.len() && 0 <= j < s.len() && i != j ==> !same_square(#[trigger] s[i], #[trigger] s[j])
}

/// Every piece of `s` stands on the board.
pub open spec fn on_board(s: Seq<Piece>) -> bool {
    forall|i: int| 0 <= i < s.len() ==> #[trigger] s[i].x < MAX && s[i].y < MAX
}

/// The kind and side of each piece of `s`, in order.
pub open spec fn kinds(s: Seq<Piece>) -> Seq<(PieceType, PieceColor)> {
    s.map_values(|p: Piece| (p.my_type, p.color))
}

/// A move never puts two pieces on one square: if no two pieces shared a
/// square before, none do after.
pub proof fn lemma_move_keeps_squares_distinct(s: Seq<Piece>, sel: Selection)
    requires
        squares_distinct(s),
    ensures
        squares_distinct(move_result(s, sel).0),
{
    let n = s.len() as int;
    if let (Some(to), Some(from)) = (sel.to, sel.from) {
        lemma_last_at(s, from, n);
        lemma_last_at(s, to, n);
        let r = move_result(s, sel).0;
        assert forall|i: int, j: int|
            0 <= i < r.len() && 0 <= j < r.len() && i != j implies !same_square(#[trigger] r[i], #[trigger] r[j]) by {
            if let Some(d) = last_at(s, to, n) {
                if from != to {
                    // the piece on the target is the only one there
                    assert(forall|k: int| 0 <= k < n && k != d ==> !stands_on(#[trigger] s[k], to));
                }
            }
        }
    }
}

/// A move keeps the pieces on the board when its target is on the board.
pub proof fn lemma_move_stays_on_board(s: Seq<Piece>, sel: Selection)
    requires
        on_board(s),
        sel.to matches Some(to) ==> to.0 < MAX && to.1 < MAX,
    ensures
        on_board(move_result(s, sel).0),
{
    let n = s.len() as int;
    if let (Some(to), Some(from)) = (sel.to, sel.from) {
        lemma_last_at(s, from, n);
        lemma_last_at(s, to, n);
        let r = move_result(s, sel).0;
        assert forall|i: int| 0 <= i < r.len() implies #[trigger] r[i].x < MAX && r[i].y < MAX by {
            if i < n {
                assert(s[i].x < MAX && s[i].y < MAX);
            }
            if i + 1 < n {
                assert(s[i + 1].x < MAX && s[i + 1].y < MAX);
            }
            if let Some(a) = last_at(s, from, n) {
                assert(s[a].x < MAX && s[a].y < MAX);
            }
        }
    }
}

/// A move that is not finished leaves the pieces as they were; only a
/// blocked move changes the selection, and it drops just the target.
pub proof fn lemma_unfinished_move_keeps_board(s: Seq<Piece>, sel: Selection)
    requires
        !move_result(s, sel).2.spec_passes_turn(),
    ensures
        move_result(s, sel).0 == s,
        move_result(s, sel).2 is Blocked ==> move_result(s, sel).1 == (Selection { from: sel.from, to: None }),
        !(move_result(s, sel).2 is Blocked) ==> move_result(s, sel).1 == sel,
{
}

/// A finished move clears the selection, keeps every piece's kind and side,
/// and takes off at most one piece: one of the other side that stood on
/// the target. Castling swaps a king and a rook of one side.
pub proof fn lemma_finished_move(s: Seq<Piece>, sel: Selection)
    requires
        s.len() <= usize::MAX,
        move_result(s, sel).2.spec_passes_turn(),
    ensures
        move_result(s, sel).1 == cleared(),
        sel.from is Some && sel.to is Some,
        match move_result(s, sel).2 {
            MoveOutcome::Moved { mover, captured: None } => {
                &&& mover < s.len()
                &&& stands_on(s[mover as int], sel.from.unwrap())
                &&& stands_on(move_result(s, sel).0[mover as int], sel.to.unwrap())
                &&& kinds(move_result(s, sel).0) == kinds(s)
            },
            MoveOutcome::Moved { mover, captured: Some(d) } => {
                &&& mover < s.len() && d < s.len() && mover != d
                &&& stands_on(s[mover as int], sel.from.unwrap())
                &&& stands_on(s[d as int], sel.to.unwrap())
                &&& s[d as int].color != s[mover as int].color
                &&& kinds(move_result(s, sel).0) == kinds(s).remove(d as int)
            },
            MoveOutcome::Castled { mover, partner } => {
                &&& mover < s.len() && partner < s.len() && mover != partner
                &&& s[mover as int].color == s[partner as int].color
                &&& is_king_rook(s[mover as int].my_type, s[partner as int].my_type)
                &&& stands_on(move_result(s, sel).0[mover as int], sel.to.unwrap())
                &&& stands_on(move_result(s, sel).0[partner as int], sel.from.unwrap())
                &&& kinds(move_result(s, sel).0) == kinds(s)
            },
            _ => false,
        },
{
    let n = s.len() as int;
    if let (Some(to), Some(from)) = (sel.to, sel.from) {
        lemma_last_at(s, from, n);
        lemma_last_at(s, to, n);
        let r = move_result(s, sel).0;
        match move_result(s, sel).2 {
            MoveOutcome::Moved { mover, captured: Some(d) } => {
                let k2 = kinds(s).remove(d as int);
                assert(r.len() == k2.len());
                assert forall|i: int| 0 <= i < r.len() implies #[trigger] kinds(r)[i] == k2[i] by {
                    if i < d {
                        assert(k2[i] == kinds(s)[i]);
                    } else {
                        assert(k2[i] == kinds(s)[i + 1]);
                    }
                }
                assert(kinds(r) =~= k2);
            },
            _ => {
                assert(r.len() == s.len());
                assert forall|i: int| 0 <= i < r.len() implies #[trigger] kinds(r)[i] == kinds(s)[i] by {
                }
                assert(kinds(r) =~= kinds(s));
            },
        }
    }
}

/// A plain move is undone by the move back: when no two pieces share a
/// square and a move takes nothing, picking the target as the start and the
/// start as the target moves the same piece back and restores the pieces.
pub proof fn lemma_plain_move_undone(s: Seq<Piece>, sel: Selection, mover: usize)
    requires
        s.len() <= usize::MAX,
        squares_distinct(s),
        move_result(s, sel).2 == (MoveOutcome::Moved { mover, captured: None }),
    ensures
        move_result(move_result(s, sel).0, Selection { from: sel.to, to: sel.from }).0 == s,
        move_result(move_result(s, sel).0, Selection { from: sel.to, to: sel.from }).2
            == (MoveOutcome::Moved { mover, captured: None }),
{
    let n = s.len() as int;
    if let (Some(to), Some(from)) = (sel.to, sel.from) {
        lemma_last_at(s, from, n);
        lemma_last_at(s, to, n);
        let a = mover as int;
        let r = move_result(s, sel).0;
        assert(r.len() == n);
        lemma_last_at(r, from, n);
        lemma_last_at(r, to, n);
        assert(stands_on(s[a], from));
        assert(stands_on(r[a], to));
        assert forall|k: int| 0 <= k < n && k != a implies !stands_on(#[trigger] s[k], from) by {
            assert(!same_square(s[a], s[k]));
        }
        if from != to {
            assert(forall|k: int| 0 <= k < n ==> !stands_on(#[trigger] s[k], to));
            assert(forall|k: int| 0 <= k < n && k != a ==> !stands_on(#[trigger] r[k], to) && !stands_on(r[k], from));
            assert(last_at(r, to, n) == Some(a));
            assert(last_at(r, from, n) is None);
        } else {
            assert(r =~= s);
        }
        assert(move_result(r, Selection { from: sel.to, to: sel.from }).0 =~= s);
    }
}

/// `a` is the last piece of `s` standing on `sq`.
proof fn lemma_last_at_is(s: Seq<Piece>, sq: (u8, u8), a: int)
    requires
        0 <= a < s.len(),
        stands_on(s[a], sq),
        forall|j: int| a < j < s.len() ==> !stands_on(#[trigger] s[j], sq),
    ensures
        last_at(s, sq, s.len() as int) == Some(a),
{
    lemma_last_at(s, sq, s.len() as int);
}

/// No piece of `s` stands on `sq`.
proof fn lemma_last_at_none(s: Seq<Piece>, sq: (u8, u8))
    requires
        forall|j: int| 0 <= j < s.len() ==> !stands_on(#[trigger] s[j], sq),
    ensures
        last_at(s, sq, s.len() as int) is None,
{
    lemma_last_at(s, sq, s.len() as int);
    if let Some(i) = last_at(s, sq, s.len() as int) {
        assert(!stands_on(s[i], sq));
    }
}

/// A plain move: when the last piece on the start square is `a` and no piece
/// stands on the target, that piece, whatever its kind or side, goes to the
/// target with its kind and side, nothing else changes, the selection is
/// cleared and the turn passes.
pub proof fn lemma_plain_move(s: Seq<Piece>, from: (u8, u8), to: (u8, u8), a: usize)
    requires
        a < s.len(),
        stands_on(s[a as int], from),
        forall|j: int| a < j < s.len() ==> !stands_on(#[trigger] s[j], from),
        forall|j: int| 0 <= j < s.len() ==> !stands_on(#[trigger] s[j], to),
    ensures
        move_result(s, Selection { from: Some(from), to: Some(to) }) == (
            s.update(a as int, Piece { my_type: s[a as int].my_type, color: s[a as int].color, x: to.0, y: to.1 }),
            Selection { from: None, to: None },
            MoveOutcome::Moved { mover: a, captured: None },
        ),
        move_result(s, Selection { from: Some(from), to: Some(to) }).2.spec_passes_turn(),
{
    lemma_last_at_is(s, from, a as int);
    assert(from != to);
    lemma_last_at_none(s, to);
}

/// A move onto the start square itself keeps every piece where it is,
/// clears the selection and passes the turn.
pub proof fn lemma_move_in_place(s: Seq<Piece>, from: (u8, u8), a: usize)
    requires
        a < s.len(),
        stands_on(s[a as int], from),
        forall|j: int| a < j < s.len() ==> !stands_on(#[trigger] s[j], from),
    ensures
        move_result(s, Selection { from: Some(from), to: Some(from) }) == (
            s,
            Selection { from: None, to: None },
            MoveOutcome::Moved { mover: a, captured: None },
        ),
{
    lemma_last_at_is(s, from, a as int);
    assert(s.update(a as int, placed_on(s[a as int], from)) =~= s);
}

/// A capture: when the last piece on the start square is `a`, the last piece
/// on a different target is `d`, and the two belong to different sides, `d`
/// is taken off the board and `a` goes to the target with its kind and side
/// (at index `a - 1` when `d` came before it), for either side; the selection
/// is cleared and the turn passes.
pub proof fn lemma_capture(s: Seq<Piece>, from: (u8, u8), to: (u8, u8), a: usize, d: usize)
    requires
        a < s.len(),
        d < s.len(),
        from != to,
        stands_on(s[a as int], from),
        forall|j: int| a < j < s.len() ==> !stands_on(#[trigger] s[j], from),
        stands_on(s[d as int], to),
        forall|j: int| d < j < s.len() ==> !stands_on(#[trigger] s[j], to),
        s[a as int].color != s[d as int].color,
    ensures
        move_result(s, Selection { from: Some(from), to: Some(to) }) == (
            s.update(a as int, Piece { my_type: s[a as int].my_type, color: s[a as int].color, x: to.0, y: to.1 })
                .remove(d as int),
            Selection { from: None, to: None },
            MoveOutcome::Moved { mover: a, captured: Some(d) },
        ),
        ({
            let r = move_result(s, Selection { from: Some(from), to: Some(to) }).0;
            let k = if d < a { a - 1 } else { a as int };
            &&& r.len() + 1 == s.len()
            &&& r[k] == Piece { my_type: s[a as int].my_type, color: s[a as int].color, x: to.0, y: to.1 }
        }),
        move_result(s, Selection { from: Some(from), to: Some(to) }).2.spec_passes_turn(),
{
    lemma_last_at_is(s, from, a as int);
    lemma_last_at_is(s, to, d as int);
    assert(a != d);
}

/// Castling: when the last piece on the start square and the last piece on a
/// different target are a king and a rook of one side, in either order and
/// for either side, they swap squares, keeping their kinds and sides; the
/// selection is cleared and the turn passes.
pub proof fn lemma_castle(s: Seq<Piece>, from: (u8, u8), to: (u8, u8), a: usize, d: usize)
    requires
        a < s.len(),
        d < s.len(),
        from != to,
        stands_on(s[a as int], from),
        forall|j: int| a < j < s.len() ==> !stands_on(#[trigger] s[j], from),
        stands_on(s[d as int], to),
        forall|j: int| d < j < s.len() ==> !stands_on(#[trigger] s[j], to),
        s[a as int].color == s[d as int].color,
        (s[a as int].my_type == PieceType::King && s[d as int].my_type == PieceType::Rook)
            || (s[a as int].my_type == PieceType::Rook && s[d as int].my_type == PieceType::King),
    ensures
        move_result(s, Selection { from: Some(from), to: Some(to) }) == (
            s.update(d as int, Piece { my_type: s[d as int].my_type, color: s[d as int].color, x: from.0, y: from.1 })
                .update(a as int, Piece { my_type: s[a as int].my_type, color: s[a as int].color, x: to.0, y: to.1 }),
            Selection { from: None, to: None },
            MoveOutcome::Castled { mover: a, partner: d },
        ),
        move_result(s, Selection { from: Some(from), to: Some(to) }).2.spec_passes_turn(),
{
    lemma_last_at_is(s, from, a as int);
    lemma_last_at_is(s, to, d as int);
}

/// A blocked move: when the last piece on the start square and the last piece
/// on a different target belong to one side and are not a king and a rook,
/// the pieces stay, only the target is dropped from the selection and the
/// turn does not pass.
pub proof fn lemma_blocked(s: Seq<Piece>, from: (u8, u8), to: (u8, u8), a: usize, d: usize)
    requires
        a < s.len(),
        d < s.len(),
        from != to,
        stands_on(s[a as int], from),
        forall|j: int| a < j < s.len() ==> !stands_on(#[trigger] s[j], from),
        stands_on(s[d as int], to),
        forall|j: int| d < j < s.len() ==> !stands_on(#[trigger] s[j], to),
        s[a as int].color == s[d as int].color,
        !((s[a as int].my_type == PieceType::King && s[d as int].my_type == PieceType::Rook)
            || (s[a as int].my_type == PieceType::Rook && s[d as int].my_type == PieceType::King)),
    ensures
        move_result(s, Selection { from: Some(from), to: Some(to) }) == (
            s,
            Selection { from: Some(from), to: None },
            MoveOutcome::Blocked,
        ),
        !move_result(s, Selection { from: Some(from), to: Some(to) }).2.spec_passes_turn(),
{
    lemma_last_at_is(s, from, a as int);
    lemma_last_at_is(s, to, d as int);
}

/// A move without a target does nothing and reports it; a move with a target
/// reports that no piece moves exactly when no start square is picked or no
/// piece stands on it, and then nothing changes.
pub proof fn lemma_no_move(s: Seq<Piece>, sel: Selection)
    ensures
        sel.to is None ==> move_result(s, sel) == (s, sel, MoveOutcome::NoTarget),
        sel.to is Some ==> (move_result(s, sel).2 is NoMover <==> (sel.from is None || forall|j: int|
            0 <= j < s.len() ==> !stands_on(#[trigger] s[j], sel.from.unwrap()))),
        move_result(s, sel).2 is NoMover ==> move_result(s, sel).0 == s && move_result(s, sel).1 == sel,
{
    if let Some(from) = sel.from {
        lemma_last_at(s, from, s.len() as int);
        if let Some(i) = last_at(s, from, s.len() as int) {
            assert(stands_on(s[i], from));
        }
    }
}

/// Different pieces get different textures: the texture names both the side
/// and the kind of the piece.
pub proof fn lemma_sprite_path_distinguishes(p: Piece, q: Piece)
    ensures
        sprite_path(p) == sprite_path(q) ==> p.color == q.color && p.my_type == q.my_type,
{
    reveal_strlit("arabian chess/sprites/pieces/");
    reveal_strlit("_");
    reveal_strlit(".png");
    reveal_strlit("white");
    reveal_strlit("black");
    reveal_strlit("king");
    reveal_strlit("queen");
    reveal_strlit("bishop");
    reveal_strlit("knight");
    reveal_strlit("rook");
    reveal_strlit("pawn");
    if sprite_path(p) == sprite_path(q) {
        let sp = sprite_path(p);
        let sq = sprite_path(q);
        let np = p.my_type.spec_name();
        let nq = q.my_type.spec_name();
        assert(p.color.spec_name().len() == 5 && q.color.spec_name().len() == 5);
        assert(sp.subrange(29, 34) =~= p.color.spec_name());
        assert(sq.subrange(29, 34) =~= q.color.spec_name());
        assert(sp.len() == 39 + np.len());
        assert(sq.len() == 39 + nq.len());
        assert(sp.subrange(35, 35 + np.len() as int) =~= np);
        assert(sq.subrange(35, 35 + nq.len() as int) =~= nq);
        assert(np =~= nq);
        assert(p.color.spec_name()[0] == q.color.spec_name()[0]);
        assert(np.len() == nq.len());
        assert(np[0] == nq[0]);
        assert(np[1] == nq[1]);
    }
}

} // verus!
