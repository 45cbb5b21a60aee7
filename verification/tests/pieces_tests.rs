use arabian_chess::pieces::{
    load_sprites, move_pieces, path_empty, piece_sprite_path, spawn_pieces, MoveOutcome, Piece,
    PieceColor, PieceType, Selection,
};

fn piece(my_type: PieceType, color: PieceColor, x: u8, y: u8) -> Piece {
    Piece { my_type, color, x, y }
}

fn select(from: (u8, u8), to: (u8, u8)) -> Selection {
    Selection { from: Some(from), to: Some(to) }
}

fn cleared() -> Selection {
    Selection { from: None, to: None }
}

fn distinct(pieces: &[Piece]) -> bool {
    for i in 0..pieces.len() {
        for j in 0..pieces.len() {
            if i != j && pieces[i].x == pieces[j].x && pieces[i].y == pieces[j].y {
                return false;
            }
        }
    }
    true
}

use PieceColor::{Black, White};
use PieceType::{Bishop, King, Knight, Pawn, Queen, Rook};

#[test]
fn spawn_pieces_gives_the_starting_layout_in_order() {
    let mut expected = Vec::new();
    let table: Vec<(PieceType, Vec<(u8, u8)>)> = vec![
        (King, vec![(4, 0)]),
        (Queen, vec![(3, 0)]),
        (Rook, vec![(0, 0), (7, 0)]),
        (Bishop, vec![(1, 0), (6, 0)]),
        (Knight, vec![(2, 0), (5, 0)]),
        (Pawn, (0..8).map(|x| (x, 1)).collect()),
    ];
    for (t, squares) in table {
        for (x, y) in squares {
            expected.push(piece(t, White, x, y));
            expected.push(piece(t, Black, x, 7 - y));
        }
    }
    assert_eq!(spawn_pieces(), expected);
}

#[test]
fn spawn_pieces_first_pieces_and_counts() {
    let pieces = spawn_pieces();
    assert_eq!(pieces.len(), 32);
    assert_eq!(pieces[0], piece(King, White, 4, 0));
    assert_eq!(pieces[1], piece(King, Black, 4, 7));
    assert_eq!(pieces[2], piece(Queen, White, 3, 0));
    assert_eq!(pieces[3], piece(Queen, Black, 3, 7));
    assert_eq!(pieces[16], piece(Pawn, White, 0, 1));
    assert_eq!(pieces[31], piece(Pawn, Black, 7, 6));
    assert_eq!(pieces.iter().filter(|p| p.color == White).count(), 16);
    assert_eq!(pieces.iter().filter(|p| p.color == Black).count(), 16);
    assert!(distinct(&pieces));
    assert!(pieces.iter().all(|p| p.x < 8 && p.y < 8));
    assert!(pieces.iter().filter(|p| p.color == White).all(|p| p.y <= 1));
    assert!(pieces.iter().filter(|p| p.color == Black).all(|p| p.y >= 6));
    assert_eq!(pieces.iter().filter(|p| p.my_type == King).count(), 2);
}

#[test]
fn default_color_is_white() {
    assert_eq!(PieceColor::default(), White);
}

#[test]
fn names_are_lower_case() {
    assert_eq!(White.name(), "white");
    assert_eq!(Black.name(), "black");
    assert_eq!(King.name(), "king");
    assert_eq!(Queen.name(), "queen");
    assert_eq!(Bishop.name(), "bishop");
    assert_eq!(Knight.name(), "knight");
    assert_eq!(Rook.name(), "rook");
    assert_eq!(Pawn.name(), "pawn");
}

#[test]
fn sprite_paths_follow_side_and_kind() {
    assert_eq!(
        piece_sprite_path(&piece(King, White, 4, 0)),
        "arabian chess/sprites/pieces/white_king.png"
    );
    let pieces = vec![piece(Pawn, Black, 0, 6), piece(Knight, White, 1, 0)];
    let paths = load_sprites(&pieces);
    assert_eq!(
        paths,
        vec![
            "arabian chess/sprites/pieces/black_pawn.png".to_string(),
            "arabian chess/sprites/pieces/white_knight.png".to_string(),
        ]
    );
    assert_eq!(load_sprites(&spawn_pieces()).len(), 32);
}

#[test]
fn path_empty_counts_every_path_as_free() {
    let pieces = spawn_pieces();
    let refs: Vec<&Piece> = pieces.iter().collect();
    assert!(path_empty((0, 0), (0, 7), refs));
    assert!(path_empty((3, 3), (3, 3), Vec::new()));
}

#[test]
fn move_without_target_does_nothing() {
    let mut pieces = spawn_pieces();
    let mut sel = Selection { from: Some((4, 1)), to: None };
    let out = move_pieces(&mut pieces, &mut sel);
    assert_eq!(out, MoveOutcome::NoTarget);
    assert!(!out.passes_turn());
    assert_eq!(pieces, spawn_pieces());
    assert_eq!(sel, Selection { from: Some((4, 1)), to: None });
}

#[test]
fn move_from_empty_square_does_nothing() {
    let mut pieces = spawn_pieces();
    let mut sel = select((4, 4), (4, 5));
    let out = move_pieces(&mut pieces, &mut sel);
    assert_eq!(out, MoveOutcome::NoMover);
    assert!(!out.passes_turn());
    assert_eq!(pieces, spawn_pieces());
    assert_eq!(sel, select((4, 4), (4, 5)));

    let mut sel = Selection { from: None, to: Some((4, 5)) };
    assert_eq!(move_pieces(&mut pieces, &mut sel), MoveOutcome::NoMover);
    assert_eq!(sel, Selection { from: None, to: Some((4, 5)) });
}

#[test]
fn plain_move_goes_to_target_and_clears_selection() {
    let mut pieces = spawn_pieces();
    let mut sel = select((4, 1), (4, 3));
    let out = move_pieces(&mut pieces, &mut sel);
    // the white pawn on file 4 is piece 16 + 2 * 4
    assert_eq!(out, MoveOutcome::Moved { mover: 24, captured: None });
    assert!(out.passes_turn());
    assert_eq!(sel, cleared());
    let mut expected = spawn_pieces();
    expected[24].y = 3;
    assert_eq!(pieces, expected);
    assert!(distinct(&pieces));
}

#[test]
fn plain_move_is_undone_by_moving_back() {
    let mut pieces = spawn_pieces();
    let mut sel = select((6, 0), (5, 2));
    let out = move_pieces(&mut pieces, &mut sel);
    assert_eq!(out, MoveOutcome::Moved { mover: 10, captured: None });
    let mut back = select((5, 2), (6, 0));
    let out2 = move_pieces(&mut pieces, &mut back);
    assert_eq!(out2, MoveOutcome::Moved { mover: 10, captured: None });
    assert_eq!(pieces, spawn_pieces());
}

#[test]
fn capture_takes_the_other_side_off_the_board() {
    let mut pieces = vec![
        piece(Rook, White, 0, 0),
        piece(Pawn, Black, 0, 5),
        piece(King, Black, 4, 7),
    ];
    let mut sel = select((0, 0), (0, 5));
    let out = move_pieces(&mut pieces, &mut sel);
    assert_eq!(out, MoveOutcome::Moved { mover: 0, captured: Some(1) });
    assert!(out.passes_turn());
    assert_eq!(pieces, vec![piece(Rook, White, 0, 5), piece(King, Black, 4, 7)]);
    assert_eq!(sel, cleared());
}

#[test]
fn capture_before_the_mover_shifts_it() {
    let mut pieces = vec![
        piece(Pawn, Black, 3, 4),
        piece(Queen, White, 3, 0),
    ];
    let mut sel = select((3, 0), (3, 4));
    let out = move_pieces(&mut pieces, &mut sel);
    assert_eq!(out, MoveOutcome::Moved { mover: 1, captured: Some(0) });
    assert_eq!(pieces, vec![piece(Queen, White, 3, 4)]);
}

#[test]
fn own_piece_on_target_blocks_and_drops_target() {
    let mut pieces = spawn_pieces();
    let mut sel = select((3, 0), (3, 1));
    let out = move_pieces(&mut pieces, &mut sel);
    assert_eq!(out, MoveOutcome::Blocked);
    assert!(!out.passes_turn());
    assert_eq!(pieces, spawn_pieces());
    assert_eq!(sel, Selection { from: Some((3, 0)), to: None });
}

#[test]
fn king_and_rook_of_one_side_swap_squares() {
    let mut pieces = vec![piece(King, White, 4, 0), piece(Rook, White, 7, 0), piece(King, Black, 4, 7)];
    let mut sel = select((4, 0), (7, 0));
    let out = move_pieces(&mut pieces, &mut sel);
    assert_eq!(out, MoveOutcome::Castled { mover: 0, partner: 1 });
    assert!(out.passes_turn());
    assert_eq!(pieces, vec![piece(King, White, 7, 0), piece(Rook, White, 4, 0), piece(King, Black, 4, 7)]);
    assert_eq!(sel, cleared());

    let mut sel = select((4, 0), (7, 0));
    let out = move_pieces(&mut pieces, &mut sel);
    assert_eq!(out, MoveOutcome::Castled { mover: 1, partner: 0 });
    assert_eq!(pieces, vec![piece(King, White, 4, 0), piece(Rook, White, 7, 0), piece(King, Black, 4, 7)]);
}

#[test]
fn king_next_to_rook_of_other_side_captures() {
    let mut pieces = vec![piece(King, White, 4, 0), piece(Rook, Black, 5, 0)];
    let mut sel = select((4, 0), (5, 0));
    let out = move_pieces(&mut pieces, &mut sel);
    assert_eq!(out, MoveOutcome::Moved { mover: 0, captured: Some(1) });
    assert_eq!(pieces, vec![piece(King, White, 5, 0)]);
}

#[test]
fn last_piece_on_a_square_is_the_one_taken() {
    let mut pieces = vec![
        piece(Pawn, White, 1, 1),
        piece(Knight, White, 1, 1),
        piece(Bishop, Black, 2, 2),
        piece(Rook, Black, 2, 2),
    ];
    let mut sel = select((1, 1), (2, 2));
    let out = move_pieces(&mut pieces, &mut sel);
    assert_eq!(out, MoveOutcome::Moved { mover: 1, captured: Some(3) });
    assert_eq!(
        pieces,
        vec![piece(Pawn, White, 1, 1), piece(Knight, White, 2, 2), piece(Bishop, Black, 2, 2)]
    );
}

#[test]
fn move_onto_own_square_keeps_the_piece() {
    let mut pieces = spawn_pieces();
    let mut sel = select((0, 0), (0, 0));
    let out = move_pieces(&mut pieces, &mut sel);
    assert_eq!(out, MoveOutcome::Moved { mover: 4, captured: None });
    assert_eq!(pieces, spawn_pieces());
    assert_eq!(sel, cleared());
}

#[test]
fn squares_stay_distinct_over_a_game() {
    let mut pieces = spawn_pieces();
    let moves = [((4, 1), (4, 3)), ((3, 6), (3, 4)), ((4, 3), (3, 4)), ((3, 7), (3, 4)), ((1, 0), (2, 2))];
    for (from, to) in moves {
        let mut sel = select(from, to);
        let out = move_pieces(&mut pieces, &mut sel);
        assert!(out.passes_turn());
        assert!(distinct(&pieces));
    }
    assert_eq!(pieces.len(), 30);
}
