use arabian_chess::board::{load_sprites, square_texture, BoardSquare, MAX};

#[test]
fn board_has_every_square_once_in_file_order() {
    let squares = load_sprites();
    assert_eq!(squares.len(), 64);
    for (k, sq) in squares.iter().enumerate() {
        assert_eq!(sq.x as usize, k / 8);
        assert_eq!(sq.y as usize, k % 8);
    }
}

#[test]
fn board_corner_is_light_and_colours_alternate() {
    let squares = load_sprites();
    assert_eq!(squares[0], BoardSquare { x: 0, y: 0, white: true });
    assert_eq!(squares[1], BoardSquare { x: 0, y: 1, white: false });
    assert_eq!(squares[8], BoardSquare { x: 1, y: 0, white: false });
    assert_eq!(squares[9], BoardSquare { x: 1, y: 1, white: true });
    assert_eq!(squares[63], BoardSquare { x: 7, y: 7, white: true });
    assert_eq!(squares[7], BoardSquare { x: 0, y: 7, white: false });
    for sq in &squares {
        assert_eq!(sq.white, (sq.x + sq.y) % 2 == 0);
    }
}

#[test]
fn board_neighbours_differ_in_colour() {
    let squares = load_sprites();
    for a in &squares {
        for b in &squares {
            let dx = (a.x as i32 - b.x as i32).abs();
            let dy = (a.y as i32 - b.y as i32).abs();
            if dx + dy == 1 {
                assert_ne!(a.white, b.white);
            }
        }
    }
}

#[test]
fn board_square_textures() {
    assert_eq!(square_texture(true), "ARABIAN CHESS/sprites/board/board_square_white.png");
    assert_eq!(square_texture(false), "ARABIAN CHESS/sprites/board/board_square_black.png");
}

#[test]
fn board_size_is_eight() {
    assert_eq!(MAX, 8);
}
