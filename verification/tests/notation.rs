use shogi_kifu_converter::jkf::{Color, Kind};
use shogi_kifu_converter::notation::{coordinate, coordinates, move_text};
use shogi_kifu_converter::position::{CorePiece, PieceMove, Square};

fn square(file: u8, rank: u8) -> Square {
    Square::new(file, rank).expect("a square")
}

#[test]
fn a_square_is_spelled_the_way_the_notation_writes_it() {
    assert_eq!("８八", coordinate(square(8, 8)));
    assert_eq!("１一", coordinate(square(1, 1)));
    assert_eq!("９九", coordinate(square(9, 9)));
}

#[test]
fn a_move_names_both_of_its_squares() {
    assert_eq!(
        "７七→７六",
        move_text(PieceMove::Normal {
            from: square(7, 7),
            to: square(7, 6),
            promote: false,
        })
    );
    assert_eq!(
        "８八→２二成",
        move_text(PieceMove::Normal {
            from: square(8, 8),
            to: square(2, 2),
            promote: true,
        })
    );
    assert_eq!(
        "５五歩打",
        move_text(PieceMove::Drop {
            piece: CorePiece {
                kind: Kind::FU,
                color: Color::Black,
            },
            to: square(5, 5),
        })
    );
}

#[test]
fn a_list_of_origins_says_so_when_it_is_empty() {
    assert_eq!("(no candidate)", coordinates(&vec![]));
    assert_eq!("６八 ４九", coordinates(&vec![square(6, 8), square(4, 9)]));
}
