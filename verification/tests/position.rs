use shogi_kifu_converter::jkf::{Color, Initial, JsonKifuFormat, Kind, MoveFormat, MoveMoveFormat, PlaceFormat, Preset};
use shogi_kifu_converter::position::{BoardState, PieceMove, Square};

#[test]
fn from_default() {
    let rp = JsonKifuFormat::default().to_position().expect("replays");
    assert_eq!(BoardState::startpos(), rp.initial);
    assert!(rp.moves.is_empty());
    assert_eq!(BoardState::startpos(), rp.current);
}

#[test]
fn from_arbitrary() {
    let mut pp = BoardState::startpos();
    pp.piece_set(Square::new(1, 1).expect("a square"), None);
    pp.side = Color::White;
    let mut pos = pp;
    let mv = PieceMove::Normal {
        from: Square::new(7, 3).expect("a square"),
        to: Square::new(7, 4).expect("a square"),
        promote: false,
    };
    pos.make_move(mv).expect("failed to make move");
    let rp = JsonKifuFormat {
        header: vec![(String::from("key"), String::from("value"))],
        initial: Some(Initial {
            preset: Preset::PresetKY,
            data: None,
        }),
        moves: vec![
            MoveFormat::default(),
            MoveFormat {
                move_: Some(MoveMoveFormat {
                    color: Color::White,
                    from: Some(PlaceFormat { x: 7, y: 3 }),
                    to: PlaceFormat { x: 7, y: 4 },
                    piece: Kind::FU,
                    same: None,
                    promote: None,
                    capture: None,
                    relative: None,
                }),
                ..Default::default()
            },
        ],
    }
    .to_position()
    .expect("replays");
    assert_eq!(pp, rp.initial);
    assert_eq!(vec![mv], rp.moves);
    assert_eq!(pos, rp.current);
}
