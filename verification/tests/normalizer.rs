use shogi_kifu_converter::jkf::{Color, Kind, MoveFormat, MoveMoveFormat, PlaceFormat, TimeFormat};
use shogi_kifu_converter::normalizer::normalize_moves;
use shogi_kifu_converter::position::BoardState;

#[test]
fn normalize_moves_empty() {
    let pos = BoardState::startpos();
    assert!(normalize_moves(&mut vec![], pos, [TimeFormat::default(); 2], false, true).is_ok());
}

#[test]
fn normalize_moves_invalid_color() {
    let mmf = MoveMoveFormat {
        color: Color::Black,
        piece: Kind::FU,
        from: Some(PlaceFormat { x: 7, y: 7 }),
        to: PlaceFormat { x: 7, y: 6 },
        promote: None,
        capture: None,
        relative: None,
        same: None,
    };
    {
        let pos = BoardState::startpos();
        assert!(
            normalize_moves(
                &mut vec![MoveFormat {
                    move_: Some(mmf),
                    ..Default::default()
                }],
                pos,
                [TimeFormat::default(); 2],
                false,
                true,
            )
            .is_ok(),
            "normalize should succeed"
        );
    }
    {
        let pos = BoardState::startpos();
        assert!(
            normalize_moves(
                &mut vec![MoveFormat {
                    move_: Some(MoveMoveFormat {
                        color: Color::White,
                        ..mmf
                    }),
                    ..Default::default()
                }],
                pos,
                [TimeFormat::default(); 2],
                false,
                true,
            )
            .is_err(),
            "normalize should fail with InvalidColor"
        );
    }
    {
        let pos = BoardState::startpos();
        let mut moves = vec![MoveFormat {
            move_: Some(MoveMoveFormat {
                color: Color::White,
                ..mmf
            }),
            ..Default::default()
        }];
        assert!(
            normalize_moves(&mut moves, pos, [TimeFormat::default(); 2], true, true).is_ok(),
            "normalize should succeed (color auto-corrected)"
        );
        assert_eq!(
            moves[0].move_.as_ref().unwrap().color,
            Color::Black,
            "color should be corrected to Black"
        );
    }
}
