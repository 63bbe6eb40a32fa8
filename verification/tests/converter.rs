use shogi_kifu_converter::converter::csa::ToCsa;
use shogi_kifu_converter::converter::ki2::ToKi2;
use shogi_kifu_converter::converter::kif::ToKif;
use shogi_kifu_converter::error::ConvertError;
use shogi_kifu_converter::jkf::{
    Color, Hand, Initial, JsonKifuFormat, Kind, MoveFormat, MoveMoveFormat, Piece, PlaceFormat,
    Preset, StateFormat, Time, TimeFormat,
};

fn pawn(color: Color, fx: u8, fy: u8, tx: u8, ty: u8) -> MoveFormat {
    MoveFormat {
        move_: Some(MoveMoveFormat {
            color,
            from: Some(PlaceFormat { x: fx, y: fy }),
            to: PlaceFormat { x: tx, y: ty },
            piece: Kind::FU,
            same: None,
            promote: None,
            capture: None,
            relative: None,
        }),
        ..Default::default()
    }
}

#[test]
fn degenerate_records_do_not_panic() {
    for jkf in [
        JsonKifuFormat {
            moves: vec![],
            ..Default::default()
        },
        JsonKifuFormat {
            moves: vec![
                MoveFormat::default(),
                MoveFormat {
                    comments: Some(vec!["memo".to_owned()]),
                    ..Default::default()
                },
            ],
            ..Default::default()
        },
    ] {
        let _ = jkf.try_to_kif_owned();
        let _ = jkf.try_to_ki2_owned();
        let _ = jkf.try_to_csa_owned();
        let _ = jkf.to_usi_owned();
    }
}

#[test]
fn a_node_without_a_move_line_writes_no_time_line() {
    let ticks = |s: u16| Time {
        now: TimeFormat { h: None, m: 0, s },
        total: TimeFormat { h: None, m: 0, s },
    };
    let jkf = JsonKifuFormat {
        moves: vec![
            MoveFormat::default(),
            MoveFormat {
                time: Some(ticks(30)),
                ..pawn(Color::Black, 7, 7, 7, 6)
            },
            MoveFormat {
                comments: Some(vec!["memo".to_owned()]),
                time: Some(ticks(99)),
                ..Default::default()
            },
        ],
        ..Default::default()
    };
    let csa = jkf.try_to_csa_owned().expect("writes CSA");
    assert_eq!(
        vec!["T30"],
        csa.lines().filter(|l| l.starts_with('T')).collect::<Vec<_>>(),
        "only the move gets a time line: {csa:?}"
    );
}

#[test]
fn an_unreplayable_record_is_an_error() {
    let jkf = JsonKifuFormat {
        initial: Some(Initial {
            preset: Preset::PresetHirate,
            data: None,
        }),
        moves: vec![MoveFormat::default(), pawn(Color::Black, 5, 5, 5, 4)],
        ..Default::default()
    };
    let err = jkf.try_to_usi_owned().expect_err("the move cannot be made");
    let text = err.message();
    assert!(
        text.contains("5e5d") || text.contains("Square"),
        "the error should name the move: {text}"
    );
}

#[test]
fn usi_names_the_starting_position_and_the_moves() {
    let jkf = JsonKifuFormat {
        initial: Some(Initial {
            preset: Preset::PresetHirate,
            data: None,
        }),
        moves: vec![
            MoveFormat::default(),
            pawn(Color::Black, 7, 7, 7, 6),
            pawn(Color::White, 3, 3, 3, 4),
        ],
        ..Default::default()
    };
    assert_eq!(
        "startpos moves 7g7f 3c3d",
        jkf.try_to_usi_owned().expect("writes USI")
    );

    let handicap = JsonKifuFormat {
        initial: Some(Initial {
            preset: Preset::PresetKY,
            data: None,
        }),
        moves: vec![MoveFormat::default()],
        ..Default::default()
    };
    let usi = handicap.try_to_usi_owned().expect("writes USI");
    assert!(usi.starts_with("sfen "), "{usi:?}");
    assert!(!usi.contains("moves"), "no moves were played: {usi:?}");
}

#[test]
fn to_csa_default() {
    assert_eq!(
        "V2.2\nPI\n+\n",
        JsonKifuFormat::default()
            .try_to_csa_owned()
            .expect("writes CSA")
    );
}

#[test]
fn unspellable_records_are_errors() {
    let bad_square = JsonKifuFormat {
        moves: vec![
            MoveFormat::default(),
            MoveFormat {
                move_: Some(MoveMoveFormat {
                    color: Color::Black,
                    from: None,
                    to: PlaceFormat { x: 0, y: 0 },
                    piece: Kind::FU,
                    same: None,
                    promote: None,
                    capture: None,
                    relative: None,
                }),
                ..Default::default()
            },
        ],
        ..Default::default()
    };
    assert_eq!(
        ConvertError::UnspellableNumber(0),
        bad_square
            .try_to_kif_owned()
            .expect_err("(0, 0) is not a square")
    );

    let mut state = StateFormat {
        color: Color::Black,
        board: [[Piece {
            color: None,
            kind: None,
        }; 9]; 9],
        hands: [Hand::default(); 2],
    };
    for count in [19u8, 20, 21] {
        state.hands[0].FU = count;
        let too_many = JsonKifuFormat {
            initial: Some(Initial {
                preset: Preset::PresetOther,
                data: Some(state),
            }),
            ..Default::default()
        };
        assert_eq!(
            ConvertError::UnspellableNumber(count),
            too_many
                .try_to_kif_owned()
                .expect_err("that many pieces in hand should not be spellable"),
            "{count} pieces in hand"
        );
    }
}

#[test]
fn to_ki2_moves() {
    assert_eq!(
        "手合割：平手\n▲２六歩 △８四歩 ▲２五歩\n",
        JsonKifuFormat {
            moves: vec![
                MoveFormat::default(),
                pawn(Color::Black, 2, 7, 2, 6),
                pawn(Color::White, 8, 3, 8, 4),
                pawn(Color::Black, 2, 6, 2, 5),
            ],
            ..Default::default()
        }
        .try_to_ki2_owned()
        .expect("writes KI2")
    );
}

#[test]
fn an_origin_off_the_board_is_never_spelled() {
    let mut mv = pawn(Color::Black, 7, 7, 7, 6).move_.expect("a move");
    mv.from = Some(PlaceFormat { x: 0, y: 0 });
    let jkf = JsonKifuFormat {
        initial: Some(Initial {
            preset: Preset::PresetHirate,
            data: None,
        }),
        moves: vec![
            MoveFormat::default(),
            MoveFormat {
                move_: Some(mv),
                ..Default::default()
            },
        ],
        ..Default::default()
    };
    assert!(jkf.try_to_kif_owned().is_err(), "{:?}", jkf.try_to_kif_owned());
    assert!(jkf.try_to_csa_owned().is_err(), "{:?}", jkf.try_to_csa_owned());
}

#[test]
fn to_kif_default() {
    assert_eq!(
        "手合割：平手\n手数----指手---------消費時間--\n",
        JsonKifuFormat::default()
            .try_to_kif_owned()
            .expect("writes KIF")
    );
}
