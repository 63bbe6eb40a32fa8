use shogi_kifu_converter::converter::ki2::ToKi2;
use shogi_kifu_converter::handicap::is_a_known_name;
use shogi_kifu_converter::jkf::{
    Color, Initial, JsonKifuFormat, Kind, MoveFormat, MoveMoveFormat, PlaceFormat, Preset,
    Relative,
};
use shogi_kifu_converter::normalizer::needs_disambiguation;
use shogi_kifu_converter::position::{BoardState, PieceMove, Square};

fn gold(color: Color, from: Option<(u8, u8)>, tx: u8, ty: u8) -> MoveFormat {
    MoveFormat {
        move_: Some(MoveMoveFormat {
            color,
            from: from.map(|(x, y)| PlaceFormat { x, y }),
            to: PlaceFormat { x: tx, y: ty },
            piece: Kind::KI,
            same: None,
            promote: None,
            capture: None,
            relative: None,
        }),
        ..Default::default()
    }
}

fn hirate(moves: Vec<MoveFormat>) -> JsonKifuFormat {
    JsonKifuFormat {
        initial: Some(Initial {
            preset: Preset::PresetHirate,
            data: None,
        }),
        moves,
        ..Default::default()
    }
}

#[test]
fn a_handicap_start_is_named_in_sfen() {
    let jkf = JsonKifuFormat {
        initial: Some(Initial {
            preset: Preset::PresetKA,
            data: None,
        }),
        ..Default::default()
    };
    assert_eq!(
        jkf.try_to_usi_owned().expect("writes USI"),
        "sfen lnsgkgsnl/1r7/ppppppppp/9/9/9/PPPPPPPPP/1B5R1/LNSGKGSNL w - 1"
    );
}

#[test]
fn a_move_two_golds_can_make_is_spelled_with_the_one_that_made_it() {
    let jkf = hirate(vec![MoveFormat::default(), gold(Color::Black, Some((4, 9)), 5, 8)]);
    let ki2 = jkf.try_to_ki2_owned().expect("writes KI2");
    assert!(ki2.contains("▲５八金右"), "{ki2}");
    let jkf = hirate(vec![MoveFormat::default(), gold(Color::Black, Some((6, 9)), 5, 8)]);
    let ki2 = jkf.try_to_ki2_owned().expect("writes KI2");
    assert!(ki2.contains("▲５八金左"), "{ki2}");
}

#[test]
fn populating_relative_names_which_gold_moved() {
    let mut jkf = hirate(vec![MoveFormat::default(), gold(Color::Black, Some((4, 9)), 5, 8)]);
    assert_eq!(jkf.populate_relative(), Ok(()));
    assert_eq!(jkf.moves[1].move_.unwrap().relative, Some(Relative::R));
    // A move only one piece can make needs no suffix.
    let mut jkf = hirate(vec![MoveFormat::default(), gold(Color::Black, Some((4, 9)), 3, 8)]);
    assert_eq!(jkf.populate_relative(), Ok(()));
    assert_eq!(jkf.moves[1].move_.unwrap().relative, None);
}

#[test]
fn a_move_whose_origin_is_unstated_takes_the_one_the_position_allows() {
    // `(0, 0)` is the origin a reader gives a move whose notation names none.
    let mut jkf = hirate(vec![MoveFormat::default(), gold(Color::Black, Some((0, 0)), 3, 8)]);
    assert_eq!(jkf.normalize(), Ok(()));
    assert_eq!(
        jkf.moves[1].move_.unwrap().from,
        Some(PlaceFormat { x: 4, y: 9 })
    );
    // Two golds reach 5八, and nothing says which moved.
    let mut jkf = hirate(vec![MoveFormat::default(), gold(Color::Black, Some((0, 0)), 5, 8)]);
    assert!(jkf.normalize().is_err());
}

#[test]
fn only_a_move_two_pieces_can_make_needs_a_suffix() {
    let pos = BoardState::startpos();
    let two_golds = PieceMove::Normal {
        from: Square::new(4, 9).unwrap(),
        to: Square::new(5, 8).unwrap(),
        promote: false,
    };
    assert!(needs_disambiguation(&pos, two_golds));
    let one_pawn = PieceMove::Normal {
        from: Square::new(7, 7).unwrap(),
        to: Square::new(7, 6).unwrap(),
        promote: false,
    };
    assert!(!needs_disambiguation(&pos, one_pawn));
}

#[test]
fn a_handicap_name_is_known_with_padding_around_it() {
    for pad in ["", " ", "　", "\t"] {
        assert!(is_a_known_name(&format!("{pad}香落ち{pad}")), "{pad:?}");
    }
    assert!(is_a_known_name("その他"));
    assert!(!is_a_known_name("詰将棋"));
}
