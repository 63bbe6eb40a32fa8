use shogi_kifu_converter::converter::csa::ToCsa;
use shogi_kifu_converter::converter::kif::ToKif;
use shogi_kifu_converter::error::{ConvertError, NormalizeErrorKind};
use shogi_kifu_converter::jkf::{
    Color, Initial, JsonKifuFormat, Kind, MoveFormat, MoveMoveFormat, PlaceFormat, Preset,
    TimeFormat,
};
use shogi_kifu_converter::normalizer::{add_timeformat, normalize_moves};
use shogi_kifu_converter::parser::csa_text::csa_text_readable;
use shogi_kifu_converter::position::{BoardState, PieceMove, Square};

fn mv(color: Color, piece: Kind, from: Option<(u8, u8)>, to: (u8, u8)) -> MoveFormat {
    MoveFormat {
        move_: Some(MoveMoveFormat {
            color,
            from: from.map(|(x, y)| PlaceFormat { x, y }),
            to: PlaceFormat { x: to.0, y: to.1 },
            piece,
            same: None,
            promote: None,
            capture: None,
            relative: None,
        }),
        ..Default::default()
    }
}

fn first_error(mut moves: Vec<MoveFormat>) -> (usize, NormalizeErrorKind) {
    let e = normalize_moves(&mut moves, BoardState::startpos(), [TimeFormat::default(); 2], false, true)
        .expect_err("the line cannot be normalized");
    (e.ply, e.kind)
}

#[test]
fn a_same_square_move_with_nothing_before_it_has_no_last_move() {
    let mut m = mv(Color::Black, Kind::FU, Some((7, 7)), (0, 0));
    if let Some(x) = m.move_.as_mut() {
        x.same = Some(true);
    }
    assert_eq!((1, NormalizeErrorKind::NoLastMove), first_error(vec![m]));
}

#[test]
fn a_move_from_an_empty_square_names_the_square() {
    assert_eq!(
        (1, NormalizeErrorKind::NoPieceAt(Square::new(5, 5).unwrap())),
        first_error(vec![mv(Color::Black, Kind::FU, Some((5, 5)), (5, 4))])
    );
}

#[test]
fn a_move_onto_a_piece_of_ones_own_cannot_be_made() {
    let (ply, kind) = first_error(vec![mv(Color::Black, Kind::FU, Some((7, 7)), (7, 9))]);
    assert_eq!(1, ply);
    assert_eq!(
        NormalizeErrorKind::MakeMoveFailed(PieceMove::Normal {
            from: Square::new(7, 7).unwrap(),
            to: Square::new(7, 9).unwrap(),
            promote: false,
        }),
        kind
    );
}

#[test]
fn an_unstated_origin_two_pieces_fit_is_ambiguous() {
    let (ply, kind) = first_error(vec![mv(Color::Black, Kind::KI, Some((0, 0)), (5, 8))]);
    assert_eq!(1, ply);
    match kind {
        NormalizeErrorKind::AmbiguousMoveFrom(v) => {
            assert_eq!(2, v.len(), "{v:?}");
            assert!(v.contains(&Square::new(6, 9).unwrap()) && v.contains(&Square::new(4, 9).unwrap()), "{v:?}");
        }
        other => panic!("{other:?}"),
    }
}

#[test]
fn the_second_move_fails_at_ply_two() {
    assert_eq!(
        (2, NormalizeErrorKind::NoPieceAt(Square::new(5, 5).unwrap())),
        first_error(vec![
            mv(Color::Black, Kind::FU, Some((7, 7)), (7, 6)),
            mv(Color::White, Kind::FU, Some((5, 5)), (5, 6)),
        ])
    );
}

#[test]
fn a_record_with_another_preset_and_no_board_cannot_be_written() {
    let jkf = JsonKifuFormat {
        initial: Some(Initial { preset: Preset::PresetOther, data: None }),
        moves: vec![MoveFormat::default()],
        ..Default::default()
    };
    assert_eq!(Err(ConvertError::UnknownPreset(Preset::PresetOther)), jkf.try_to_kif_owned());
    assert_eq!(Err(ConvertError::InitialBoardNoDataWithPresetOTHER), jkf.try_to_usi_owned());
}

#[test]
fn a_square_off_the_board_cannot_be_written() {
    let jkf = JsonKifuFormat {
        moves: vec![MoveFormat::default(), mv(Color::Black, Kind::FU, Some((7, 7)), (7, 0))],
        ..Default::default()
    };
    assert_eq!(Err(ConvertError::InvalidSquare((7, 0))), jkf.try_to_csa_owned());
}

#[test]
fn a_header_value_keeps_to_one_line_in_every_writer() {
    let jkf = JsonKifuFormat {
        header: vec![
            (String::from("備考"), String::from("a\rb")),
            (String::from("棋戦"), String::from("A\nB")),
            (String::from("先手"), String::from("C\r\nD")),
        ],
        moves: vec![MoveFormat::default()],
        ..Default::default()
    };
    let kif = jkf.try_to_kif_owned().expect("writes KIF");
    assert!(kif.contains("備考：ab\n"), "{kif:?}");
    assert!(!kif.contains('\r'), "{kif:?}");
    let csa = jkf.try_to_csa_owned().expect("writes CSA");
    assert!(csa.starts_with("V2.2\n"), "{csa:?}");
    assert!(csa.lines().any(|l| l == "$EVENT:AB"), "{csa:?}");
    assert!(csa.lines().any(|l| l == "N+CD"), "{csa:?}");
    assert!(!csa.lines().any(|l| l == "B" || l == "D"), "{csa:?}");
}

#[test]
fn a_running_total_holds_at_255_hours() {
    let long = TimeFormat { h: Some(200), m: 59, s: 59 };
    let t = add_timeformat(&long, &TimeFormat { h: Some(100), m: 0, s: 1 });
    assert_eq!(TimeFormat { h: Some(255), m: 0, s: 0 }, t);
    let t = add_timeformat(&TimeFormat { h: None, m: 59, s: 59 }, &TimeFormat { h: None, m: 0, s: 1 });
    assert_eq!(TimeFormat { h: Some(1), m: 0, s: 0 }, t);
}

#[test]
fn a_date_with_a_sign_in_it_is_not_readable() {
    assert!(csa_text_readable("V2.2\n$START_TIME:2023/04/30\nPI\n+\n"));
    assert!(!csa_text_readable("V2.2\n$START_TIME:2023/+4/31\nPI\n+\n"));
    assert!(!csa_text_readable("V2.2\n$START_TIME:+023/02/29\nPI\n+\n"));
    assert!(!csa_text_readable("V2.2\n$START_TIME:2023/02/+9\nPI\n+\n"));
}

#[test]
fn a_long_number_or_a_bad_date_elsewhere_is_readable() {
    assert!(csa_text_readable("V2.2\nN+12345678901234567890\n'2003/02/30\nPI\n+\n"));
    assert!(!csa_text_readable("V2.2\n$END_TIME:2003/02/30\nPI\n+\n"));
}

#[test]
fn only_a_time_past_what_a_u64_holds_is_not_readable() {
    assert!(!csa_text_readable("V2.2\nPI\n+\n+7776FU\nT18446744073709551616\n"));
    assert!(csa_text_readable("V2.2\nPI\n+\n+7776FU\nT18446744073709551615\n"));
    assert!(csa_text_readable("V2.2\nPI\n+\n+7776FU\nT000000000000000000000001\n"));
}
