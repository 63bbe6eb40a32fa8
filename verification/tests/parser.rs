use shogi_kifu_converter::error::ParseError;
use shogi_kifu_converter::handicap::hirate_board;
use shogi_kifu_converter::jkf::{
    Color, Hand, Initial, Kind, MoveFormat, MoveMoveFormat, MoveSpecial, PlaceFormat, Preset,
    StateFormat, Time, TimeFormat,
};
use shogi_kifu_converter::parser::csa_text::{
    csa_layout_record, csa_text_readable, parse_csa_str, record_of_csa_layout,
};
use shogi_kifu_converter::parser::{
    decode_kifu, recognised_nothing, without_a_byte_order_mark, TextEncoding,
};

fn pawn(color: Color, fx: u8, fy: u8, tx: u8, ty: u8) -> MoveMoveFormat {
    MoveMoveFormat {
        color,
        from: Some(PlaceFormat { x: fx, y: fy }),
        to: PlaceFormat { x: tx, y: ty },
        piece: Kind::FU,
        same: None,
        promote: None,
        capture: None,
        relative: None,
    }
}

#[test]
fn a_byte_order_mark_is_not_part_of_the_record() {
    const CSA: &str = "V2.2\nPI\n+\n+7776FU\n";
    assert_eq!(
        parse_csa_str(CSA).expect("reads"),
        parse_csa_str(&format!("\u{feff}{CSA}")).expect("reads with a BOM")
    );
}

#[test]
fn a_csa_record_keeps_its_players_moves_times_and_outcome() {
    let csa = "V2.2\nN+Sente\nN-Gote\n$EVENT:Cup\nPI\n+\n+7776FU\nT12\n-3334FU\nT3725\n%TORYO\n";
    let jkf = parse_csa_str(csa).expect("reads");
    assert_eq!(
        jkf.header,
        vec![
            ("先手".to_owned(), "Sente".to_owned()),
            ("後手".to_owned(), "Gote".to_owned()),
            ("棋戦".to_owned(), "Cup".to_owned()),
        ]
    );
    assert_eq!(
        jkf.initial,
        Some(Initial {
            preset: Preset::PresetHirate,
            data: None
        })
    );
    assert_eq!(
        jkf.moves,
        vec![
            MoveFormat::default(),
            MoveFormat {
                move_: Some(pawn(Color::Black, 7, 7, 7, 6)),
                time: Some(Time {
                    now: TimeFormat { h: None, m: 0, s: 12 },
                    total: TimeFormat { h: Some(0), m: 0, s: 12 },
                }),
                ..Default::default()
            },
            MoveFormat {
                move_: Some(pawn(Color::White, 3, 3, 3, 4)),
                time: Some(Time {
                    now: TimeFormat { h: Some(1), m: 2, s: 5 },
                    total: TimeFormat { h: Some(1), m: 2, s: 5 },
                }),
                ..Default::default()
            },
            MoveFormat {
                special: Some(MoveSpecial::SpecialToryo),
                ..Default::default()
            },
        ]
    );
}

#[test]
fn a_csa_board_that_is_a_handicap_start_folds_into_its_preset() {
    // The lance handicap: White's lance on 1一 is off the board, and White moves first.
    let csa = "V2.2\nPI11KY\n-\n-3334FU\n";
    let jkf = parse_csa_str(csa).expect("reads");
    assert_eq!(
        jkf.initial,
        Some(Initial {
            preset: Preset::PresetKY,
            data: None
        })
    );
    assert_eq!(jkf.moves[1].move_, Some(pawn(Color::White, 3, 3, 3, 4)));
}

#[test]
fn a_csa_position_written_out_row_by_row_reads_like_pi() {
    let rows = "P1-KY-KE-GI-KI-OU-KI-GI-KE-KY\n\
                P2 * -HI *  *  *  *  * -KA * \n\
                P3-FU-FU-FU-FU-FU-FU-FU-FU-FU\n\
                P4 *  *  *  *  *  *  *  *  * \n\
                P5 *  *  *  *  *  *  *  *  * \n\
                P6 *  *  *  *  *  *  *  *  * \n\
                P7+FU+FU+FU+FU+FU+FU+FU+FU+FU\n\
                P8 * +KA *  *  *  *  * +HI * \n\
                P9+KY+KE+GI+KI+OU+KI+GI+KE+KY\n";
    let by_rows = parse_csa_str(&format!("V2.2\n{rows}+\n+7776FU\n")).expect("reads");
    let by_pi = parse_csa_str("V2.2\nPI\n+\n+7776FU\n").expect("reads");
    assert_eq!(by_rows, by_pi);
}

#[test]
fn text_the_csa_crate_refuses_is_a_csa_error() {
    assert!(matches!(parse_csa_str("not a record"), Err(ParseError::Csa(_))));
}

#[test]
fn a_move_that_does_not_replay_is_a_normalize_error() {
    // Nothing stands on 5五 at the start of the even game.
    assert!(matches!(
        parse_csa_str("V2.2\nPI\n+\n+5554FU\n"),
        Err(ParseError::Normalize(_))
    ));
}

#[test]
fn a_piece_placed_off_the_board_is_a_conversion_error() {
    assert!(matches!(
        parse_csa_str("V2.2\nPI\nP+50FU\n+\n"),
        Err(ParseError::CsaConvert(_))
    ));
}

#[test]
fn only_readable_csa_text_is_offered_to_the_csa_crate() {
    assert!(csa_text_readable("V2.2\n$START_TIME:2004/02/29 10:00:00\nPI\n+\n"));
    assert!(!csa_text_readable("V2.2\n$START_TIME:2003/02/29 10:00:00\nPI\n+\n"));
    assert!(!csa_text_readable("V2.2\n$START_TIME:2004/04/31\nPI\n+\n"));
    assert!(csa_text_readable("V2.2\nPI\n+\n+7776FU\nT1234567890123456789\n"));
    assert!(!csa_text_readable("V2.2\nPI\n+\n+7776FU\nT98765432109876543210\n"));
}

#[test]
fn a_byte_order_mark_is_dropped_from_the_head_only() {
    assert_eq!(without_a_byte_order_mark("\u{feff}V2.2"), "V2.2");
    assert_eq!(without_a_byte_order_mark("V2.2\u{feff}"), "V2.2\u{feff}");
    assert_eq!(without_a_byte_order_mark(""), "");
}

#[test]
fn bytes_are_read_in_whichever_encoding_decodes_them_cleanly() {
    let utf8 = "手合割：平手".as_bytes();
    assert_eq!(decode_kifu(utf8, TextEncoding::ShiftJis), Ok("手合割：平手".to_owned()));
    assert_eq!(decode_kifu(utf8, TextEncoding::Utf8), Ok("手合割：平手".to_owned()));
    // 歩 in Shift-JIS.
    let sjis: &[u8] = &[0x95, 0xe0];
    assert_eq!(decode_kifu(sjis, TextEncoding::Utf8), Ok("歩".to_owned()));
    assert_eq!(decode_kifu(&[0xff], TextEncoding::Utf8), Err(ParseError::Decode));
}

#[test]
fn a_record_with_nothing_in_it_is_recognised_as_such() {
    let jkf = parse_csa_str("V2.2\nPI\n+\n").expect("reads");
    assert!(recognised_nothing(&jkf, false));
    assert!(!recognised_nothing(&jkf, true));
    let jkf = parse_csa_str("V2.2\nPI\n+\n+7776FU\n").expect("reads");
    assert!(!recognised_nothing(&jkf, false));
}

#[test]
fn what_the_csa_crate_reads_is_written_out_before_it_is_turned_into_a_record() {
    // The crate drops comment lines and writes its own version line, so the
    // text the record is made from is not the text that was read.
    let jkf = parse_csa_str("'コメント\nV2.1\nN+Sente\nPI\n+\n+7776FU\n").expect("reads");
    assert_eq!(jkf.header, vec![("先手".to_owned(), "Sente".to_owned())]);
    assert_eq!(jkf.moves.len(), 2);
    assert_eq!(jkf.moves[1].move_, Some(pawn(Color::Black, 7, 7, 7, 6)));
}

#[test]
fn a_text_in_the_fixed_layout_spells_its_position_out() {
    let jkf = csa_layout_record("V2.2\nPI\nP-00KA\n-\n+7776FU\nT3\n").expect("in the layout");
    let data = jkf.initial.expect("a position").data.expect("spelled out");
    assert_eq!(jkf.initial.unwrap().preset, Preset::PresetOther);
    assert_eq!(data.board, hirate_board());
    assert_eq!(data.color, Color::White);
    assert_eq!(data.hands, [Hand::empty(), Hand { KA: 1, ..Hand::empty() }]);
    assert_eq!(
        jkf.moves,
        vec![
            MoveFormat::default(),
            MoveFormat {
                move_: Some(pawn(Color::Black, 7, 7, 7, 6)),
                time: Some(Time {
                    now: TimeFormat { h: None, m: 0, s: 3 },
                    total: TimeFormat { h: None, m: 0, s: 0 },
                }),
                ..Default::default()
            },
        ]
    );
    assert!(csa_layout_record("V2.2\n+\n").is_none());
    assert!(matches!(record_of_csa_layout("V2.1\nPI\n+\n"), Err(ParseError::CsaConvert(_))));
}

#[test]
fn every_piece_left_over_goes_to_the_hand_that_asks_for_them() {
    // Both kings and nothing else on the board; White takes every other piece.
    let jkf = csa_layout_record("V2.2\nP1 *  *  *  *  * -OU *  *  * \nP2 *  *  *  *  *  *  *  *  * \nP3 *  *  *  *  *  *  *  *  * \nP4 *  *  *  *  *  *  *  *  * \nP5 *  *  *  *  *  *  *  *  * \nP6 *  *  *  *  *  *  *  *  * \nP7 *  *  *  *  *  *  *  *  * \nP8 *  *  *  *  *  *  *  *  * \nP9 *  *  *  * +OU *  *  *  * \nP-00AL\n+\n")
        .expect("in the layout");
    let data: StateFormat = jkf.initial.expect("a position").data.expect("spelled out");
    assert_eq!(
        data.hands[1],
        Hand { FU: 18, KY: 4, KE: 4, GI: 4, KI: 4, KA: 2, HI: 2 }
    );
    assert_eq!(data.hands[0], Hand::empty());
    assert_eq!(data.board[3][0].kind, Some(Kind::OU));
    assert_eq!(data.board[4][8].kind, Some(Kind::OU));
}
