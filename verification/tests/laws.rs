use shogi_kifu_converter::converter::kif::ToKif;
use shogi_kifu_converter::handicap::{side_to_move, side_to_move_at_ply};
use shogi_kifu_converter::jkf::{
    Color, Hand, Initial, JsonKifuFormat, Kind, MoveFormat, MoveMoveFormat, MoveSpecial,
    PlaceFormat, Preset, StateFormat,
};
use shogi_kifu_converter::converter::kakinoki::{write_comments, write_header, write_initial};
use shogi_kifu_converter::jkf::{Piece, Time, TimeFormat};
use shogi_kifu_converter::normalizer::normalize_initial;
use shogi_kifu_converter::parser::header_block::{information_value_hand, parse_without_moves};
use shogi_kifu_converter::parser::kakinoki::{numbered_line, LineShapes, NumberedBody};
use shogi_kifu_converter::parser::kakinoki::board;
use shogi_kifu_converter::position::{BoardState, PieceMove, Square};

const OUTCOMES: [MoveSpecial; 14] = [
    MoveSpecial::SpecialToryo,
    MoveSpecial::SpecialChudan,
    MoveSpecial::SpecialSennichite,
    MoveSpecial::SpecialTimeUp,
    MoveSpecial::SpecialIllegalMove,
    MoveSpecial::SpecialIllegalActionBlack,
    MoveSpecial::SpecialIllegalActionWhite,
    MoveSpecial::SpecialJishogi,
    MoveSpecial::SpecialKachi,
    MoveSpecial::SpecialHikiwake,
    MoveSpecial::SpecialMatta,
    MoveSpecial::SpecialTsumi,
    MoveSpecial::SpecialFuzumi,
    MoveSpecial::SpecialError,
];

const KINDS: [Kind; 14] = [
    Kind::FU,
    Kind::KY,
    Kind::KE,
    Kind::GI,
    Kind::KI,
    Kind::KA,
    Kind::HI,
    Kind::OU,
    Kind::TO,
    Kind::NY,
    Kind::NK,
    Kind::NG,
    Kind::UM,
    Kind::RY,
];

fn pawn(color: Color, fx: u8, fy: u8, tx: u8, ty: u8) -> MoveFormat {
    MoveFormat {
        move_: Some(MoveMoveFormat {
            color,
            from: Some(PlaceFormat { x: fx, y: fy }),
            to: PlaceFormat { x: tx, y: ty },
            piece: Kind::FU,
            same: None,
            promote: None,
            capture: None,
            relative: None,
        }),
        ..Default::default()
    }
}

#[test]
fn a_kif_outcome_word_reads_back_as_the_outcome_up_to_what_kif_cannot_say() {
    for side in [Color::Black, Color::White] {
        for sp in OUTCOMES {
            let word = sp.kif_word().unwrap_or("中断");
            let expected = match sp {
                MoveSpecial::SpecialHikiwake => MoveSpecial::SpecialJishogi,
                MoveSpecial::SpecialMatta | MoveSpecial::SpecialError => MoveSpecial::SpecialChudan,
                MoveSpecial::SpecialIllegalActionBlack | MoveSpecial::SpecialIllegalActionWhite => {
                    match side {
                        Color::Black => MoveSpecial::SpecialIllegalActionWhite,
                        Color::White => MoveSpecial::SpecialIllegalActionBlack,
                    }
                }
                other => other,
            };
            assert_eq!(MoveSpecial::from_kif_word(word, side), Some(expected), "{sp:?}");
        }
    }
    assert_eq!(MoveSpecial::from_kif_word("投げ", Color::Black), None);
}

#[test]
fn a_ki2_phrase_reads_back_as_the_outcome_it_names() {
    assert_eq!(MoveSpecial::SpecialToryo.ki2_phrase(Color::Black), "後手の勝ち");
    assert_eq!(
        MoveSpecial::SpecialTimeUp.ki2_phrase(Color::White),
        "時間切れにより先手の勝ち"
    );
    for side in [Color::Black, Color::White] {
        for sp in OUTCOMES {
            let expected = match sp {
                MoveSpecial::SpecialHikiwake => MoveSpecial::SpecialJishogi,
                MoveSpecial::SpecialMatta | MoveSpecial::SpecialError => MoveSpecial::SpecialChudan,
                other => other,
            };
            let phrase = sp.ki2_phrase(side);
            assert_eq!(MoveSpecial::from_ki2_phrase(&phrase, side), Some(expected), "{phrase}");
        }
    }
}

#[test]
fn no_two_outcomes_share_a_csa_keyword() {
    for a in OUTCOMES {
        for b in OUTCOMES {
            assert_eq!(a.csa_word() == b.csa_word(), a == b, "{a:?} {b:?}");
        }
    }
    assert_eq!(MoveSpecial::SpecialIllegalActionBlack.csa_word(), "+ILLEGAL_ACTION");
}

#[test]
fn the_sides_alternate_from_the_one_that_starts() {
    for start in [Color::Black, Color::White] {
        assert_eq!(side_to_move_at_ply(start, 1), start);
        for ply in 1..10 {
            assert_eq!(
                side_to_move_at_ply(start, ply + 1),
                side_to_move_at_ply(start, ply).flip()
            );
        }
    }
    assert_eq!(side_to_move(Preset::PresetKA), Color::White);
}

#[test]
fn a_move_hands_the_turn_over_and_is_remembered() {
    let mut pos = BoardState::startpos();
    let mv = PieceMove::Normal {
        from: Square::new(7, 7).unwrap(),
        to: Square::new(7, 6).unwrap(),
        promote: false,
    };
    assert_eq!(pos.make_move(mv), Some(()));
    assert_eq!(pos.side_to_move(), Color::White);
    assert_eq!(pos.last_move(), Some(mv));
    // A move the position refuses changes nothing.
    let before = pos;
    assert_eq!(pos.make_move(mv), None);
    assert_eq!(pos, before);
}

#[test]
fn promotion_and_its_undoing_give_the_piece_back() {
    for k in KINDS {
        let p = k.promoted();
        if k.unpromoted() == k {
            assert_eq!(p.unpromoted(), k, "{k:?}");
        } else {
            assert_ne!(k.unpromoted().promoted(), k.unpromoted(), "{k:?}");
            assert_eq!(k.unpromoted().promoted(), k, "{k:?}");
        }
    }
    assert_eq!(Kind::KE.promoted(), Kind::NK);
    assert_eq!(Kind::KI.promoted(), Kind::KI);
}

#[test]
fn taking_back_a_piece_just_put_in_hand_leaves_the_hand_as_it_was() {
    let start = Hand {
        FU: 3,
        KA: 1,
        ..Hand::empty()
    };
    let mut h = start;
    assert_eq!(h.increment(Kind::FU), Some(()));
    assert_eq!(h.slot(Kind::FU), Some(4));
    assert_eq!(h.decrement(Kind::FU), Some(()));
    assert_eq!(h, start);
    // A king cannot be held, and a full slot does not wrap.
    assert_eq!(h.increment(Kind::OU), None);
    let mut full = Hand {
        HI: 255,
        ..Hand::empty()
    };
    assert_eq!(full.increment(Kind::HI), None);
    assert_eq!(full.slot(Kind::HI), Some(255));
    let mut none = Hand::empty();
    assert_eq!(none.decrement(Kind::GI), None);
}

#[test]
fn folding_a_position_into_its_preset_keeps_where_the_record_starts() {
    let mut board = shogi_kifu_converter::handicap::board(Preset::PresetKY).unwrap();
    let data = StateFormat {
        color: Color::White,
        board,
        hands: [Hand::empty(), Hand::empty()],
    };
    let mut jkf = JsonKifuFormat {
        initial: Some(Initial {
            preset: Preset::PresetOther,
            data: Some(data),
        }),
        ..Default::default()
    };
    let before = jkf.starting_position();
    normalize_initial(&mut jkf);
    assert_eq!(
        jkf.initial,
        Some(Initial {
            preset: Preset::PresetKY,
            data: None
        })
    );
    assert_eq!(jkf.starting_position(), before);
    // One piece more in a hand and it is no preset's start.
    let mut hands = [Hand::empty(), Hand::empty()];
    hands[0].FU = 1;
    let mut other = JsonKifuFormat {
        initial: Some(Initial {
            preset: Preset::PresetOther,
            data: Some(StateFormat {
                color: Color::White,
                board,
                hands,
            }),
        }),
        ..Default::default()
    };
    normalize_initial(&mut other);
    assert_eq!(other.initial.unwrap().preset, Preset::PresetOther);
}

#[test]
fn a_normalized_move_carries_the_side_that_played_it() {
    let mut jkf = JsonKifuFormat {
        initial: Some(Initial {
            preset: Preset::PresetKA,
            data: None,
        }),
        moves: vec![MoveFormat::default(), pawn(Color::Black, 3, 3, 3, 4)],
        ..Default::default()
    };
    assert_eq!(jkf.normalize_with_color_correction(true), Ok(()));
    assert_eq!(jkf.moves[1].move_.unwrap().color, Color::White);
}

#[test]
fn a_comment_only_node_takes_no_ply_number() {
    let jkf = JsonKifuFormat {
        moves: vec![
            MoveFormat::default(),
            pawn(Color::Black, 7, 7, 7, 6),
            MoveFormat {
                comments: Some(vec!["メモ".to_owned()]),
                ..Default::default()
            },
            pawn(Color::White, 3, 3, 3, 4),
        ],
        ..Default::default()
    };
    let kif = jkf.try_to_kif_owned().expect("writes KIF");
    assert!(kif.contains("   1 ７六歩(77)"), "{kif}");
    assert!(kif.contains("*メモ"), "{kif}");
    assert!(kif.contains("   2 ３四歩(33)"), "{kif}");
    assert!(!kif.contains("   3 "), "{kif}");
}

#[test]
fn a_header_value_is_written_on_one_line() {
    let jkf = JsonKifuFormat {
        header: vec![("棋戦".to_owned(), "第1局\n   1 ７六歩(77)".to_owned())],
        ..Default::default()
    };
    let kif = jkf.try_to_kif_owned().expect("writes KIF");
    let line = kif
        .lines()
        .find(|l| l.starts_with("棋戦："))
        .expect("the header line");
    assert!(line.contains("第1局"), "{kif}");
    assert!(!kif.lines().any(|l| l.starts_with("   1 ７六歩")), "{kif}");
}

fn a_position_with_a_hand() -> StateFormat {
    let mut state = StateFormat {
        color: Color::Black,
        board: [[Piece::empty(); 9]; 9],
        hands: [Hand::empty(); 2],
    };
    state.board[4][8] = Piece {
        color: Some(Color::Black),
        kind: Some(Kind::OU),
    };
    state.board[4][0] = Piece {
        color: Some(Color::White),
        kind: Some(Kind::OU),
    };
    state.board[6][2] = Piece {
        color: Some(Color::White),
        kind: Some(Kind::RY),
    };
    state.board[1][6] = Piece {
        color: Some(Color::Black),
        kind: Some(Kind::NK),
    };
    state.hands[0] = Hand {
        FU: 18,
        KY: 1,
        KE: 10,
        GI: 2,
        KI: 0,
        KA: 0,
        HI: 0,
    };
    state
}

fn written_position(state: &StateFormat) -> String {
    let mut text = String::new();
    let initial = Some(Initial {
        preset: Preset::PresetOther,
        data: Some(state.clone()),
    });
    write_initial(&mut text, &initial).expect("writes the position");
    text
}

#[test]
fn a_written_board_reads_back_as_the_board_it_was_drawn_from() {
    let state = a_position_with_a_hand();
    let text = written_position(&state);
    let at = text.find("  ９ ８").expect("a board diagram");
    let (rest, read) = board(&text[at..]).expect("the diagram reads");
    assert_eq!(state.board, read);
    assert!(rest.starts_with("先手の持駒"), "{rest:?}");
}

#[test]
fn a_written_hand_reads_back_as_the_hand_it_was_written_from() {
    let state = a_position_with_a_hand();
    let text = written_position(&state);
    for (prefix, hand) in [("先手の持駒：", state.hands[0]), ("後手の持駒：", state.hands[1])] {
        let at = text.find(prefix).expect("a hand line") + prefix.len();
        let (rest, read) = information_value_hand(&text[at..]).expect("the hand reads");
        assert_eq!(hand, read, "{prefix}");
        assert!(rest.starts_with('\n'), "{prefix}: {rest:?}");
    }
}

#[test]
fn a_spelled_out_position_reads_back_as_that_position() {
    for color in [Color::Black, Color::White] {
        for shapes in [LineShapes::Kif, LineShapes::Ki2] {
            let mut state = a_position_with_a_hand();
            state.color = color;
            state.hands[1].KA = 1;
            let text = written_position(&state);
            let (rest, block) = parse_without_moves(shapes, &text).expect("the block reads");
            assert_eq!("", rest, "{color:?}");
            assert_eq!(
                Some(Initial {
                    preset: Preset::PresetOther,
                    data: Some(state),
                }),
                block.jkf.initial,
                "{color:?}: {text}"
            );
            assert!(block.jkf.header.is_empty());
            assert!(block.comments.is_empty());
        }
    }
}

#[test]
fn a_named_handicap_reads_back_as_that_handicap() {
    for preset in [
        Preset::PresetHirate,
        Preset::PresetKY,
        Preset::PresetKYR,
        Preset::PresetKA,
        Preset::PresetHI,
        Preset::PresetHIKY,
        Preset::Preset2,
        Preset::Preset3,
        Preset::Preset4,
        Preset::Preset5,
        Preset::Preset5L,
        Preset::Preset6,
        Preset::Preset7R,
        Preset::Preset7L,
        Preset::Preset8,
        Preset::Preset10,
    ] {
        let initial = Some(Initial { preset, data: None });
        let mut text = String::new();
        write_initial(&mut text, &initial).expect("writes the handicap");
        let (rest, block) = parse_without_moves(LineShapes::Kif, &text).expect("the line reads");
        assert_eq!("", rest, "{preset:?}");
        assert_eq!(initial, block.jkf.initial, "{preset:?}: {text}");
        assert!(block.a_board_could_follow);
    }
}

#[test]
fn a_written_header_reads_back_with_the_last_value_for_each_key() {
    let header = vec![
        (String::from("棋戦"), String::from("竜王戦")),
        (String::from("先手"), String::from("羽生\r\n善治")),
        (String::from("場所"), String::from("東京\n将棋会館")),
        (String::from("棋戦"), String::from("順位戦")),
        (String::from("URL"), String::from("http://example.com")),
        (String::from("備考:あり"), String::from("なし")),
        (String::from("手合割"), String::from("詰将棋")),
    ];
    let mut text = String::new();
    write_header(&mut text, &header);
    for shapes in [LineShapes::Kif, LineShapes::Ki2] {
        let (rest, block) = parse_without_moves(shapes, &text).expect("the header reads");
        assert_eq!("", rest);
        assert_eq!(
            vec![
                (String::from("棋戦"), String::from("順位戦")),
                (String::from("先手"), String::from("羽生善治")),
                (String::from("場所"), String::from("東京将棋会館")),
                (String::from("URL"), String::from("http://example.com")),
                (String::from("備考:あり"), String::from("なし")),
                (String::from("手合割"), String::from("詰将棋")),
            ],
            block.jkf.header,
            "{text}"
        );
        assert!(block.comments.is_empty());
    }
}

#[test]
fn a_written_move_line_reads_back_as_its_move() {
    let mv = |color, from: Option<(u8, u8)>, to: (u8, u8), piece, promote, same| MoveMoveFormat {
        color,
        from: from.map(|(x, y)| PlaceFormat { x, y }),
        to: PlaceFormat { x: to.0, y: to.1 },
        piece,
        same,
        promote,
        capture: None,
        relative: None,
    };
    let time = Time {
        now: TimeFormat { h: Some(1), m: 2, s: 3 },
        total: TimeFormat { h: None, m: 4, s: 5 },
    };
    let jkf = JsonKifuFormat {
        moves: vec![
            MoveFormat::default(),
            MoveFormat {
                move_: Some(mv(Color::Black, Some((7, 7)), (7, 6), Kind::FU, None, None)),
                time: Some(time),
                ..MoveFormat::default()
            },
            MoveFormat {
                move_: Some(mv(Color::White, Some((2, 2)), (7, 6), Kind::KA, Some(true), Some(true))),
                ..MoveFormat::default()
            },
            MoveFormat {
                move_: Some(mv(Color::Black, None, (5, 5), Kind::KA, Some(false), None)),
                ..MoveFormat::default()
            },
            MoveFormat {
                special: Some(MoveSpecial::SpecialToryo),
                ..MoveFormat::default()
            },
        ],
        ..JsonKifuFormat::default()
    };
    let kif = jkf.try_to_kif_owned().expect("writes KIF");
    let lines: Vec<&str> = kif
        .lines()
        .filter(|l| l.trim_start().starts_with(|c: char| c.is_ascii_digit()))
        .collect();
    assert_eq!(4, lines.len(), "{kif}");
    let read = |line: &str| {
        let (rest, got) = numbered_line(line).unwrap_or_else(|e| panic!("{line:?}: {e:?}"));
        assert_eq!("", rest, "{line:?}");
        got
    };
    assert_eq!(
        (
            1,
            NumberedBody::Move {
                to: Some(PlaceFormat { x: 7, y: 6 }),
                piece: Kind::FU,
                promote: None,
                from: Some(PlaceFormat { x: 7, y: 7 }),
            },
            Some(Time {
                now: TimeFormat { h: None, m: 62, s: 3 },
                total: TimeFormat { h: Some(0), m: 4, s: 5 },
            }),
        ),
        read(lines[0])
    );
    assert_eq!(
        (
            2,
            NumberedBody::Move {
                to: None,
                piece: Kind::KA,
                promote: Some(true),
                from: Some(PlaceFormat { x: 2, y: 2 }),
            },
            None,
        ),
        read(lines[1])
    );
    assert_eq!(
        (
            3,
            NumberedBody::Move {
                to: Some(PlaceFormat { x: 5, y: 5 }),
                piece: Kind::KA,
                promote: None,
                from: None,
            },
            None,
        ),
        read(lines[2])
    );
    assert_eq!((4, NumberedBody::Outcome("投了"), None), read(lines[3]));
}

#[test]
fn a_written_comment_reads_back_as_that_comment() {
    let comments = vec![
        String::from("序盤の要点"),
        String::from("&しおり"),
        String::from(" 空白から始まる"),
        String::from("*星で始まる"),
    ];
    let mut text = String::new();
    write_comments(&mut text, &Some(comments.clone()));
    let (rest, block) = parse_without_moves(LineShapes::Kif, &text).expect("the comments read");
    assert_eq!("", rest, "{text}");
    assert_eq!(comments, block.comments, "{text}");
}

#[test]
fn a_branch_that_cannot_be_replayed_comes_out_as_it_went_in() {
    let step = |color, fx, fy, tx, ty| MoveFormat {
        move_: Some(MoveMoveFormat {
            color,
            from: Some(PlaceFormat { x: fx, y: fy }),
            to: PlaceFormat { x: tx, y: ty },
            piece: Kind::FU,
            same: None,
            promote: None,
            capture: None,
            relative: None,
        }),
        ..Default::default()
    };
    let mut jkf = JsonKifuFormat {
        initial: Some(Initial { preset: Preset::PresetHirate, data: None }),
        moves: vec![
            MoveFormat::default(),
            step(Color::Black, 7, 7, 7, 6),
            MoveFormat {
                forks: Some(vec![
                    vec![step(Color::White, 5, 5, 5, 6)],
                    vec![step(Color::White, 8, 3, 8, 4)],
                ]),
                ..step(Color::White, 3, 3, 3, 4)
            },
        ],
        ..Default::default()
    };
    assert_eq!(Ok(()), jkf.normalize());
    let forks = jkf.moves[2].forks.as_ref().expect("the branches");
    assert_eq!(2, forks.len(), "both branches are kept");
    assert_eq!(vec![step(Color::White, 5, 5, 5, 6)], forks[0], "the one that cannot be replayed is as it was");
    assert_eq!(1, forks[1].len(), "the other is kept too");
}

#[test]
fn each_node_carries_the_running_total_of_the_side_that_moved() {
    let kif = "手合割：平手
手数----指手---------消費時間--
   1 ７六歩(77)   ( 0:10/00:00:00)
   2 ３四歩(33)   ( 0:20/00:00:00)
   3 ２六歩(27)   ( 1:05/00:00:00)
";
    let jkf = shogi_kifu_converter::parser::parse_kif_str(kif).expect("parses");
    let total = |i: usize| jkf.moves[i].time.expect("a time").total;
    assert_eq!(TimeFormat { h: Some(0), m: 0, s: 10 }, total(1));
    assert_eq!(TimeFormat { h: Some(0), m: 0, s: 20 }, total(2));
    assert_eq!(TimeFormat { h: Some(0), m: 1, s: 15 }, total(3));
    assert_eq!(Some(Kind::FU), jkf.moves[3].move_.map(|m| m.piece));
}

fn a_gold(from: (u8, u8)) -> MoveFormat {
    MoveFormat {
        move_: Some(MoveMoveFormat {
            color: Color::Black,
            from: Some(PlaceFormat { x: from.0, y: from.1 }),
            to: PlaceFormat { x: 5, y: 8 },
            piece: Kind::KI,
            same: None,
            promote: None,
            capture: None,
            relative: None,
        }),
        ..Default::default()
    }
}

/// 5八金 from 4九, with 5八金 from 6九 as a branch: either gold can reach
/// 5八, so each move needs its relative word.
fn two_golds_with_a_branch() -> JsonKifuFormat {
    let mut first = a_gold((4, 9));
    first.forks = Some(vec![vec![a_gold((6, 9))]]);
    JsonKifuFormat {
        initial: Some(Initial { preset: Preset::PresetHirate, data: None }),
        moves: vec![MoveFormat::default(), first],
        ..Default::default()
    }
}

fn branch_relative(jkf: &JsonKifuFormat) -> Option<shogi_kifu_converter::jkf::Relative> {
    jkf.moves[1].forks.as_ref().unwrap()[0][0].move_.unwrap().relative
}

#[test]
fn normalizing_with_color_correction_is_normalizing_with_inference() {
    let mut a = two_golds_with_a_branch();
    let mut b = two_golds_with_a_branch();
    assert_eq!(a.normalize_with_color_correction(true), b.normalize_with_options(true, true));
    assert_eq!(a, b);
}

#[test]
fn normalizing_without_inference_keeps_every_relative_word_branches_included() {
    let mut a = two_golds_with_a_branch();
    assert_eq!(a.normalize_with_options(false, false), Ok(()));
    assert_eq!(a.moves[1].move_.unwrap().relative, None);
    assert_eq!(branch_relative(&a), None);
}

#[test]
fn filling_in_relative_words_later_matches_inferring_them() {
    let mut a = two_golds_with_a_branch();
    let mut b = two_golds_with_a_branch();
    assert_eq!(a.normalize_with_options(false, false), Ok(()));
    assert_eq!(a.populate_relative(), Ok(()));
    assert_eq!(b.normalize_with_options(false, true), Ok(()));
    assert_eq!(a, b);
    assert_eq!(a.moves[1].move_.unwrap().relative, Some(shogi_kifu_converter::jkf::Relative::R));
    assert_eq!(branch_relative(&a), Some(shogi_kifu_converter::jkf::Relative::L));
}

#[test]
fn filling_in_relative_words_twice_changes_nothing() {
    let mut a = two_golds_with_a_branch();
    assert_eq!(a.populate_relative(), Ok(()));
    let mut b = two_golds_with_a_branch();
    assert_eq!(b.populate_relative(), Ok(()));
    assert_eq!(b.populate_relative(), Ok(()));
    assert_eq!(a, b);
}

#[test]
fn a_read_record_names_each_header_key_once() {
    let jkf = shogi_kifu_converter::parser::parse_kif_str("棋戦：甲\n棋戦：乙\n手合割：平手\n").expect("reads");
    let named: Vec<&(String, String)> = jkf.header.iter().filter(|(k, _)| k == "棋戦").collect();
    assert_eq!(named.len(), 1);
    assert_eq!(named[0].1, "乙");
}

#[test]
fn a_record_that_leaves_its_start_unsaid_is_written_as_the_even_game() {
    let jkf = JsonKifuFormat::default();
    let kif = jkf.try_to_kif_owned().expect("writes KIF");
    assert!(kif.contains("手合割：平手"), "{kif}");
}
