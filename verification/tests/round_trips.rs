use shogi_kifu_converter::converter::csa::ToCsa;
use shogi_kifu_converter::converter::ki2::ToKi2;
use shogi_kifu_converter::converter::kif::ToKif;
use shogi_kifu_converter::jkf::{
    Color, Hand, Initial, JsonKifuFormat, Kind, MoveFormat, MoveMoveFormat, MoveSpecial, Piece,
    PlaceFormat, Preset, Relative, StateFormat,
};
use shogi_kifu_converter::parser::{parse_ki2_str, parse_kif_str};

fn black_pawn_7g7f() -> MoveFormat {
    MoveFormat {
        move_: Some(MoveMoveFormat {
            color: Color::Black,
            from: Some(PlaceFormat { x: 7, y: 7 }),
            to: PlaceFormat { x: 7, y: 6 },
            piece: Kind::FU,
            same: None,
            promote: None,
            capture: None,
            relative: None,
        }),
        ..Default::default()
    }
}

fn white_pawn_3c3d() -> MoveFormat {
    MoveFormat {
        move_: Some(MoveMoveFormat {
            color: Color::White,
            from: Some(PlaceFormat { x: 3, y: 3 }),
            to: PlaceFormat { x: 3, y: 4 },
            piece: Kind::FU,
            same: None,
            promote: None,
            capture: None,
            relative: None,
        }),
        ..Default::default()
    }
}

/// The move tree as `<ply>:<destination>`, branches in brackets.
fn shape(moves: &[MoveFormat], first_ply: usize) -> String {
    moves
        .iter()
        .enumerate()
        .map(|(i, mf)| {
            let ply = first_ply + i;
            let head = mf
                .move_
                .map(|mv| format!("{ply}:{}{}", mv.to.x, mv.to.y))
                .unwrap_or_else(|| format!("{ply}:{:?}", mf.special));
            match &mf.forks {
                Some(forks) => {
                    let inner: Vec<_> = forks.iter().map(|f| shape(f, ply)).collect();
                    format!("{head}[{}]", inner.join("|"))
                }
                None => head,
            }
        })
        .collect::<Vec<_>>()
        .join(" ")
}

#[test]
fn disambiguation_does_not_depend_on_relative_field() {
    let src = "\
手合割：その他
後手の持駒：なし
  ９ ８ ７ ６ ５ ４ ３ ２ １
+---------------------------+
| ・ ・ 角 ・v玉 ・ 角 ・ ・|一
| ・ ・ ・ ・ ・ ・ ・ ・ ・|二
| ・ ・ ・ ・ ・ ・ ・ ・ ・|三
| ・ ・ ・ ・ ・ ・ ・ ・ ・|四
| ・ ・ ・ ・ ・ ・ ・ ・ ・|五
| ・ ・ ・ ・ ・ ・ ・ ・ ・|六
| ・ ・ ・ ・ ・ ・ ・ ・ ・|七
| ・ ・ ・ ・ ・ ・ ・ ・ ・|八
| ・ ・ ・ ・ 玉 ・ ・ ・ ・|九
+---------------------------+
先手の持駒：なし
先手番
手数----指手---------消費時間--
   1 ５三角成(71)   ( 0:00/00:00:00)
";
    let mut jkf = parse_kif_str(src).expect("parses");
    assert_eq!(None, jkf.moves[1].move_.expect("a move").relative, "the KIF path leaves `relative` empty");
    let ki2 = jkf.try_to_ki2_owned().expect("writes KI2");
    assert!(ki2.contains("▲５三角左成"), "expected a disambiguated move, got {ki2:?}");
    jkf.populate_relative().expect("populates");
    assert!(jkf.try_to_ki2_owned().expect("writes KI2").contains("▲５三角左成"));
}

#[test]
fn outcome_survives_a_ki2_round_trip() {
    for (word, want, phrase) in [
        ("投了", MoveSpecial::SpecialToryo, "まで2手で後手の勝ち"),
        ("千日手", MoveSpecial::SpecialSennichite, "まで2手で千日手"),
        ("切れ負け", MoveSpecial::SpecialTimeUp, "まで2手で時間切れにより後手の勝ち"),
        ("反則負け", MoveSpecial::SpecialIllegalMove, "まで2手で先手の反則負け"),
        ("反則勝ち", MoveSpecial::SpecialIllegalActionWhite, "まで2手で先手の反則勝ち"),
        ("持将棋", MoveSpecial::SpecialJishogi, "まで2手で持将棋"),
        ("入玉勝ち", MoveSpecial::SpecialKachi, "まで2手で先手の入玉勝ち"),
        ("詰み", MoveSpecial::SpecialTsumi, "まで2手で詰み"),
        ("不詰", MoveSpecial::SpecialFuzumi, "まで2手で不詰"),
    ] {
        let kif = format!("手合割：平手\n手数----指手---------消費時間--\n   1 ７六歩(77)\n   2 ３四歩(33)\n   3 {word}\n");
        let jkf = parse_kif_str(&kif).unwrap_or_else(|e| panic!("failed to parse {word}: {e:?}"));
        assert_eq!(Some(want), jkf.moves.last().and_then(|mf| mf.special), "reading {word}");
        let ki2 = jkf.try_to_ki2_owned().expect("writes KI2");
        assert!(ki2.contains(phrase), "{word} wrote {ki2:?}");
        let back = parse_ki2_str(&ki2).unwrap_or_else(|e| panic!("failed to read back {word}: {e:?}"));
        assert_eq!(Some(want), back.moves.last().and_then(|mf| mf.special), "round trip for {word}");
    }
}

#[test]
fn branches_survive_a_ki2_round_trip() {
    let kif = "手合割：平手
手数----指手---------消費時間--
   1 ７六歩(77)
   2 ３四歩(33)
   3 ２六歩(27)
   4 投了

変化：3手
   3 ７八金(69)

変化：2手
   2 ８四歩(83)
   3 ２六歩(27)

変化：2手
   2 ４四歩(43)
";
    let jkf = parse_kif_str(kif).expect("parses");
    let ki2 = jkf.try_to_ki2_owned().expect("writes KI2");
    assert_eq!(3, ki2.lines().filter(|l| l.starts_with("変化：")).count(), "every branch gets a block: {ki2:?}");
    let back = parse_ki2_str(&ki2).expect("reads back");
    assert_eq!(shape(&jkf.moves[1..], 1), shape(&back.moves[1..], 1));
}

#[test]
fn an_outcome_in_the_middle_does_not_swallow_the_moves_after_it() {
    let kif = "手合割：平手
手数----指手---------消費時間--
   1 ７六歩(77)
   2 中断
   3 ３四歩(33)
   4 ２六歩(27)
   5 投了
";
    let jkf = parse_kif_str(kif).expect("parses");
    let ki2 = jkf.try_to_ki2_owned().expect("writes KI2");
    let back = parse_ki2_str(&ki2).expect("reads back");
    assert_eq!(shape(&jkf.moves[1..], 1), shape(&back.moves[1..], 1), "wrote {ki2:?}");
}

#[test]
fn a_handicap_names_the_right_side_at_the_outcome() {
    for (handicap, first_move, want) in [
        ("平手", "７六歩(77)", "まで1手で先手の勝ち"),
        ("香落ち", "３四歩(33)", "まで1手で後手の勝ち"),
        ("四枚落ち", "３四歩(33)", "まで1手で後手の勝ち"),
    ] {
        let kif = format!("手合割：{handicap}\n手数----指手---------消費時間--\n   1 {first_move}\n   2 投了\n");
        let jkf = parse_kif_str(&kif).unwrap_or_else(|e| panic!("failed to parse {handicap}: {e:?}"));
        let ki2 = jkf.try_to_ki2_owned().expect("writes KI2");
        assert!(ki2.contains(want), "{handicap} wrote {ki2:?}");
        let back = parse_ki2_str(&ki2).unwrap_or_else(|e| panic!("failed to read back {handicap}: {e:?}"));
        assert_eq!(Some(MoveSpecial::SpecialToryo), back.moves.last().and_then(|mf| mf.special), "round trip for {handicap}");
    }
}

#[test]
fn both_directions_of_a_foul_win_survive_a_ki2_round_trip() {
    for (special, phrase) in [
        (MoveSpecial::SpecialIllegalActionBlack, "まで2手で後手の反則勝ち"),
        (MoveSpecial::SpecialIllegalActionWhite, "まで2手で先手の反則勝ち"),
    ] {
        let jkf = JsonKifuFormat {
            initial: Some(Initial { preset: Preset::PresetHirate, data: None }),
            moves: vec![
                MoveFormat::default(),
                black_pawn_7g7f(),
                white_pawn_3c3d(),
                MoveFormat { special: Some(special), ..Default::default() },
            ],
            ..Default::default()
        };
        let ki2 = jkf.try_to_ki2_owned().expect("writes KI2");
        assert!(ki2.contains(phrase), "{special:?} wrote {ki2:?}");
        let back = parse_ki2_str(&ki2).unwrap_or_else(|e| panic!("failed to read back {special:?}: {e:?}"));
        assert_eq!(Some(special), back.moves.last().and_then(|mf| mf.special), "round trip for {special:?}");
    }
}

#[test]
fn ki2_a_comment_only_node_does_not_consume_a_ply() {
    let jkf = JsonKifuFormat {
        initial: Some(Initial { preset: Preset::PresetHirate, data: None }),
        moves: vec![
            MoveFormat::default(),
            black_pawn_7g7f(),
            MoveFormat { comments: Some(vec!["ここで長考".to_owned()]), ..Default::default() },
            MoveFormat {
                forks: Some(vec![vec![MoveFormat {
                    move_: Some(MoveMoveFormat {
                        color: Color::White,
                        from: Some(PlaceFormat { x: 8, y: 3 }),
                        to: PlaceFormat { x: 8, y: 4 },
                        piece: Kind::FU,
                        same: None,
                        promote: None,
                        capture: None,
                        relative: None,
                    }),
                    ..Default::default()
                }]]),
                ..white_pawn_3c3d()
            },
            MoveFormat { special: Some(MoveSpecial::SpecialToryo), ..Default::default() },
        ],
        ..Default::default()
    };
    let ki2 = jkf.try_to_ki2_owned().expect("writes KI2");
    assert!(ki2.contains("まで2手で後手の勝ち"), "{ki2:?}");
    assert!(ki2.contains("変化：2手"), "{ki2:?}");
    let back = parse_ki2_str(&ki2).expect("reads back");
    assert_eq!("1:76 2:34[2:84] 3:Some(SpecialToryo)", shape(&back.moves[1..], 1), "{ki2:?}");
    assert!(
        back.moves.iter().any(|mf| mf.comments.as_ref() == Some(&vec!["ここで長考".to_owned()])),
        "the comment survives: {:?}",
        back.moves
    );
}

#[test]
fn a_mid_list_outcome_consumes_a_ply() {
    let jkf = parse_kif_str(
        "手合割：平手
手数----指手---------消費時間--
   1 ７六歩(77)
   2 中断
   3 ３四歩(33)
   4 ２六歩(27)

変化：4手
   4 ８四歩(83)
",
    )
    .expect("parses");
    let ki2 = jkf.try_to_ki2_owned().expect("writes KI2");
    assert!(ki2.contains("変化：4手"), "{ki2:?}");
    let back = parse_ki2_str(&ki2).expect("reads back");
    assert_eq!("1:76 2:Some(SpecialChudan) 3:34 4:26[4:84]", shape(&back.moves[1..], 1), "{ki2:?}");
}

#[test]
fn ki2_spells_each_rule_the_way_the_notation_says() {
    const OTHER: &str = "手合割：その他\n後手の持駒：なし\n  ９ ８ ７ ６ ５ ４ ３ ２ １\n+---------------------------+\n";
    let board = |rows: [&str; 9], hands: &str, side: &str, mv: &str| {
        format!(
            "{OTHER}{}+---------------------------+\n先手の持駒：{hands}\n{side}\n手数----指手---------消費時間--\n{mv}",
            rows.iter()
                .zip(["一", "二", "三", "四", "五", "六", "七", "八", "九"])
                .map(|(row, rank)| format!("{row}|{rank}\n"))
                .collect::<String>()
        )
    };
    const EMPTY: &str = "| ・ ・ ・ ・ ・ ・ ・ ・ ・";
    let same = "手合割：平手\n手数----指手---------消費時間--\n   1 ７六歩(77)\n   2 ３四歩(33)\n   3 ２二角成(88)\n   4 同　銀(31)\n".to_owned();
    let unpromoted = board(
        ["|v玉 ・ ・ ・ ・ ・ ・ ・ ・", EMPTY, "| ・ ・ ・ ・ ・ ・ 銀 ・ ・", EMPTY, EMPTY, EMPTY, EMPTY, EMPTY, "| 玉 ・ ・ ・ ・ ・ ・ ・ ・"],
        "なし",
        "先手番",
        "   1 ３二銀(33)\n",
    );
    let drop = board(
        ["|v玉 ・ ・ ・ ・ ・ ・ ・ ・", EMPTY, EMPTY, EMPTY, EMPTY, EMPTY, EMPTY, EMPTY, "| 玉 ・ ・ ・ ・ ・ ・ ・ ・"],
        "角",
        "先手番",
        "   1 ４五角打\n",
    );
    let gote = board(
        ["|v玉 ・ ・v金 ・v金 ・ ・ ・", EMPTY, EMPTY, EMPTY, EMPTY, EMPTY, EMPTY, EMPTY, "| 玉 ・ ・ ・ ・ ・ ・ ・ ・"],
        "なし",
        "後手番",
        "   1 ５二金(41)\n",
    );
    for (kif, want) in [
        (&same, "▲７六歩 △３四歩 ▲２二角成 △同銀"),
        (&unpromoted, "▲３二銀不成"),
        (&drop, "▲４五角"),
        (&gote, "△５二金左"),
    ] {
        let ki2 = parse_kif_str(kif)
            .unwrap_or_else(|e| panic!("{kif}\n{e:?}"))
            .try_to_ki2_owned()
            .expect("writes KI2");
        assert!(ki2.lines().any(|line| line == want), "expected {want:?} in {ki2:?}");
    }
}

#[test]
fn a_branch_inside_a_branch_is_spelled_from_its_own_position() {
    let kif = "手合割：平手
手数----指手---------消費時間--
   1 ７六歩(77)
   2 ３四歩(33)
   3 ７八金(69)
   4 ８四歩(83)

変化：2手
   2 ８四歩(83)
   3 ６八金(69)
   4 ８五歩(84)
   5 ５八金(49)

変化：5手
   5 ５八金(68)
";
    let jkf = parse_kif_str(kif).expect("parses");
    let ki2 = jkf.try_to_ki2_owned().expect("writes KI2");
    assert!(ki2.contains("▲５八金上") && ki2.contains("▲５八金寄"), "both golds reach 5八 in the branch, so both need a suffix: {ki2:?}");
    let back = parse_ki2_str(&ki2).expect("reads back");
    assert_eq!(shape(&jkf.moves[1..], 1), shape(&back.moves[1..], 1));
}

#[test]
fn a_same_square_refusal_read_from_ki2_keeps_the_word_the_record_wrote() {
    let ki2 = "手合割：平手\n▲７六歩 △３四歩\nまで2手で中断\n▲９九角 △同銀不成\n";
    let jkf = parse_ki2_str(ki2).expect("parses");
    let written = jkf.try_to_ki2_owned().expect("writes KI2");
    assert!(written.contains("△同銀不成"), "{written:?}");
    let back = parse_ki2_str(&written).expect("reads back");
    assert_eq!(jkf, back, "{written:?}");
}

#[test]
fn a_header_value_that_quotes_moves_is_written_and_read_back() {
    let mut jkf = parse_ki2_str("手合割：平手\n▲７六歩 △３四歩\n").expect("parses");
    jkf.header.push(("note".to_owned(), "序盤は▲７六歩 △３四歩 の出だし".to_owned()));
    let ki2 = jkf.try_to_ki2_owned().expect("writes KI2");
    let back = parse_ki2_str(&ki2).expect("reads its own file back");
    assert_eq!(2, back.moves.len() - 1, "{ki2}");
    assert_eq!(jkf.header, back.header, "{ki2}");
}

#[test]
fn to_ki2_names_the_starting_position_of_an_empty_record() {
    let ki2 = JsonKifuFormat::default().try_to_ki2_owned().expect("writes KI2");
    assert_eq!("手合割：平手\n", ki2);
    let back = parse_ki2_str(&ki2).expect("reads back");
    assert_eq!(1, back.moves.len(), "the slot, and no move");
    assert_eq!(Some(Preset::PresetHirate), back.initial.map(|i| i.preset));
}

fn one_move_kif(hands: &str, extra: &str, mv: &str) -> String {
    format!(
        "手合割：その他
後手の持駒：なし
  ９ ８ ７ ６ ５ ４ ３ ２ １
+---------------------------+
|v玉 ・ ・ ・ ・ ・ ・ ・ ・|一
| ・ ・ ・ ・ ・ ・ ・ ・ ・|二
| ・ ・ ・ ・ ・ ・{extra} ・ ・|三
| ・ ・ ・ ・ ・ ・ ・ ・ ・|四
| ・ ・ ・ ・ ・ ・ ・ ・ ・|五
| ・ ・ ・ ・ ・ ・ ・ ・ ・|六
| ・ ・ ・ ・ ・ ・ ・ ・ ・|七
| ・ ・ ・ ・ ・ ・ ・ ・ ・|八
| 玉 ・ ・ ・ ・ ・ ・ ・ ・|九
+---------------------------+
先手の持駒：{hands}
先手番
手数----指手---------消費時間--
   1 {mv}
"
    )
}

#[test]
fn kif_marks_every_drop_and_never_writes_the_word_for_declining() {
    let jkf = parse_kif_str(&one_move_kif("角", " ・", "４五角打")).expect("parses");
    let kif = jkf.try_to_kif_owned().expect("writes KIF");
    assert!(kif.contains("４五角打"), "{kif:?}");
    assert_eq!(1, parse_kif_str(&kif).expect("reads back").moves.len() - 1, "the drop survives: {kif:?}");
    let jkf = parse_kif_str(&one_move_kif("なし", " 銀", "３二銀(33)")).expect("parses");
    assert_eq!(Some(false), jkf.moves[1].move_.expect("a move").promote, "the move declines promotion");
    let kif = jkf.try_to_kif_owned().expect("writes KIF");
    assert!(!kif.contains("不成"), "{kif:?}");
    assert_eq!(1, parse_kif_str(&kif).expect("reads back").moves.len() - 1, "the move survives: {kif:?}");
    assert!(jkf.try_to_ki2_owned().expect("writes KI2").contains("▲３二銀不成"));
}

#[test]
fn kif_a_comment_only_node_does_not_consume_a_ply() {
    let jkf = JsonKifuFormat {
        initial: Some(Initial { preset: Preset::PresetHirate, data: None }),
        moves: vec![
            MoveFormat::default(),
            black_pawn_7g7f(),
            MoveFormat { comments: Some(vec!["ここで長考".to_string()]), ..Default::default() },
            MoveFormat {
                forks: Some(vec![vec![MoveFormat {
                    move_: Some(MoveMoveFormat {
                        color: Color::White,
                        from: Some(PlaceFormat { x: 8, y: 3 }),
                        to: PlaceFormat { x: 8, y: 4 },
                        piece: Kind::FU,
                        same: None,
                        promote: None,
                        capture: None,
                        relative: None,
                    }),
                    ..Default::default()
                }]]),
                ..white_pawn_3c3d()
            },
        ],
        ..Default::default()
    };
    let kif = jkf.try_to_kif_owned().expect("writes KIF");
    assert!(kif.contains("   2 ３四歩(33)") && kif.contains("変化：2手"), "the comment must not push 3四歩 to ply 3: {kif:?}");
    let back = parse_kif_str(&kif).expect("reads back");
    assert_eq!(1, back.moves.iter().filter_map(|mf| mf.forks.as_ref()).map(Vec::len).sum::<usize>(), "the branch survives: {kif:?}");
}

#[test]
fn a_header_value_never_breaks_the_header_block() {
    let jkf = JsonKifuFormat {
        header: vec![
            ("備考".to_owned(), "一行目\n二行目".to_owned()),
            ("棋戦".to_owned(), "テスト".to_owned()),
        ],
        initial: Some(Initial { preset: Preset::PresetHirate, data: None }),
        moves: vec![MoveFormat::default()],
    };
    let kif = jkf.try_to_kif_owned().expect("writes KIF");
    let back = parse_kif_str(&kif).expect("reads back");
    assert_eq!(
        Some(&"テスト".to_owned()),
        back.header.iter().find(|(k, _)| k == "棋戦").map(|(_, v)| v),
        "the header after the multi-line one survives: {kif:?}"
    );
    assert_eq!(2, back.header.len(), "{kif:?}");
}

#[test]
fn a_hand_is_written_with_its_count_and_reads_back() {
    let mut state = StateFormat {
        color: Color::Black,
        board: [[Piece { color: None, kind: None }; 9]; 9],
        hands: [Hand::default(); 2],
    };
    state.board[4][8] = Piece { color: Some(Color::Black), kind: Some(Kind::OU) };
    state.board[4][0] = Piece { color: Some(Color::White), kind: Some(Kind::OU) };
    state.hands[0] = Hand { FU: 18, KY: 1, KE: 10, GI: 2, KI: 0, KA: 0, HI: 0 };
    let jkf = JsonKifuFormat {
        initial: Some(Initial { preset: Preset::PresetOther, data: Some(state) }),
        moves: vec![MoveFormat::default()],
        ..Default::default()
    };
    let kif = jkf.try_to_kif_owned().expect("writes KIF");
    let line = kif.lines().find(|l| l.starts_with("先手の持駒：")).unwrap_or_else(|| panic!("no hand line in {kif:?}"));
    for want in ["歩十八", "香", "桂十", "銀二"] {
        assert!(line.contains(want), "{want} missing from {line:?}");
    }
    assert!(!line.contains("香一"), "1 is written bare: {line:?}");
    assert_eq!(jkf.initial, parse_kif_str(&kif).expect("reads back").initial, "{kif:?}");
}

const GOTE_TSUME: &str = "手合割：その他
後手の持駒：なし
  ９ ８ ７ ６ ５ ４ ３ ２ １
+---------------------------+
| ・ ・ ・ ・v玉 ・ ・ ・ ・|一
| ・ ・ ・ ・v飛 ・ ・ ・ ・|二
| ・ ・ ・ ・ ・ ・ ・ ・ ・|三
| ・ ・ ・ ・ ・ ・ ・ ・ ・|四
| ・ ・ ・ ・ ・ ・ ・ ・ ・|五
| ・ ・ ・ ・ ・ ・ ・ ・ ・|六
| ・ ・ ・ ・ ・ ・ ・ ・ ・|七
| ・ ・ ・ ・ ・ ・ ・ ・ ・|八
| ・ ・ ・ ・ 玉 ・ ・ ・ ・|九
+---------------------------+
先手の持駒：なし
後手番
手数----指手---------消費時間--
   1 ５三飛(52)   ( 0:00/00:00:00)
";

#[test]
fn side_to_move_survives_a_round_trip() {
    let jkf = parse_kif_str(GOTE_TSUME).expect("parses");
    let color = jkf.initial.and_then(|i| i.data).expect("a board").color;
    assert_eq!(Color::White, color);
    let kif = jkf.try_to_kif_owned().expect("writes KIF");
    assert!(kif.contains("後手番"), "no side to move in {kif:?}");
    let back = parse_kif_str(&kif).expect("reads back");
    assert_eq!(jkf.initial, back.initial);
    let ki2 = jkf.try_to_ki2_owned().expect("writes KI2");
    assert!(ki2.contains("後手番"), "no side to move in {ki2:?}");
    let back = parse_ki2_str(&ki2).expect("reads back");
    assert_eq!(jkf.initial, back.initial);
    let mut black_to_move = parse_kif_str(GOTE_TSUME).expect("parses");
    black_to_move.moves = vec![MoveFormat::default()];
    if let Some(data) = black_to_move.initial.as_mut().and_then(|i| i.data.as_mut()) {
        data.color = Color::Black;
    }
    let kif = black_to_move.try_to_kif_owned().expect("writes KIF");
    let ki2 = black_to_move.try_to_ki2_owned().expect("writes KI2");
    for text in [&kif, &ki2] {
        assert!(!text.contains("後手番"), "a Black-to-move board must not say 後手番: {text:?}");
    }
    assert_eq!(black_to_move.initial, parse_kif_str(&kif).expect("reads back").initial);
    assert_eq!(black_to_move.initial, parse_ki2_str(&ki2).expect("reads back").initial);
}

#[test]
fn every_handicap_round_trips() {
    for handicap in shogi_kifu_converter::handicap::handicaps() {
        let src = format!("手合割：{}\n手数----指手---------消費時間--\n", handicap.kif_name);
        let jkf = parse_kif_str(&src).unwrap_or_else(|e| panic!("{}: {e:?}", handicap.kif_name));
        assert_eq!(handicap.preset, jkf.initial.expect("an initial position").preset, "reading {}", handicap.kif_name);
        let kif = jkf.try_to_kif_owned().expect("writes KIF");
        let ki2 = jkf.try_to_ki2_owned().expect("writes KI2");
        let csa = jkf.try_to_csa_owned().expect("writes CSA");
        assert!(handicap.preset == Preset::PresetHirate || ki2.contains(handicap.kif_name), "{} missing from {ki2:?}", handicap.kif_name);
        assert_eq!(jkf.initial, parse_ki2_str(&ki2).unwrap_or_else(|e| panic!("{}: {e:?}", handicap.kif_name)).initial, "KI2 round trip {}", handicap.kif_name);
        assert!(kif.contains(handicap.kif_name), "{} missing from {kif:?}", handicap.kif_name);
        let expected_pi: String = std::iter::once("PI".to_owned())
            .chain(handicap.removed.iter().map(|&(file, rank, kind)| format!("{file}{rank}{kind:?}")))
            .collect();
        assert!(csa.lines().any(|l| l == expected_pi), "{} expected {expected_pi:?} in {csa:?}", handicap.kif_name);
        let back = parse_kif_str(&kif).unwrap_or_else(|e| panic!("{}: {e:?}", handicap.kif_name));
        assert_eq!(jkf.initial, back.initial, "round trip {}", handicap.kif_name);
    }
}

#[test]
fn the_csa_preset_block_states_the_side_to_move() {
    for handicap in shogi_kifu_converter::handicap::handicaps() {
        let src = format!("手合割：{}\n手数----指手---------消費時間--\n", handicap.kif_name);
        let jkf = parse_kif_str(&src).unwrap_or_else(|e| panic!("{}: {e:?}", handicap.kif_name));
        let csa = jkf.try_to_csa_owned().expect("writes CSA");
        let want = if handicap.preset == Preset::PresetHirate { "+" } else { "-" };
        assert!(csa.lines().any(|l| l == want), "{} expected a {want:?} line in {csa:?}", handicap.kif_name);
    }
}

#[test]
fn an_arbitrary_position_takes_its_side_to_move_from_the_board() {
    const BOARD: &str = "後手の持駒：なし
  ９ ８ ７ ６ ５ ４ ３ ２ １
+---------------------------+
| ・ ・ ・ ・v玉 ・ ・ ・ ・|一
| ・ ・ ・ ・ ・ ・ ・ ・ ・|二
| ・ ・ ・ ・ ・ ・ ・ ・ ・|三
| ・ ・ ・ ・ ・ ・ ・ ・ ・|四
| ・ ・ ・ ・ ・ ・ ・ ・ ・|五
| ・ ・ ・ ・ ・ ・ ・ ・ ・|六
| ・ ・ ・ 歩 ・ ・ ・ ・ ・|七
| ・ ・ ・ ・ ・ ・ ・ ・ ・|八
| ・ ・ ・ ・ 玉 ・ ・ ・ ・|九
+---------------------------+
先手の持駒：なし
";
    let kif = format!("手合割：その他\n{BOARD}先手番\n手数----指手---------消費時間--\n   1 ６六歩(67)\n   2 反則勝ち\n");
    assert_eq!(
        Some(MoveSpecial::SpecialIllegalActionBlack),
        parse_kif_str(&kif).expect("parses KIF").moves.last().and_then(|mf| mf.special),
        "KIF"
    );
    let ki2 = format!("手合割：その他\n{BOARD}先手番\n▲６六歩\nまで1手で反則勝ち\n");
    assert_eq!(
        Some(MoveSpecial::SpecialIllegalActionBlack),
        parse_ki2_str(&ki2).expect("parses KI2").moves.last().and_then(|mf| mf.special),
        "KI2"
    );
}

#[test]
fn a_horse_on_the_destination_file_still_takes_a_left_or_right() {
    let kif = "手合割：その他
後手の持駒：なし
  ９ ８ ７ ６ ５ ４ ３ ２ １
+---------------------------+
| ・ ・ ・ ・v玉 ・ ・ ・ ・|一
| ・ ・ ・ ・ ・ ・ ・ ・ ・|二
| ・ ・ ・ ・ 馬 馬 ・ ・ ・|三
| ・ ・ ・ ・ ・ ・ ・ ・ ・|四
| ・ ・ ・ ・ ・ ・ ・ ・ ・|五
| ・ ・ ・ ・ ・ ・ ・ ・ ・|六
| ・ ・ ・ ・ ・ ・ ・ ・ ・|七
| ・ ・ ・ ・ ・ ・ ・ ・ ・|八
| ・ ・ ・ ・ 玉 ・ ・ ・ ・|九
+---------------------------+
先手の持駒：なし
先手番
手数----指手---------消費時間--
   1 ４四馬(43)
";
    let jkf = parse_kif_str(kif).expect("parses");
    let ki2 = jkf.to_ki2_owned();
    assert!(ki2.contains("▲４四馬右"), "wrote {ki2:?}");
    let back = parse_ki2_str(&ki2).expect("reads back");
    assert_eq!(Some(PlaceFormat { x: 4, y: 3 }), back.moves[1].move_.expect("a move").from);
}

fn ambiguous_bishop_kif(mv: &str) -> String {
    format!(
        "手合割：その他
後手の持駒：なし
  ９ ８ ７ ６ ５ ４ ３ ２ １
+---------------------------+
| ・ ・ 角 ・v玉 ・ 角 ・ ・|一
| ・ ・ ・ ・ ・ ・ ・ ・ ・|二
| ・ ・ ・ ・ ・ ・ ・ ・ ・|三
| ・ ・ ・ ・ ・ ・ ・ ・ ・|四
| ・ ・ ・ ・ ・ ・ ・ ・ ・|五
| ・ ・ ・ ・ ・ ・ ・ ・ ・|六
| ・ ・ ・ ・ ・ ・ ・ ・ ・|七
| ・ ・ ・ ・ ・ ・ ・ ・ ・|八
| ・ ・ ・ ・ 玉 ・ ・ ・ ・|九
+---------------------------+
先手の持駒：なし
先手番
手数----指手---------消費時間--
   1 {mv}   ( 0:00/00:00:00)
"
    )
}

#[test]
fn relative_survives_promotion_suffix() {
    for (mv, want) in [
        ("５三角成(71)", Relative::L),
        ("５三角成(31)", Relative::R),
        ("５三角(71)", Relative::L),
        ("５三角(31)", Relative::R),
    ] {
        let src = ambiguous_bishop_kif(mv);
        let mut jkf = parse_kif_str(&src).unwrap_or_else(|e| panic!("failed to parse {mv}: {e:?}"));
        jkf.populate_relative().unwrap_or_else(|e| panic!("failed to populate {mv}: {e:?}"));
        assert_eq!(Some(want), jkf.moves[1].move_.expect("a move").relative, "relative for {mv}");
    }
}
