use shogi_kifu_converter::converter::csa::ToCsa;
use shogi_kifu_converter::converter::ki2::ToKi2;
use shogi_kifu_converter::converter::kif::ToKif;
use shogi_kifu_converter::error::ParseError;
use shogi_kifu_converter::jkf::{
    Color, Hand, Initial, JsonKifuFormat, Kind, MoveFormat, MoveMoveFormat, MoveSpecial, Piece,
    PlaceFormat, Preset, Relative, StateFormat,
};
use shogi_kifu_converter::parser::csa_text::chars_of;
use shogi_kifu_converter::parser::ki2::ki2_move_at;
use shogi_kifu_converter::parser::kakinoki::move_time_format;
use shogi_kifu_converter::jkf::TimeFormat;
use shogi_kifu_converter::parser::{parse_csa_str, parse_ki2_str, parse_kif_str};

/// What a reader's error says.
fn text(e: ParseError) -> String {
    match e {
        ParseError::Kif(m) | ParseError::Ki2(m) => m,
        other => format!("{other:?}"),
    }
}

/// The error, and the line number it names.
fn refusal(err: ParseError, line: usize) -> String {
    let t = text(err);
    assert!(
        t.contains(&format!("at line {line}")),
        "expected the error to point at line {line}: {t}"
    );
    t
}

fn pawn(color: Color, fx: u8, fy: u8, tx: u8, ty: u8) -> MoveFormat {
    MoveFormat {
        move_: Some(MoveMoveFormat {
            color,
            from: Some(PlaceFormat { x: fx, y: fy }),
            to: PlaceFormat { x: tx, y: ty },
            piece: Kind::FU,
            same: None,
            promote: None,
            capture: None,
            relative: None,
        }),
        ..Default::default()
    }
}

struct Row {
    special: MoveSpecial,
    kif_word: &'static str,
    csa_word: &'static str,
    ki2_phrase: &'static str,
    after_kif: MoveSpecial,
    after_ki2: MoveSpecial,
    after_csa: Option<MoveSpecial>,
}

fn read_back(
    text: &str,
    read: fn(&str) -> Result<JsonKifuFormat, ParseError>,
    what: &str,
) -> (usize, Option<MoveSpecial>) {
    let jkf = read(text).unwrap_or_else(|e| panic!("{what} does not read back: {e:?}"));
    let moves = jkf.moves.iter().filter(|mf| mf.move_.is_some()).count();
    (moves, jkf.moves.last().and_then(|mf| mf.special))
}

#[test]
fn every_outcome_has_the_word_each_format_writes() {
    let table = [
        Row { special: MoveSpecial::SpecialToryo, kif_word: "投了", csa_word: "%TORYO", ki2_phrase: "後手の勝ち", after_kif: MoveSpecial::SpecialToryo, after_ki2: MoveSpecial::SpecialToryo, after_csa: Some(MoveSpecial::SpecialToryo) },
        Row { special: MoveSpecial::SpecialChudan, kif_word: "中断", csa_word: "%CHUDAN", ki2_phrase: "中断", after_kif: MoveSpecial::SpecialChudan, after_ki2: MoveSpecial::SpecialChudan, after_csa: Some(MoveSpecial::SpecialChudan) },
        Row { special: MoveSpecial::SpecialSennichite, kif_word: "千日手", csa_word: "%SENNICHITE", ki2_phrase: "千日手", after_kif: MoveSpecial::SpecialSennichite, after_ki2: MoveSpecial::SpecialSennichite, after_csa: Some(MoveSpecial::SpecialSennichite) },
        Row { special: MoveSpecial::SpecialTimeUp, kif_word: "切れ負け", csa_word: "%TIME_UP", ki2_phrase: "時間切れにより後手の勝ち", after_kif: MoveSpecial::SpecialTimeUp, after_ki2: MoveSpecial::SpecialTimeUp, after_csa: None },
        Row { special: MoveSpecial::SpecialIllegalMove, kif_word: "反則負け", csa_word: "%ILLEGAL_MOVE", ki2_phrase: "先手の反則負け", after_kif: MoveSpecial::SpecialIllegalMove, after_ki2: MoveSpecial::SpecialIllegalMove, after_csa: None },
        Row { special: MoveSpecial::SpecialIllegalActionBlack, kif_word: "反則勝ち", csa_word: "%+ILLEGAL_ACTION", ki2_phrase: "後手の反則勝ち", after_kif: MoveSpecial::SpecialIllegalActionWhite, after_ki2: MoveSpecial::SpecialIllegalActionBlack, after_csa: None },
        Row { special: MoveSpecial::SpecialIllegalActionWhite, kif_word: "反則勝ち", csa_word: "%-ILLEGAL_ACTION", ki2_phrase: "先手の反則勝ち", after_kif: MoveSpecial::SpecialIllegalActionWhite, after_ki2: MoveSpecial::SpecialIllegalActionWhite, after_csa: None },
        Row { special: MoveSpecial::SpecialJishogi, kif_word: "持将棋", csa_word: "%JISHOGI", ki2_phrase: "持将棋", after_kif: MoveSpecial::SpecialJishogi, after_ki2: MoveSpecial::SpecialJishogi, after_csa: Some(MoveSpecial::SpecialJishogi) },
        Row { special: MoveSpecial::SpecialKachi, kif_word: "入玉勝ち", csa_word: "%KACHI", ki2_phrase: "先手の入玉勝ち", after_kif: MoveSpecial::SpecialKachi, after_ki2: MoveSpecial::SpecialKachi, after_csa: Some(MoveSpecial::SpecialKachi) },
        Row { special: MoveSpecial::SpecialHikiwake, kif_word: "持将棋", csa_word: "%HIKIWAKE", ki2_phrase: "持将棋", after_kif: MoveSpecial::SpecialJishogi, after_ki2: MoveSpecial::SpecialJishogi, after_csa: Some(MoveSpecial::SpecialHikiwake) },
        Row { special: MoveSpecial::SpecialMatta, kif_word: "中断", csa_word: "%MATTA", ki2_phrase: "中断", after_kif: MoveSpecial::SpecialChudan, after_ki2: MoveSpecial::SpecialChudan, after_csa: Some(MoveSpecial::SpecialMatta) },
        Row { special: MoveSpecial::SpecialTsumi, kif_word: "詰み", csa_word: "%TSUMI", ki2_phrase: "詰み", after_kif: MoveSpecial::SpecialTsumi, after_ki2: MoveSpecial::SpecialTsumi, after_csa: Some(MoveSpecial::SpecialTsumi) },
        Row { special: MoveSpecial::SpecialFuzumi, kif_word: "不詰", csa_word: "%FUZUMI", ki2_phrase: "不詰", after_kif: MoveSpecial::SpecialFuzumi, after_ki2: MoveSpecial::SpecialFuzumi, after_csa: Some(MoveSpecial::SpecialFuzumi) },
        Row { special: MoveSpecial::SpecialError, kif_word: "中断", csa_word: "%ERROR", ki2_phrase: "中断", after_kif: MoveSpecial::SpecialChudan, after_ki2: MoveSpecial::SpecialChudan, after_csa: Some(MoveSpecial::SpecialError) },
    ];
    for row in table {
        let special = row.special;
        let jkf = JsonKifuFormat {
            initial: Some(Initial { preset: Preset::PresetHirate, data: None }),
            moves: vec![
                MoveFormat::default(),
                pawn(Color::Black, 7, 7, 7, 6),
                pawn(Color::White, 3, 3, 3, 4),
                MoveFormat { special: Some(special), ..Default::default() },
            ],
            ..Default::default()
        };
        let kif = jkf.try_to_kif_owned().expect("writes KIF");
        assert!(kif.contains(&format!("   3 {}", row.kif_word)), "{special:?} in KIF: {kif:?}");
        let csa = jkf.try_to_csa_owned().expect("writes CSA");
        assert!(csa.lines().any(|l| l == row.csa_word), "{special:?} in CSA: {csa:?}");
        let ki2 = jkf.try_to_ki2_owned().expect("writes KI2");
        assert!(ki2.contains(&format!("まで2手で{}", row.ki2_phrase)), "{special:?} in KI2: {ki2:?}");
        assert_eq!((2, Some(row.after_kif)), read_back(&kif, parse_kif_str, "KIF"), "{special:?} through KIF");
        assert_eq!((2, Some(row.after_ki2)), read_back(&ki2, parse_ki2_str, "KI2"), "{special:?} through KI2");
        assert_eq!((2, row.after_csa), read_back(&csa, parse_csa_str, "CSA"), "{special:?} through CSA");
    }
}

#[test]
fn jkf_keeps_a_drop_a_drop() {
    let mut board = [[Piece { color: None, kind: None }; 9]; 9];
    let mut place = |x: usize, y: usize, color, kind| {
        board[x - 1][y - 1] = Piece { color: Some(color), kind: Some(kind) };
    };
    place(5, 1, Color::White, Kind::OU);
    place(5, 9, Color::Black, Kind::OU);
    place(8, 8, Color::White, Kind::KA);
    let mut hands = [Hand::default(); 2];
    hands[1].KA = 1;
    let mut jkf = JsonKifuFormat {
        header: Default::default(),
        initial: Some(Initial {
            preset: Preset::PresetOther,
            data: Some(StateFormat { color: Color::White, board, hands }),
        }),
        moves: vec![
            MoveFormat::default(),
            MoveFormat {
                move_: Some(MoveMoveFormat {
                    color: Color::White,
                    from: None,
                    to: PlaceFormat { x: 5, y: 5 },
                    piece: Kind::KA,
                    same: None,
                    promote: None,
                    capture: None,
                    relative: None,
                }),
                ..Default::default()
            },
        ],
    };
    assert_eq!(Ok(()), jkf.normalize());
    let m = jkf.moves[1].move_.expect("a move");
    assert_eq!(None, m.from, "the drop stays a drop");
    assert_eq!(Kind::KA, m.piece);
    assert_eq!(None, m.capture);
}

#[test]
fn a_record_the_reader_stops_in_the_middle_of_is_an_error() {
    const HEAD: &str = "手合割：平手\n手数----指手---------消費時間--\n";
    for (tail, line, word) in [
        ("   1 ７六歩(77)\n   2 パス\n   3 ２六歩(27)\n", 4, "パス"),
        ("   1 ７六歩(77)\n▲２六歩\n   2 ３四歩(33)\n", 4, "▲２六歩"),
        ("   1 ７六歩(77)\n   2 ほげ\n", 4, "ほげ"),
    ] {
        let err = parse_kif_str(&format!("{HEAD}{tail}")).expect_err("the word should stop the reader");
        let t = text(err);
        assert!(t.contains(word), "{word} is missing from {t:?}");
        assert!(t.contains(&format!("at line {line}")), "{word} should point at line {line}: {t:?}");
    }
}

#[test]
fn a_line_that_lost_its_ending_is_an_error_not_a_shorter_record() {
    const KIF: &str = "手合割：平手
手数----指手---------消費時間--
   1 ７六歩(77)   ( 0:01/00:00:01)
   2 ３四歩(33)   ( 0:01/00:00:02)
   3 ２二角成(88)   ( 0:01/00:00:03)
";
    assert_eq!(3, parse_kif_str(KIF).expect("parses").moves.len() - 1);
    for byte in [" ", "\u{0}", ",", "x"] {
        let joined = KIF.replace("00:00:02)\n", &format!("00:00:02){byte}"));
        let err = parse_kif_str(&joined).expect_err("the joined line is an error");
        refusal(err, 4);
    }
    let with_branch = format!("{KIF}\n変化：3手\n   3 ８八銀(79)   ( 0:01/00:00:03)\n");
    assert!(parse_kif_str(&with_branch).expect("parses").moves[3].forks.is_some());
    let err = parse_kif_str(&with_branch.replace("変化：3手\n", "変化：3手 "))
        .expect_err("the joined header is an error");
    refusal(err, 7);
    const KI2: &str = "手合割：平手\n▲７六歩 △３四歩 ▲２二角成\n";
    assert_eq!(3, parse_ki2_str(KI2).expect("parses").moves.len() - 1);
    let err = parse_ki2_str(&KI2.replace("平手\n", "平手 ")).expect_err("an error");
    refusal(err, 1);
    for tail in ["△８四歩", "まで1手で中断"] {
        let joined = format!("手合割：平手\n▲７六歩 △３四歩\n\n変化：2手 {tail}\n");
        let err = parse_ki2_str(&joined).expect_err("the joined header is an error");
        refusal(err, 4);
    }
}

#[test]
fn a_header_that_names_moves_is_only_suspect_as_a_run_in_ki2() {
    for header in ["戦型：▲２六歩から", "消費時間：104▲379△380"] {
        let kif = format!("手合割：平手\n{header}\n手数----指手---------消費時間--\n   1 ７六歩(77)\n");
        assert_eq!(1, parse_kif_str(&kif).expect("parses").moves.len() - 1, "{header}");
        let ki2 = format!("手合割：平手\n{header}\n▲７六歩 △３四歩\n");
        assert_eq!(2, parse_ki2_str(&ki2).expect("parses").moves.len() - 1, "{header}");
    }
    let err = parse_ki2_str("手合割：平手 ▲７六歩 △３四歩\n").expect_err("an error");
    refusal(err, 1);
}

#[test]
fn a_branch_header_with_nothing_under_it_is_an_error() {
    const KIF: &str = "手合割：平手
手数----指手---------消費時間--
   1 ７六歩(77)
   2 ３四歩(33)
";
    for (gap, line) in [("\n", 6), ("", 5)] {
        let err = parse_kif_str(&format!("{KIF}{gap}変化：2手\n")).expect_err("an error");
        let t = refusal(err, line);
        assert!(t.contains("変化"), "the error points at the header itself: {t}");
    }
    let err = parse_kif_str(&format!("{KIF}\n変化：2手\n   2 パス\n")).expect_err("an error");
    let t = refusal(err, 7);
    assert!(t.contains("パス"), "the error names the word: {t}");
}

#[test]
fn an_annotation_after_a_move_is_still_skipped() {
    let kif = "手合割：平手
手数----指手---------消費時間--
   1 ７六歩(77)   ( 0:01/00:00:01)+
   2 ３四歩(33)   ( 0:01/00:00:02)!?
";
    assert_eq!(2, parse_kif_str(kif).expect("parses").moves.len() - 1);
}

#[test]
fn a_file_that_is_not_a_kifu_is_an_error_not_an_empty_record() {
    for src in [
        "これは棋譜ではないただの塊",
        "これは棋譜ではない\nただの文章だ\n",
        "{\"header\":{},\"moves\":[{}]}\n",
        "V2.2\nPI\n+\n+7776FU\n",
    ] {
        assert!(parse_kif_str(src).is_err(), "{src:?} came back as a record");
        assert!(parse_ki2_str(src).is_err(), "{src:?} came back as a record");
    }
}

#[test]
fn a_kifu_with_nothing_but_a_header_is_still_a_kifu() {
    for src in [
        "手合割：平手\n",
        "手合割：平手\n手数----指手---------消費時間--\n",
        "先手：Aさん\n",
        "*ひとこと\n",
        "",
        "  \n\n",
    ] {
        let jkf = parse_kif_str(src).unwrap_or_else(|e| panic!("{src:?}: {e:?}"));
        assert_eq!(0, jkf.moves.len() - 1, "{src:?}");
    }
}

#[test]
fn the_lines_a_record_ends_with_are_not_leftover_input() {
    const RECORD: &str =
        "手合割：平手\n手数----指手---------消費時間--\n   1 ７六歩(77)\n   2 ３四歩(33)\n";
    for tail in [
        "",
        "まで2手で中断\n",
        "まで2手で中断",
        "\n\n",
        "変化：2\n   2 ８四歩(83)\n",
        "まで2手で中断\n感想：良い将棋\n",
        "解説A\n解説B\n",
    ] {
        let jkf = parse_kif_str(&format!("{RECORD}{tail}"))
            .unwrap_or_else(|e| panic!("{tail:?} was rejected: {e:?}"));
        assert_eq!(2, jkf.moves.len() - 1, "{tail:?}");
    }
}

#[test]
fn a_ki2_record_the_reader_stops_in_the_middle_of_is_an_error() {
    for (src, word) in [
        ("手合割：平手\n▲７六歩 ほげ △三四歩\n", "ほげ"),
        ("手合割：平手\n▲７六歩\nほげほげ △３四歩\n", "ほげほげ"),
        ("手合割：平手\n▲７六歩\n   2 ３四歩(33)\n", "３四歩(33)"),
    ] {
        let err = parse_ki2_str(src).expect_err("the word should stop the reader");
        let t = text(err);
        assert!(t.contains(word), "{word} is missing from {t}");
    }
}

#[test]
fn single_move_reads_relative_before_promotion() {
    for (input, relative, promote) in [
        ("▲５四角右成", Some(Relative::R), Some(true)),
        ("▲５四角左不成", Some(Relative::L), Some(false)),
        ("▲３三銀右上成", Some(Relative::RU), Some(true)),
        ("▲５四角成", None, Some(true)),
        ("▲５四角右", Some(Relative::R), None),
        ("▲５四角", None, None),
        ("▲５四角行", Some(Relative::U), None),
        ("▲５四角生", None, Some(false)),
    ] {
        let chars = chars_of(input);
        let (mv, end) = ki2_move_at(&chars, 0).unwrap_or_else(|| panic!("{input}"));
        assert_eq!(chars.len(), end, "unconsumed input for {input}");
        assert_eq!(relative, mv.relative, "relative for {input}");
        assert_eq!(promote, mv.promote, "promote for {input}");
    }
}

#[test]
fn the_specification_example_reads_every_move() {
    let ki2 = "開始日時：1999/04/08
終了日時：1999/04/09
棋戦：第５７期名人戦７番勝負 第１局
戦型：横歩取り
先手：谷川浩司 九段
後手：佐藤康光 名人

▲７六歩 △３四歩 ▲２六歩 △８四歩 ▲２五歩
△８五歩

▲７八金 △３二金 ▲２四歩 △同　歩 ▲同　飛
△８六歩
";
    let jkf = parse_ki2_str(ki2).expect("parses");
    let moves = jkf.moves[1..].iter().filter(|mf| mf.move_.is_some()).count();
    assert_eq!(12, moves, "read {moves} of 12: {:?}", jkf.moves);
}

#[test]
fn an_indented_run_of_moves_is_read() {
    let ki2 = "▲７六歩 △３四歩\n  ▲２六歩 △８四歩\n";
    let jkf = parse_ki2_str(ki2).expect("parses");
    let moves = jkf.moves[1..].iter().filter(|mf| mf.move_.is_some()).count();
    assert_eq!(4, moves, "read {moves} of 4: {:?}", jkf.moves);
}

#[test]
fn a_branch_may_open_with_a_comment() {
    let ki2 = "▲７六歩 △３四歩

変化：2手
*この分岐の狙い
△８四歩

変化：2手
△４四歩
";
    let jkf = parse_ki2_str(ki2).expect("parses");
    let forks = jkf.moves[2].forks.as_ref().expect("branches at ply 2");
    assert_eq!(2, forks.len(), "both blocks survive: {:?}", jkf.moves);
    assert_eq!(Some(&vec!["この分岐の狙い".to_owned()]), forks[0][0].comments.as_ref(), "the comment is kept");
}

#[test]
fn an_unreadable_outcome_line_is_an_error_not_a_silent_truncation() {
    for phrase in ["持将棋成立", "先手の不戦敗", "中座", "引き分け"] {
        let ki2 = format!("▲７六歩 △３四歩\nまで2手で{phrase}\n\n変化：2手\n△８四歩\n\n変化：1手\n▲２六歩\n");
        let err = parse_ki2_str(&ki2).err().unwrap_or_else(|| panic!("{phrase} was accepted"));
        assert!(matches!(err, ParseError::Ki2(_)), "{phrase} gave {err:?}");
        let t = text(err);
        assert!(t.contains(phrase), "{phrase} is missing from {t:?}");
        assert!(t.contains("at line 2"), "{phrase} should point at line 2: {t:?}");
    }
}

#[test]
fn a_comment_only_node_does_not_shift_the_outcome_ply() {
    const KI2: &str = "手合割：平手
▲７六歩 △３四歩
まで2手で中断

変化：2手
*このあとは
△８四歩
まで2手で反則勝ち
";
    let jkf = parse_ki2_str(KI2).expect("parses");
    let branch = &jkf.moves[2].forks.as_ref().expect("a branch at ply 2")[0];
    assert_eq!(3, branch.len(), "comment node, move, outcome: {branch:?}");
    assert_eq!(Some(vec![String::from("このあとは")]), branch[0].comments);
    assert_eq!(Some(MoveSpecial::SpecialIllegalActionWhite), branch[2].special);
    let written = jkf.try_to_ki2_owned().expect("writes KI2");
    let back = parse_ki2_str(&written).expect("reads back");
    assert_eq!(jkf, back, "{written:?}");
}

#[test]
fn a_line_the_reader_has_a_shape_for_is_never_skipped() {
    const MOVES: &str = "手合割：平手\n▲７六歩 △３四歩\n";
    for before in ["# Kifu for Windows V7.30\n", "感想戦\n", "\n"] {
        let jkf = parse_ki2_str(&format!("{MOVES}{before}まで2手で投了\n"))
            .unwrap_or_else(|e| panic!("{before:?}: {e:?}"));
        assert!(jkf.moves.last().expect("a node").special.is_some(), "{before:?}: the outcome is gone");
    }
    for header in ["変化：２手", "変化： 2手"] {
        for block in ["▲２六歩\n", "まで2手で投了\n"] {
            assert!(
                parse_ki2_str(&format!("{MOVES}{header}\n{block}")).is_err(),
                "{header:?} + {block:?}: skipped, and what it said went with it"
            );
        }
    }
}

#[test]
fn padding_after_the_outcome_word_is_padding_whichever_space_it_is() {
    for pad in [' ', '\t', '　', '\u{a0}', '\u{2009}', '\u{b}', '\u{c}'] {
        assert!(shogi_kifu_converter::notation::is_padding(pad), "{pad:?}");
        for src in [
            format!("手合割：平手\n▲７六歩 △３四歩\nまで2手で投了{pad}\n"),
            format!("手合割：平手\n▲７六歩 △３四歩\nまで2手で{pad}投了\n"),
        ] {
            let jkf = parse_ki2_str(&src).unwrap_or_else(|e| panic!("{src:?}: {e:?}"));
            assert!(jkf.moves.last().expect("a node").special.is_some(), "{src:?}: the outcome is gone");
        }
    }
}

#[test]
fn a_note_after_an_outcome_or_a_branch_header_is_a_note() {
    const MOVES: &str = "手合割：平手\n▲７六歩 △３四歩\n";
    for line in [
        "まで2手で投了 △８四歩が最善だった\n",
        "まで2手で投了　△３三桂が敗着\n",
        "まで2手で投了 惜しい将棋だった\n",
    ] {
        let jkf = parse_ki2_str(&format!("{MOVES}{line}")).unwrap_or_else(|e| panic!("{line:?}: {e:?}"));
        assert!(jkf.moves.last().expect("a node").special.is_some(), "{line:?}: refused, or the outcome is gone");
    }
    let jkf = parse_ki2_str("手合割：平手\n▲７六歩 △３四歩\n変化：2手 △８四歩から\n△８四歩\n")
        .expect("a branch header takes a note too");
    assert!(jkf.moves[2].forks.is_some(), "{:?}", jkf.moves);
    for line in [
        "まで1手で中断 △３四歩\n",
        "まで2手で投了 ▲７六歩 △３四歩\n",
        "まで2手で投了 変化：2手\n△８四歩\n",
        "まで2手で投了 *感想\n",
    ] {
        assert!(parse_ki2_str(&format!("{MOVES}{line}")).is_err(), "{line:?} was read as a note, and what it held is gone");
    }
}

#[test]
fn a_header_value_holding_a_whole_game_is_read_in_one_pass() {
    let mut src = String::from("手合割：平手 ");
    for i in 0..3200 {
        src.push_str(if i % 2 == 0 { "▲７六歩 " } else { "△３四歩 " });
    }
    src.push_str("まで3200手で投了\n");
    let started = std::time::Instant::now();
    let read = parse_ki2_str(&src);
    let took = started.elapsed();
    assert!(read.is_ok(), "{:?}", read.err());
    assert!(took < std::time::Duration::from_secs(1), "{took:?}");
}

#[test]
fn ki2_skips_the_same_lines_kif_does_and_no_more() {
    for (src, moves) in [
        ("手合割：平手\n▲７六歩 △３四歩\n感想：良い将棋\n", 2),
        ("手合割：平手\n▲７六歩 △３四歩\nまで2手で中断\n感想：良い\n", 3),
        ("手合割：平手\n▲７六歩\n# メモ\n△３四歩\n", 2),
        ("手合割：平手\n▲７六歩 △３四歩\n解説A\n解説B\n", 2),
        ("手合割：平手\n▲７六歩\n変化：ここから\n△３四歩\n", 2),
    ] {
        let jkf = parse_ki2_str(src).unwrap_or_else(|e| panic!("{src:?}: {e:?}"));
        assert_eq!(moves, jkf.moves.len() - 1, "{src:?}");
    }
    for src in ["手合割：平手\n▲７六歩 ほげ △３四歩\n", "手合割：平手\n▲７六歩\nほげ △３四歩\n"] {
        assert!(parse_ki2_str(src).is_err(), "{src:?} lost a move in silence");
    }
    let jkf = parse_ki2_str("手合割：平手\n▲７六歩 △３四歩\n解説A\n\n変化：2手\n△８四歩\n").expect("parses");
    assert!(jkf.moves[2].forks.is_some(), "the branch after the prose is gone: {:?}", jkf.moves);
}

#[test]
fn a_handicap_names_the_right_side_at_a_foul_win() {
    for (handicap, first_move, want) in [
        ("平手", "７六歩(77)", MoveSpecial::SpecialIllegalActionBlack),
        ("香落ち", "３四歩(33)", MoveSpecial::SpecialIllegalActionWhite),
        ("四枚落ち", "３四歩(33)", MoveSpecial::SpecialIllegalActionWhite),
    ] {
        let kif = format!("手合割：{handicap}\n手数----指手---------消費時間--\n   1 {first_move}\n   2 反則勝ち\n");
        let jkf = parse_kif_str(&kif).unwrap_or_else(|e| panic!("{handicap}: {e:?}"));
        assert_eq!(Some(want), jkf.moves.last().and_then(|mf| mf.special), "reading {handicap}");
        let csa = jkf.try_to_csa_owned().expect("writes CSA");
        let sign = if want == MoveSpecial::SpecialIllegalActionBlack { "+" } else { "-" };
        assert!(csa.lines().any(|l| l == format!("%{sign}ILLEGAL_ACTION")), "{handicap} wrote {csa:?}");
    }
}

#[test]
fn an_outcome_in_the_middle_does_not_shift_the_turn() {
    let kif = "手合割：平手
手数----指手---------消費時間--
   1 ７六歩(77)
   2 中断
   3 ３四歩(33)
   4 反則勝ち
";
    let jkf = parse_kif_str(kif).expect("parses");
    assert_eq!(Color::White, jkf.moves[3].move_.expect("a move").color, "the move after 中断 is White's");
    assert_eq!(Some(MoveSpecial::SpecialIllegalActionWhite), jkf.moves.last().and_then(|mf| mf.special));
}

#[test]
fn kif_outcome_words_are_written_back() {
    let all = [
        MoveSpecial::SpecialToryo,
        MoveSpecial::SpecialChudan,
        MoveSpecial::SpecialSennichite,
        MoveSpecial::SpecialTimeUp,
        MoveSpecial::SpecialIllegalMove,
        MoveSpecial::SpecialIllegalActionBlack,
        MoveSpecial::SpecialIllegalActionWhite,
        MoveSpecial::SpecialJishogi,
        MoveSpecial::SpecialKachi,
        MoveSpecial::SpecialHikiwake,
        MoveSpecial::SpecialMatta,
        MoveSpecial::SpecialTsumi,
        MoveSpecial::SpecialFuzumi,
        MoveSpecial::SpecialError,
    ];
    for special in all {
        let Some(word) = special.kif_word() else {
            assert!(matches!(special, MoveSpecial::SpecialMatta | MoveSpecial::SpecialError), "{special:?} has no KIF word");
            continue;
        };
        let kif = format!("   1 ７六歩(77)\n   2 {word}\n");
        let got = parse_kif_str(&kif).ok().and_then(|j| j.moves.last().and_then(|mf| mf.special));
        assert!(got.is_some(), "{special:?} writes {word}, which cannot be read");
    }
}

#[test]
fn a_branch_numbered_past_the_end_carries_the_run_on() {
    let input = "手数----指手---------消費時間--
   1 ７六歩(77)    (00:00 / 00:00:00)
   2 ８四歩(83)    (00:00 / 00:00:00)

変化：2
   2 ８六歩(83)    (00:00 / 00:00:00)

変化：5
   5 投了 ( 0:00/ 0:00:00)
";
    let moves = parse_kif_str(input).expect("parses").moves;
    let forks = moves[2].forks.as_ref().expect("変化:2 should attach at index 2");
    assert_eq!(1, forks.len());
    assert_eq!(2, forks[0].len(), "変化:5 continues 変化:2 rather than vanishing");
    assert_eq!(Some(MoveSpecial::SpecialToryo), forks[0][1].special, "and it is the outcome it was");
}

#[test]
fn a_branch_numbered_past_the_main_line_carries_it_on() {
    let input = "手数----指手---------消費時間--
   1 ７六歩(77)    (00:00 / 00:00:00)

変化：9
   9 ３四歩(33)    (00:00 / 00:00:00)
";
    let moves = parse_kif_str(input).expect("parses").moves;
    assert_eq!(3, moves.len(), "index 0 plus two moves");
    assert!(moves.iter().all(|m| m.forks.is_none()), "nothing branched: {moves:?}");
}

#[test]
fn a_branch_can_open_with_a_comment_and_survives_a_kif_round_trip() {
    for opening in ["*このあとは", "&しおり"] {
        let ki2 = format!("手合割：平手\n▲７六歩 △３四歩\nまで2手で中断\n\n変化：2手\n{opening}\n△８四歩\nまで2手で反則勝ち\n");
        let jkf = parse_ki2_str(&ki2).unwrap_or_else(|e| panic!("{opening}: {e:?}"));
        let branch = &jkf.moves[2].forks.as_ref().unwrap_or_else(|| panic!("{opening}: no branch"))[0];
        assert_eq!(3, branch.len(), "{opening}: comment, move, outcome");
        let kif = jkf.try_to_kif_owned().unwrap_or_else(|e| panic!("{opening}: {e:?}"));
        let back = parse_kif_str(&kif).unwrap_or_else(|e| panic!("{opening}: this crate cannot read its own KIF: {e:?}\n{kif}"));
        assert_eq!(jkf, back, "{opening}: {kif:?}");
    }
}

#[test]
fn a_comment_node_does_not_shift_where_a_branch_attaches() {
    let kif = "手合割：平手
手数----指手---------消費時間--
   1 ７六歩(77)
   2 ３四歩(33)
   3 ２六歩(27)

変化：2
*このあとは
   2 ８四歩(83)
   3 ２六歩(27)

変化：3
   3 ７八金(69)
";
    let jkf = parse_kif_str(kif).expect("parses");
    let outer = &jkf.moves[2].forks.as_ref().expect("a branch at ply 2")[0];
    assert_eq!([false, true, true], [0, 1, 2].map(|i| outer[i].occupies_a_ply()), "comment node first, then plies 2 and 3: {outer:?}");
    assert!(outer[2].forks.is_some(), "the inner branch hangs off ply 3: {outer:?}");
}

#[test]
fn a_blank_or_program_comment_line_does_not_end_the_move_list() {
    const HEAD: &str = "手合割：平手\n手数----指手---------消費時間--\n   1 ７六歩(77)\n";
    const TAIL: &str = "   2 ３四歩(33)\n   3 ２六歩(27)\n";
    for middle in ["", "\n", "# メモ\n", "\n# メモ\n\n", "   \n"] {
        let jkf = parse_kif_str(&format!("{HEAD}{middle}{TAIL}")).unwrap_or_else(|e| panic!("{middle:?} was rejected: {e:?}"));
        assert_eq!(3, jkf.moves.len() - 1, "{middle:?}");
    }
}

#[test]
fn a_blank_line_still_lets_a_branch_start() {
    const HEAD: &str = "手合割：平手\n手数----指手---------消費時間--\n   1 ７六歩(77)\n   2 ３四歩(33)\n";
    const BRANCH: &str = "\n変化：2\n   2 ８四歩(83)\n";
    for (middle, main_line) in [("", 2), ("\n   3 ２六歩(27)\n", 3)] {
        let jkf = parse_kif_str(&format!("{HEAD}{middle}{BRANCH}")).unwrap_or_else(|e| panic!("{middle:?} was rejected: {e:?}"));
        assert_eq!(main_line, jkf.moves.len() - 1, "{middle:?}");
        let forks = jkf.moves[2].forks.as_ref().unwrap_or_else(|| panic!("no branch at ply 2 for {middle:?}"));
        assert_eq!(1, forks.len(), "{middle:?}");
        assert_eq!(1, forks[0].len(), "the branch holds its one move");
    }
}

#[test]
fn the_last_line_is_read_without_a_trailing_newline() {
    const HEAD: &str = "手合割：平手\n手数----指手---------消費時間--\n   1 ７六歩(77)\n";
    let moves = parse_kif_str(&format!("{HEAD}   2 ３四歩(33)")).expect("parses");
    assert_eq!(2, moves.moves.len() - 1, "the second move is on the last line");
    let comment = parse_kif_str(&format!("{HEAD}*memo")).expect("parses");
    assert_eq!(Some(&vec![String::from("memo")]), comment.moves[1].comments.as_ref(), "the comment is on the last line");
    let outcome = parse_kif_str(&format!("{HEAD}   2 投了")).expect("parses");
    assert_eq!(Some(MoveSpecial::SpecialToryo), outcome.moves[2].special, "the outcome is on the last line");
}

#[test]
fn a_ki2_move_names_its_piece_with_the_kif_word_for_a_dragon() {
    let ki2 = "手合割：平手\n▲７六歩 △３四歩 ▲２二角成 △同　銀\n";
    let jkf = parse_ki2_str(ki2).expect("parses");
    let written = jkf.try_to_ki2_owned().expect("writes KI2");
    assert!(written.contains("▲２二角成"), "{written}");
    let mut board = [[Piece { color: None, kind: None }; 9]; 9];
    board[4][0] = Piece { color: Some(Color::White), kind: Some(Kind::OU) };
    board[4][8] = Piece { color: Some(Color::Black), kind: Some(Kind::OU) };
    board[1][7] = Piece { color: Some(Color::Black), kind: Some(Kind::RY) };
    let with_dragon = JsonKifuFormat {
        header: Default::default(),
        initial: Some(Initial {
            preset: Preset::PresetOther,
            data: Some(StateFormat { color: Color::Black, board, hands: [Hand::default(); 2] }),
        }),
        moves: vec![
            MoveFormat::default(),
            MoveFormat {
                move_: Some(MoveMoveFormat {
                    color: Color::Black,
                    from: Some(PlaceFormat { x: 2, y: 8 }),
                    to: PlaceFormat { x: 2, y: 4 },
                    piece: Kind::RY,
                    same: None,
                    promote: None,
                    capture: None,
                    relative: None,
                }),
                ..Default::default()
            },
        ],
    };
    let ki2 = with_dragon.try_to_ki2_owned().expect("writes KI2");
    assert!(ki2.contains("▲２四龍"), "the dragon is 龍 as in KIF: {ki2}");
    assert!(!ki2.contains('竜'), "{ki2}");
}

#[test]
fn a_move_drawn_by_ki2_without_a_word_reads_back_its_origin_from_the_position() {
    let jkf = parse_ki2_str("手合割：平手\n▲７六歩 △３四歩 ▲２二角成 △同　銀 ▲４八銀\n").expect("parses");
    let m = jkf.moves[5].move_.expect("a move");
    assert_eq!(Some(PlaceFormat { x: 3, y: 9 }), m.from, "the silver came from 3九");
    assert_eq!(Kind::GI, m.piece);
    let captured = jkf.moves[4].move_.expect("a move");
    assert_eq!(Some(Kind::UM), captured.capture, "同　銀 took the horse");
    assert_eq!(PlaceFormat { x: 2, y: 2 }, captured.to);
}

#[test]
fn kif_parse_move_time_format() {
    assert!(move_time_format("").is_err());
    assert_eq!(Ok(("", TimeFormat { h: None, m: 0, s: 16 })), move_time_format("0:16"));
    assert_eq!(Ok(("", TimeFormat { h: Some(0), m: 0, s: 16 })), move_time_format("00:00:16"));
}

#[test]
fn a_move_line_written_the_wrong_way_is_reported_not_dropped() {
    const KIF: &str = "手合割：平手\n手数----指手---------消費時間--\n   1 ７六歩(77)\n   2 ８四歩(83)\n";
    const KI2: &str = "手合割：平手\n▲７六歩 △８四歩\n";
    let read = parse_kif_str(&format!("{KIF}3２二角不成(88)\n")).expect("不成 reads");
    assert_eq!(Some(false), read.moves[3].move_.as_ref().and_then(|mv| mv.promote), "不成 says the move did not promote");
    for line in ["3２二角成(８８)", "3２二角不成", "3２二角成"] {
        assert!(parse_kif_str(&format!("{KIF}{line}\n")).is_err(), "{line:?}");
        assert!(parse_kif_str(&format!("{KIF}   3 {}\n", &line[1..])).is_err(), "{line:?}, aligned");
        assert!(parse_ki2_str(&format!("{KI2}{line}\n")).is_err(), "{line:?}");
    }
    for note in ["2同銀と取れば", "2２六歩が本筋", "1同歩"] {
        assert!(parse_kif_str(&format!("{KIF}{note}\n")).is_ok(), "{note:?}");
        assert!(parse_ki2_str(&format!("{KI2}{note}\n")).is_ok(), "{note:?}");
    }
}

#[test]
fn a_kif_move_line_may_carry_the_mark_the_format_allows() {
    let marked = parse_kif_str("手合割：平手\n手数----指手---------消費時間--\n   1 ▲７六歩(77)\n   2 △３四歩(33)\n").expect("a marked record reads");
    let plain = parse_kif_str("手合割：平手\n手数----指手---------消費時間--\n   1 ７六歩(77)\n   2 ３四歩(33)\n").expect("reads");
    assert_eq!(plain, marked);
    assert!(parse_kif_str("手合割：平手\n手数----指手---------消費時間--\n1▲７六歩(77)\n").is_ok());
    let backwards = parse_kif_str("手合割：平手\n手数----指手---------消費時間--\n   1 △７六歩(77)\n   2 ▲３四歩(33)\n").expect("reads");
    assert_eq!(plain, backwards);
}

#[test]
fn a_digit_opens_a_move_line_only_when_a_move_follows_it() {
    const KIF: &str = "手合割：平手\n手数----指手---------消費時間--\n   1 ７六歩(77)\n   2 ８四歩(83)\n";
    const KI2: &str = "手合割：平手\n▲７六歩 △８四歩\n";
    for note in ["　1図以下、先手優勢", "　3手目は疑問", "\t35手目まで", " 1図以下", "55"] {
        let kif = parse_kif_str(&format!("{KIF}{note}\n")).unwrap_or_else(|e| panic!("{note:?} in a KIF: {e:?}"));
        assert_eq!(2, kif.moves.len() - 1, "{note:?}");
        let ki2 = parse_ki2_str(&format!("{KI2}{note}\n")).unwrap_or_else(|e| panic!("{note:?} in a KI2: {e:?}"));
        assert_eq!(2, ki2.moves.len() - 1, "{note:?}");
    }
    assert!(parse_ki2_str(&format!("{KI2}   3 ２六歩(27)\n")).is_err());
}

#[test]
fn a_mark_opens_a_line_from_wherever_the_line_starts() {
    const KIF: &str = "手合割：平手\n手数----指手---------消費時間--\n   1 ７六歩(77)\n";
    for pad in ["", " ", "\t", "　", "\u{a0}"] {
        assert!(parse_kif_str(&format!("{KIF}{pad}▲有利でした\n")).is_err(), "{pad:?}: a line opening with a mark was skipped");
        assert!(parse_ki2_str(&format!("手合割：平手\n▲７六歩\n{pad}△有利でした\n")).is_err(), "{pad:?}");
        assert!(parse_kif_str(&format!("{KIF}{pad}※▲２六歩が本筋\n")).is_ok(), "{pad:?}");
    }
}

#[test]
fn ki2_branches_at_one_ply_hang_on_its_node_in_the_order_written() {
    let ki2 = "手合割：平手\n▲７六歩 △３四歩\n\n変化：2手\n△８四歩\n\n変化：2手\n△４四歩\n";
    let jkf = parse_ki2_str(ki2).expect("reads");
    assert_eq!(jkf.moves.len(), 3);
    let forks = jkf.moves[2].forks.as_ref().expect("branches");
    assert_eq!(forks.len(), 2);
    assert_eq!(forks[0][0].move_.unwrap().to.x, 8);
    assert_eq!(forks[1][0].move_.unwrap().to.x, 4);
    assert!(jkf.moves[1].forks.is_none());
}

#[test]
fn a_ki2_branch_at_a_ply_the_line_does_not_reach_changes_nothing() {
    let ki2 = "手合割：平手\n▲７六歩 △３四歩\n\n変化：5手\n▲２六歩\n";
    let jkf = parse_ki2_str(ki2).expect("reads");
    assert_eq!(jkf.moves.len(), 3);
    assert!(jkf.moves.iter().all(|m| m.forks.is_none()));
}
