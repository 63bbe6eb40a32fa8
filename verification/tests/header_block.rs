use shogi_kifu_converter::handicap::hirate_board;
use shogi_kifu_converter::jkf::{Color, Hand, Initial, MoveFormat, Preset};
use shogi_kifu_converter::parser::header_block::{
    comment_line, comments_on_the_starting_position, information_line_hands, information_line_keyvalue, information_line_preset,
    information_value_hand, informations, merged_hands, not_move_line, parse_without_moves,
    Information, InformationData, LineFault, Refusal,
};
use shogi_kifu_converter::parser::kakinoki::{BoardFault, LineShapes};

const BOARD: &str = "  ９ ８ ７ ６ ５ ４ ３ ２ １\n\
+---------------------------+\n\
|v香v桂v銀v金v玉v金v銀v桂v香|一\n\
| ・v飛 ・ ・ ・ ・ ・v角 ・|二\n\
|v歩v歩v歩v歩v歩v歩v歩v歩v歩|三\n\
| ・ ・ ・ ・ ・ ・ ・ ・ ・|四\n\
| ・ ・ ・ ・ ・ ・ ・ ・ ・|五\n\
| ・ ・ ・ ・ ・ ・ ・ ・ ・|六\n\
| 歩 歩 歩 歩 歩 歩 歩 歩 歩|七\n\
| ・ 角 ・ ・ ・ ・ ・ 飛 ・|八\n\
| 香 桂 銀 金 玉 金 銀 桂 香|九\n\
+---------------------------+\n";

fn empty_data() -> InformationData {
    InformationData {
        preset: None,
        hands: [Hand::empty(), Hand::empty()],
        map: vec![],
        comments: vec![],
    }
}

#[test]
fn parse_comment_line() {
    assert!(comment_line("").is_err());
    assert!(comment_line("not comment\n").is_err());
    assert_eq!(Ok(("", String::from(" comment"))), comment_line("# comment\n"));
    assert_eq!(Ok(("", String::from(" comment"))), comment_line("# comment"));
}

#[test]
fn parse_not_move_line() {
    assert!(not_move_line(false, "").is_err());
    assert!(not_move_line(false, "* comment line\n").is_err());
    assert!(not_move_line(false, "手数----指手---------消費時間--\n").is_ok());
    assert!(not_move_line(false, "1 ７六歩(77) ( 0:16/00:00:16)").is_err());
}

#[test]
fn a_skipped_line_never_swallows_the_line_after_it() {
    assert_eq!(
        Ok(("   2 ３四歩(33)\n", "変化：2")),
        not_move_line(false, "変化：2\n   2 ３四歩(33)\n")
    );
    assert!(not_move_line(false, "\n   2 ３四歩(33)\n").is_err());
    assert!(not_move_line(false, "\r\n   2 ３四歩(33)\n").is_err());
    assert!(not_move_line(false, "　\t \n   2 ３四歩(33)\n").is_err());
}

#[test]
fn a_frame_line_is_kept_only_while_a_board_could_follow() {
    assert!(not_move_line(true, "|先手|後手|\n").is_err());
    assert_eq!(Ok(("", "|先手|後手|")), not_move_line(false, "|先手|後手|\n"));
    assert!(not_move_line(true, "+123\n").is_err());
}

#[test]
fn parse_information_preset() {
    assert!(information_line_preset("").is_err());
    assert_eq!(
        Ok(("", Information::Preset(Preset::PresetHirate))),
        information_line_preset("手合割：平手　　\n")
    );
    assert_eq!(
        Ok(("", Information::Preset(Preset::PresetKY))),
        information_line_preset("手合割：香落ち\n")
    );
    assert_eq!(
        Ok(("", Information::Preset(Preset::PresetOther))),
        information_line_preset("手合割：その他\n")
    );
}

#[test]
fn parse_information_hand() {
    assert!(information_line_hands("").is_err());
    assert_eq!(
        Ok((
            "",
            Information::HandBlack(Hand {
                KE: 1,
                KI: 1,
                ..Default::default()
            })
        )),
        information_line_hands("先手の持駒：金　桂　\n")
    );
    assert_eq!(
        Ok((
            "",
            Information::HandWhite(Hand {
                FU: 15,
                KY: 2,
                KE: 3,
                GI: 2,
                KI: 3,
                KA: 1,
                HI: 0
            })
        )),
        information_line_hands("後手の持駒：角　金三　銀二　桂三　香二　歩十五　\n")
    );
    assert_eq!(
        Ok((
            "",
            Information::HandWhite(Hand {
                FU: 10,
                KY: 3,
                KE: 1,
                GI: 0,
                KI: 1,
                KA: 0,
                HI: 0
            })
        )),
        information_line_hands("後手の持駒：金　桂　香三　歩十　\n")
    );
    assert_eq!(
        Ok((
            "",
            Information::HandBlack(Hand {
                KA: 1,
                ..Default::default()
            })
        )),
        information_line_hands("下手の持駒：角　\n")
    );
}

#[test]
fn a_hand_line_that_cannot_be_read_is_broken() {
    assert_eq!(
        information_line_hands("先手の持駒：金　王\n"),
        Err(Refusal::Broken(0, LineFault::HandCannotBeRead))
    );
    assert_eq!(
        information_line_hands("先手の持駒：金 X\n"),
        Err(Refusal::Broken(0, LineFault::HandCannotBeRead))
    );
    assert_eq!(information_line_hands("先手：藤井\n"), Err(Refusal::NotThis));
}

#[test]
fn parse_information_keyvalue() {
    assert!(information_line_keyvalue(LineShapes::Kif, "").is_err());
    assert!(information_line_keyvalue(LineShapes::Kif, "# comment\n").is_err());
    assert_eq!(
        Ok((
            "",
            Information::KeyValue(String::from("key"), String::from("value at the end"))
        )),
        information_line_keyvalue(LineShapes::Kif, "key：value at the end")
    );
    assert_eq!(
        Ok(("", Information::KeyValue(String::from("key"), String::from("value")))),
        information_line_keyvalue(LineShapes::Kif, "key：value\n")
    );
    // A value that carries a KI2 line: the line under it was read as part of it.
    assert!(information_line_keyvalue(LineShapes::Ki2, "手合割：平手 ▲７六歩 △３四歩\n").is_err());
    assert!(information_line_keyvalue(LineShapes::Kif, "*（主催：新聞三社連合）\n").is_err());
    assert!(information_line_keyvalue(LineShapes::Kif, "&しおり：ここ\n").is_err());
}

#[test]
fn a_half_width_colon_splits_only_a_line_a_keyword_names() {
    assert_eq!(
        Ok(("", Information::KeyValue(String::from("手合割"), String::from("詰将棋")))),
        information_line_keyvalue(LineShapes::Kif, "手合割:詰将棋\n")
    );
    assert_eq!(
        information_line_keyvalue(LineShapes::Kif, "{\"header\": {}}\n"),
        Err(Refusal::NotThis)
    );
    assert_eq!(
        Ok(("", Information::KeyValue(String::from("備考:あり"), String::from("なし")))),
        information_line_keyvalue(LineShapes::Kif, "備考:あり：なし\n")
    );
    assert_eq!(
        Ok(("", Information::KeyValue(String::from("棋戦"), String::from("竜王戦")))),
        information_line_keyvalue(LineShapes::Kif, " 棋戦 ：竜王戦\n")
    );
}

#[test]
fn parse_informations() {
    assert_eq!(Ok(("", empty_data())), informations(LineShapes::Kif, ""));
    assert_eq!(
        Ok((
            "",
            InformationData {
                map: vec![(String::from("key"), String::from("value"))],
                ..empty_data()
            }
        )),
        informations(LineShapes::Kif, "# comment\n# comment：comment\nkey：value\n")
    );
}

#[test]
fn a_later_value_for_a_key_replaces_the_earlier_one() {
    let (_, data) =
        informations(LineShapes::Kif, "先手：山田\n*メモ\n後手：田中\n先手：佐藤\n").expect("reads");
    assert_eq!(
        data.map,
        vec![
            (String::from("先手"), String::from("佐藤")),
            (String::from("後手"), String::from("田中")),
        ]
    );
    assert_eq!(data.comments, vec![String::from("メモ")]);
}

#[test]
fn a_hand_that_overflows_a_u8_does_not_wrap() {
    let overflowing = "歩十八 ".repeat(15);
    assert!(
        information_value_hand(overflowing.trim_end()).is_err(),
        "a hand of 270 must not parse"
    );
    let (_, half) =
        information_value_hand("歩十八 歩十八 歩十八 歩十八 歩十八 歩十八 歩十八 歩十八")
            .expect("144 pawns parses");
    assert_eq!(144, half.FU);
    let merged = merged_hands([half, Hand::default()], [half, Hand::default()]);
    assert_eq!(u8::MAX, merged[0].FU);
}

#[test]
fn an_empty_hand_value_is_an_empty_hand() {
    for value in ["なし", "", " ", "　", "\t", " なし"] {
        assert_eq!(
            Ok(("\n", Hand::empty())),
            information_value_hand(&format!("{value}\n")).map(|(rest, h)| (rest, h)),
            "{value:?}"
        );
    }
}

#[test]
fn the_block_above_the_moves_gives_the_header_the_board_and_the_side() {
    let text = format!("棋戦：竜王戦\n後手の持駒：飛\n{BOARD}先手の持駒：金\n後手番\n   1 ７六歩(77)\n");
    let (rest, block) = parse_without_moves(LineShapes::Kif, &text).expect("reads");
    assert_eq!(rest, "   1 ７六歩(77)\n");
    assert_eq!(
        block.jkf.header,
        vec![(String::from("棋戦"), String::from("竜王戦"))]
    );
    let data = block.jkf.initial.expect("a position").data.expect("a board");
    assert_eq!(data.board, hirate_board());
    assert_eq!(data.color, Color::White);
    assert_eq!(data.hands[0].KI, 1);
    assert_eq!(data.hands[1].HI, 1);
    assert!(!block.a_board_could_follow);
    assert!(block.jkf.moves.is_empty());
}

#[test]
fn without_a_board_the_record_starts_from_the_handicap_it_names() {
    let (_, block) =
        parse_without_moves(LineShapes::Ki2, "手合割：香落ち\n*メモ\n▲７六歩\n").expect("reads");
    assert_eq!(
        block.jkf.initial,
        Some(Initial {
            preset: Preset::PresetKY,
            data: None
        })
    );
    assert_eq!(block.comments, vec![String::from("メモ")]);
    assert!(block.a_board_could_follow);
    let (_, block) = parse_without_moves(LineShapes::Kif, "").expect("reads");
    assert_eq!(
        block.jkf.initial,
        Some(Initial {
            preset: Preset::PresetHirate,
            data: None
        })
    );
}

#[test]
fn a_broken_line_in_the_block_is_an_error_with_where_it_is() {
    let text = "先手：山田\n  ９ ８ ７ ６ ５ ４ ３ ２ １\n+---------------------------+\n| ・|一\n";
    let at = "先手：山田\n  ９ ８ ７ ６ ５ ４ ３ ２ １\n+---------------------------+\n"
        .chars()
        .count();
    assert!(matches!(
        parse_without_moves(LineShapes::Kif, text),
        Err(Refusal::Broken(a, LineFault::Board(BoardFault::RankCannotBeRead))) if a == at
    ));
    assert!(matches!(
        parse_without_moves(LineShapes::Kif, "後手番*コメント\n"),
        Err(Refusal::Broken(0, LineFault::RunsIntoTheLineBelow))
    ));
}

#[test]
fn header_comments_go_in_front_of_the_first_nodes_own() {
    let mut moves = vec![
        MoveFormat {
            comments: Some(vec![String::from("E")]),
            ..MoveFormat::default()
        },
        MoveFormat::default(),
    ];
    comments_on_the_starting_position(vec![String::from("A"), String::from("B")], &mut moves);
    assert_eq!(
        Some(vec![String::from("A"), String::from("B"), String::from("E")]),
        moves[0].comments
    );
    assert_eq!(MoveFormat::default(), moves[1]);

    let mut bare = vec![MoveFormat::default()];
    comments_on_the_starting_position(vec![String::from("A")], &mut bare);
    assert_eq!(Some(vec![String::from("A")]), bare[0].comments);

    let mut untouched = vec![MoveFormat::default()];
    comments_on_the_starting_position(Vec::new(), &mut untouched);
    assert_eq!(vec![MoveFormat::default()], untouched);

    let mut empty: Vec<MoveFormat> = Vec::new();
    comments_on_the_starting_position(vec![String::from("A")], &mut empty);
    assert!(empty.is_empty());
}
