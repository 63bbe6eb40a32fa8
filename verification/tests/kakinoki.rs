use shogi_kifu_converter::handicap::hirate_board;
use shogi_kifu_converter::jkf::{Color, Kind, Piece, PlaceFormat, Time, TimeFormat};
use shogi_kifu_converter::notation::{is_padding, move_word};
use shogi_kifu_converter::parser::kakinoki::{
    an_empty_block_here_is_worth_reporting, begins_the_line_below, blank_line, board, board_piece,
    board_row, branch_header_ply, ends_a_word, move_time, move_time_format,
    numbered_line, opens_a_branch_header, opens_a_shared_line, piece_kind, BoardFault, BoardRefusal,
    LineShapes, NumberedBody, Verdict,
};

#[test]
fn parse_board() {
    assert_eq!(
        Ok(("", hirate_board())),
        board(
            &r#"
  ９ ８ ７ ６ ５ ４ ３ ２ １
+---------------------------+
|v香v桂v銀v金v玉v金v銀v桂v香|一
| ・v飛 ・ ・ ・ ・ ・v角 ・|二
|v歩v歩v歩v歩v歩v歩v歩v歩v歩|三
| ・ ・ ・ ・ ・ ・ ・ ・ ・|四
| ・ ・ ・ ・ ・ ・ ・ ・ ・|五
| ・ ・ ・ ・ ・ ・ ・ ・ ・|六
| 歩 歩 歩 歩 歩 歩 歩 歩 歩|七
| ・ 角 ・ ・ ・ ・ ・ 飛 ・|八
| 香 桂 銀 金 玉 金 銀 桂 香|九
+---------------------------+
"#[1..]
        )
    );
}

const HEAD: &str = "  ９ ８ ７ ６ ５ ４ ３ ２ １\n+---------------------------+\n";
const EMPTY_RANK: &str = "| ・ ・ ・ ・ ・ ・ ・ ・ ・|";
const FRAME: &str = "+---------------------------+";

fn ranks(n: usize) -> String {
    let numerals = ["一", "二", "三", "四", "五", "六", "七", "八", "九"];
    numerals[..n]
        .iter()
        .map(|r| format!("{EMPTY_RANK}{r}\n"))
        .collect()
}

#[test]
fn a_board_is_read_to_its_frame_and_no_further() {
    let text = format!("{HEAD}{}{FRAME}  \n後手番\n", ranks(9));
    let (rest, b) = board(&text).expect("reads");
    assert_eq!(rest, "後手番\n");
    assert!(b.iter().all(|file| file.iter().all(|p| p.kind.is_none())));
}

#[test]
fn a_broken_board_names_where_it_broke() {
    assert_eq!(board("手合割：平手\n"), Err(BoardRefusal::NotABoard));
    assert_eq!(board(&format!("{HEAD}")), Err(BoardRefusal::Broken(
        HEAD.chars().count(),
        BoardFault::EndsInsideTheBoard
    )));
    let text = format!("{HEAD}{}| ・ ・ ・|四\n", ranks(3));
    let at = HEAD.chars().count() + ranks(3).chars().count();
    assert_eq!(board(&text), Err(BoardRefusal::Broken(at, BoardFault::RankCannotBeRead)));
    let text = format!("{HEAD}{}まで\n", ranks(9));
    let at = HEAD.chars().count() + ranks(9).chars().count();
    assert_eq!(board(&text), Err(BoardRefusal::Broken(at, BoardFault::NoFrameUnder)));
}

#[test]
fn a_shared_shape_is_one_however_far_in_it_starts() {
    for pad in ["", " ", "　", "\t"] {
        for line in ["*コメント", "&しおり", "# メモ", "変化：2手", "まで2手で投了"] {
            assert!(
                opens_a_shared_line(&format!("{pad}{line}")),
                "{pad:?} + {line:?}"
            );
        }
    }
}

#[test]
fn every_branch_header_that_counts_as_one_can_be_read_as_one() {
    for (head, ply) in [
        ("変化：2手", 2),
        ("変化：２手", 2),
        ("変化： 2手", 2),
        ("変化：\t１２手", 12),
        ("変化：38", 38),
        ("変化：2000手", 2000),
        ("変化：18446744073709551615手", usize::MAX),
        ("変化：18446744073709551616手", usize::MAX),
        ("変化：99999999999999999999手", usize::MAX),
        ("変化：0手", 0),
        ("変化：０手", 0),
    ] {
        assert!(opens_a_branch_header(head), "{head:?}");
        let (rest, read) = branch_header_ply(head).unwrap_or_else(|e| panic!("{head:?}: {e:?}"));
        assert_eq!(ply, read, "{head:?}");
        assert!(rest.is_empty(), "{head:?} left {rest:?}");
    }
    for head in ["変化：ここから", "変化：", "変化：手", "変わり：2手"] {
        assert!(!opens_a_branch_header(head), "{head:?}");
        assert!(branch_header_ply(head).is_err(), "{head:?}");
    }
}

#[test]
fn what_counts_as_the_line_below() {
    for (shapes, tail) in [
        (LineShapes::Kif, "   5 ８八銀(79)   ( 0:01/00:00:05)"),
        (LineShapes::Kif, "\u{0}   5 ８八銀(79)"),
        (LineShapes::Kif, ",   5 ８八銀(79)"),
        (LineShapes::Kif, "\u{0}*コメント"),
        (LineShapes::Kif, ",&しおり"),
        (LineShapes::Kif, "\u{0}変化：2手"),
        (LineShapes::Kif, "x まで82手で先手の勝ち"),
        (LineShapes::Ki2, "\u{0}*コメント"),
        (LineShapes::Ki2, "\u{0}変化：2手"),
        (LineShapes::Kif, "*コメント"),
        (LineShapes::Kif, "&しおり"),
        (LineShapes::Kif, "# メモ"),
        (LineShapes::Kif, "変化：3手"),
        (LineShapes::Kif, "まで82手で先手の勝ち"),
        (LineShapes::Ki2, " ▲７六歩 △３四歩"),
        (LineShapes::Ki2, "△８四歩"),
        (LineShapes::Kif, "変化：２手"),
        (LineShapes::Ki2, "変化：２手"),
        (LineShapes::Kif, "変化： 2手"),
    ] {
        assert!(
            begins_the_line_below(shapes, tail),
            "{tail:?} is a line of its own"
        );
    }
    for (shapes, tail) in [
        (LineShapes::Kif, "+"),
        (LineShapes::Kif, "!?"),
        (LineShapes::Kif, " 評価値+120"),
        (LineShapes::Kif, "( 0:01)"),
        (LineShapes::Kif, "（ 0:01/00:00:01）"),
        (LineShapes::Kif, " 55"),
        (LineShapes::Kif, "　※好手"),
        (LineShapes::Kif, ""),
        (LineShapes::Kif, " ※▲２六歩が本筋"),
        (LineShapes::Kif, " （▲７六歩まで）"),
        (LineShapes::Kif, "（まで先手良し）"),
        (LineShapes::Kif, "※ 3 分の1"),
        (LineShapes::Kif, "[ 3 分]"),
        (LineShapes::Kif, "※ 12 手目からの変化"),
        (LineShapes::Ki2, "（△８四歩 ▲２六歩）"),
        (LineShapes::Ki2, " ※△８四歩の変化"),
        (LineShapes::Ki2, "（△８四歩）"),
        (LineShapes::Ki2, "▲有利"),
        (LineShapes::Kif, "　\n   2 ３四歩(33)\n"),
        (LineShapes::Kif, "\t\n*コメント\n"),
        (LineShapes::Kif, " \n変化：2手\n"),
        (LineShapes::Ki2, "　\n△８四歩\n"),
        (LineShapes::Ki2, " △８四歩が最善だった"),
        (LineShapes::Ki2, "　△３三桂が敗着"),
        (LineShapes::Ki2, " △８四歩から"),
        (LineShapes::Kif, "    変化：2手     ( 0:00/00:00:00)"),
        (LineShapes::Kif, "    変化：２手     ( 0:00/00:00:00)"),
        (LineShapes::Kif, " 変化：2手を参照"),
        (LineShapes::Ki2, " 変化：２手を参照"),
    ] {
        assert!(
            !begins_the_line_below(shapes, tail),
            "{tail:?} is an annotation, and dropping it loses nothing"
        );
    }
}

#[test]
fn padding_is_white_space_that_does_not_end_a_line() {
    for c in [' ', '\t', '\u{3000}', '\u{a0}'] {
        assert!(is_padding(c), "{c:?}");
    }
    for c in ['\n', '\r', 'a', '・'] {
        assert!(!is_padding(c), "{c:?}");
    }
}

#[test]
fn every_move_word_reads_back_as_the_piece_it_names() {
    for kind in [
        Kind::FU,
        Kind::KY,
        Kind::KE,
        Kind::GI,
        Kind::KI,
        Kind::KA,
        Kind::HI,
        Kind::OU,
        Kind::TO,
        Kind::NY,
        Kind::NK,
        Kind::NG,
        Kind::UM,
        Kind::RY,
    ] {
        let word = move_word(kind);
        let (rest, read) =
            piece_kind(word).unwrap_or_else(|e| panic!("{kind:?} spelled {word:?}: {e:?}"));
        assert_eq!(kind, read, "{word:?}");
        assert!(rest.is_empty(), "{word:?} left {rest:?}");
    }
}

#[test]
fn parse_piece_kind() {
    assert!(piece_kind("").is_err());
    assert_eq!(Ok(("", Kind::FU)), piece_kind("歩"));
    assert_eq!(Ok(("", Kind::OU)), piece_kind("玉"));
    assert_eq!(Ok(("", Kind::OU)), piece_kind("王"));
    assert_eq!(Ok(("", Kind::RY)), piece_kind("龍"));
    assert_eq!(Ok(("", Kind::RY)), piece_kind("竜"));
    assert_eq!(Ok(("", Kind::NY)), piece_kind("成香"));
    assert_eq!(Ok(("", Kind::NK)), piece_kind("成桂"));
    assert_eq!(Ok(("", Kind::NG)), piece_kind("成銀"));
    assert_eq!(Ok(("", Kind::NY)), piece_kind("杏"));
    assert_eq!(Ok(("", Kind::NK)), piece_kind("圭"));
    assert_eq!(Ok(("", Kind::NG)), piece_kind("全"));
}

#[test]
fn parse_board_piece() {
    assert!(board_piece("").is_err());
    assert_eq!(Ok(("", Piece::empty())), board_piece(" ・"));
    assert_eq!(
        Ok((
            "",
            Piece {
                color: Some(Color::Black),
                kind: Some(Kind::FU)
            }
        )),
        board_piece(" 歩")
    );
    assert_eq!(
        Ok((
            "",
            Piece {
                color: Some(Color::White),
                kind: Some(Kind::FU)
            }
        )),
        board_piece("v歩")
    );
}

#[test]
fn parse_board_row() {
    let hirate = hirate_board();
    let rows = (0..9)
        .map(|i| (0..9).map(|j| hirate[8 - j][i]).collect::<Vec<_>>())
        .collect::<Vec<_>>();
    assert_eq!(Ok(("", rows[0].clone())), board_row("|v香v桂v銀v金v玉v金v銀v桂v香|一\n"));
    assert_eq!(Ok(("", rows[1].clone())), board_row("| ・v飛 ・ ・ ・ ・ ・v角 ・|二\n"));
    assert_eq!(Ok(("", rows[2].clone())), board_row("|v歩v歩v歩v歩v歩v歩v歩v歩v歩|三\n"));
    assert_eq!(Ok(("", rows[3].clone())), board_row("| ・ ・ ・ ・ ・ ・ ・ ・ ・|四\n"));
    assert_eq!(Ok(("", rows[4].clone())), board_row("| ・ ・ ・ ・ ・ ・ ・ ・ ・|五\n"));
    assert_eq!(Ok(("", rows[5].clone())), board_row("| ・ ・ ・ ・ ・ ・ ・ ・ ・|六\n"));
    assert_eq!(Ok(("", rows[6].clone())), board_row("| 歩 歩 歩 歩 歩 歩 歩 歩 歩|七\n"));
    assert_eq!(Ok(("", rows[7].clone())), board_row("| ・ 角 ・ ・ ・ ・ ・ 飛 ・|八\n"));
    assert_eq!(Ok(("", rows[8].clone())), board_row("| 香 桂 銀 金 玉 金 銀 桂 香|九\n"));
}

#[test]
fn kakinoki_parse_move_time_format() {
    assert!(move_time_format("").is_err());
    assert_eq!(
        Ok((
            "",
            TimeFormat {
                h: None,
                m: 0,
                s: 16
            }
        )),
        move_time_format("0:16")
    );
    assert_eq!(
        Ok((
            "",
            TimeFormat {
                h: Some(0),
                m: 0,
                s: 16
            }
        )),
        move_time_format("00:00:16")
    );
}

#[test]
fn a_move_line_says_its_ply_its_move_and_its_time() {
    assert_eq!(
        Ok((
            "\n",
            (
                1,
                NumberedBody::Move {
                    to: Some(PlaceFormat { x: 7, y: 6 }),
                    piece: Kind::FU,
                    promote: None,
                    from: Some(PlaceFormat { x: 7, y: 7 }),
                },
                Some(Time {
                    now: TimeFormat { h: None, m: 0, s: 1 },
                    total: TimeFormat { h: Some(0), m: 0, s: 1 },
                }),
            )
        )),
        numbered_line("   1 ７六歩(77)   ( 0:01/00:00:01)\n")
    );
    assert_eq!(
        Ok(("", (2, NumberedBody::Outcome("投了"), None))),
        numbered_line("2 投了")
    );
    assert_eq!(
        Ok((
            "",
            (
                3,
                NumberedBody::Move {
                    to: None,
                    piece: Kind::KA,
                    promote: Some(true),
                    from: Some(PlaceFormat { x: 8, y: 8 }),
                },
                None,
            )
        )),
        numbered_line("3 同　角成(88)")
    );
    assert_eq!(
        Ok((
            "",
            (
                4,
                NumberedBody::Move {
                    to: Some(PlaceFormat { x: 5, y: 5 }),
                    piece: Kind::KA,
                    promote: None,
                    from: None,
                },
                None,
            )
        )),
        numbered_line("4 ▲５五角打")
    );
    // A bracketed origin that is no square, and a promotion word with no
    // origin after it, are broken move lines; a note is no move line at all.
    assert_eq!(Err(Verdict::Broken), numbered_line("1 ７六歩(00)"));
    assert_eq!(Err(Verdict::Broken), numbered_line("1 ７六歩成"));
    assert_eq!(Err(Verdict::NotThis), numbered_line("35手目まで"));
    assert_eq!(Err(Verdict::NotThis), numbered_line("2同銀と取れば"));
}

#[test]
fn a_time_is_two_readings_in_brackets() {
    assert_eq!(
        Ok((
            " rest",
            Time {
                now: TimeFormat { h: None, m: 1, s: 5 },
                total: TimeFormat { h: Some(1), m: 2, s: 3 },
            }
        )),
        move_time("( 1:05 / 1:02:03 ) rest")
    );
    assert!(move_time("( 1:05 )").is_err());
    assert!(move_time("1:05/1:02:03").is_err());
}

#[test]
fn a_blank_line_has_nothing_but_padding_on_it() {
    assert_eq!(Ok("next"), blank_line("\nnext"));
    assert_eq!(Ok("next"), blank_line(" \t　\r\nnext"));
    assert!(blank_line("").is_err());
    assert!(blank_line("   ").is_err());
    assert!(blank_line(" x\n").is_err());
}

#[test]
fn an_empty_branch_block_is_reported_only_where_the_header_is_a_word() {
    assert!(ends_a_word(' '));
    assert!(ends_a_word('　'));
    assert!(ends_a_word('\n'));
    assert!(ends_a_word('※'));
    assert!(!ends_a_word('手'));
    assert!(an_empty_block_here_is_worth_reporting("変化：3手"));
    assert!(an_empty_block_here_is_worth_reporting("変化：3手\n"));
    assert!(an_empty_block_here_is_worth_reporting("  変化:12 ※注"));
    assert!(!an_empty_block_here_is_worth_reporting("変化：3手目の別案"));
    assert!(!an_empty_block_here_is_worth_reporting("変化"));
}
