use rsshogi::records::formats::common::{
    board_map_to_sfen, csa_code_position, csa_piece_to_sfen, hand_counts_to_sfen, BoardMap, HandCounts,
};
use rsshogi::records::formats::csa::{
    base_piece, csa_header_fits, csa_initial_fits, csa_initial_sfen, csa_time_token_fits, decode_start_board, parse_piece_line, parse_row_lines, pi_line_board, row_lines_fit, CsaError,
};
use rsshogi::records::formats::csa_header::{csa_header_lines_fit, csa_lines, parse_csa_header};
use rsshogi::records::formats::kif_header::{
    kif_cell_piece, kif_diagram_sfen, parse_board_block, hand_pieces_fit, parse_hand_pieces, parse_record_header, record_header_fits, record_lines,
};
use rsshogi::records::formats::kif::{
    kif_header_line_fits, kif_terminal_line_fits, kif_time_line_fits, kif_move_line_fits, parse_kif_destination, parse_kif_move, parse_kif_terminal_record_from_line, KifError};
use rsshogi::records::record::SpecialMove;
use rsshogi::types::square::Square;
use rsshogi::types::{Color, GameResult};

const HIRATE_BOARD: &str = "lnsgkgsnl/1r5b1/ppppppppp/9/9/9/PPPPPPPPP/1B5R1/LNSGKGSNL";

fn strings(lines: &[&str]) -> Vec<String> {
    lines.iter().map(|s| s.to_string()).collect()
}

fn hirate_rows() -> Vec<String> {
    strings(&[
        "P1-KY-KE-GI-KI-OU-KI-GI-KE-KY",
        "P2 * -HI *  *  *  *  * -KA * ",
        "P3-FU-FU-FU-FU-FU-FU-FU-FU-FU",
        "P4 *  *  *  *  *  *  *  *  * ",
        "P5 *  *  *  *  *  *  *  *  * ",
        "P6 *  *  *  *  *  *  *  *  * ",
        "P7+FU+FU+FU+FU+FU+FU+FU+FU+FU",
        "P8 * +KA *  *  *  *  * +HI * ",
        "P9+KY+KE+GI+KI+OU+KI+GI+KE+KY",
    ])
}

#[test]
fn csa_piece_codes_map_to_sfen_letters() {
    assert_eq!(csa_piece_to_sfen("FU", '+'), Some("P".to_string()));
    assert_eq!(csa_piece_to_sfen("HI", '-'), Some("r".to_string()));
    assert_eq!(csa_piece_to_sfen("TO", '-'), Some("+p".to_string()));
    assert_eq!(csa_piece_to_sfen("RY", '+'), Some("+R".to_string()));
    assert_eq!(csa_piece_to_sfen("XX", '+'), None);
}

#[test]
fn promoted_codes_have_base_pieces() {
    assert_eq!(base_piece("RY"), "HI");
    assert_eq!(base_piece("TO"), "FU");
    assert_eq!(base_piece("OU"), "OU");
    assert_eq!(base_piece("ZZ"), "ZZ");
}

#[test]
fn board_map_reads_back_its_writes() {
    let mut board = BoardMap::new();
    assert_eq!(board.get(5, 9), None);
    board.insert(5, 9, '+', "OU".to_string());
    assert_eq!(board.get(5, 9), Some(('+', "OU")));
    assert_eq!(board.get(5, 1), None);
    board.insert(5, 9, '-', "KI".to_string());
    assert_eq!(board.get(5, 9), Some(('-', "KI")));
    board.remove(5, 9);
    assert_eq!(board.get(5, 9), None);
}

#[test]
fn board_map_sfen_of_start_and_empty_boards() {
    assert_eq!(board_map_to_sfen(&decode_start_board()), Ok(HIRATE_BOARD.to_string()));
    assert_eq!(board_map_to_sfen(&BoardMap::new()), Ok("9/9/9/9/9/9/9/9/9".to_string()));
    let mut board = BoardMap::new();
    board.insert(2, 1, '-', "OU".to_string());
    board.insert(9, 9, '+', "UM".to_string());
    assert_eq!(board_map_to_sfen(&board), Ok("7k1/9/9/9/9/9/9/9/+B8".to_string()));
}

#[test]
fn board_map_sfen_rejects_unknown_code() {
    let mut board = BoardMap::new();
    board.insert(1, 1, '+', "XX".to_string());
    assert_eq!(board_map_to_sfen(&board), Err("unknown piece code: XX".to_string()));
}

#[test]
fn hand_counts_sfen() {
    let mut hands = HandCounts::new();
    assert_eq!(hand_counts_to_sfen(&hands), Ok("-".to_string()));
    let fu = csa_code_position(&['F', 'U']).unwrap();
    let ka = csa_code_position(&['K', 'A']).unwrap();
    let to = csa_code_position(&['T', 'O']).unwrap();
    hands.add(false, fu, 2);
    hands.add(true, ka, 1);
    hands.add(true, to, 3);
    assert_eq!(hands.count(false, fu), 2);
    assert_eq!(hands.count(true, to), 3);
    assert_eq!(hand_counts_to_sfen(&hands), Ok("2Pb".to_string()));
    assert_eq!(csa_code_position(&['X', 'X']), None);
}

#[test]
fn piece_lines_split_into_entries() {
    assert_eq!(
        parse_piece_line("P+00FU 00KY"),
        Ok(vec![
            ('+', "00".to_string(), "FU".to_string()),
            ('+', "00".to_string(), "KY".to_string()),
        ])
    );
    assert_eq!(parse_piece_line("P-55KA"), Ok(vec![('-', "55".to_string(), "KA".to_string())]));
    assert_eq!(parse_piece_line("P+"), Ok(vec![]));
    assert_eq!(parse_piece_line("P+00F"), Err(CsaError::InvalidLine("P+00F".to_string())));
    assert_eq!(parse_piece_line("PX00FU"), Err(CsaError::InvalidLine("PX00FU".to_string())));
}

#[test]
fn row_lines_give_the_board() {
    let board = parse_row_lines(&hirate_rows()).unwrap();
    assert_eq!(board_map_to_sfen(&board), Ok(HIRATE_BOARD.to_string()));
    assert_eq!(board.get(5, 9), Some(('+', "OU")));
    assert_eq!(
        parse_row_lines(&strings(&["P1-KYX"])).err(),
        Some(CsaError::InvalidBoard("-KYX".to_string()))
    );
    assert_eq!(parse_row_lines(&strings(&["PX"])).err(), Some(CsaError::InvalidBoard("PX".to_string())));
}

#[test]
fn pi_line_removes_pieces_from_the_start_board() {
    let board = pi_line_board("PI82HI22KA").unwrap();
    assert_eq!(
        board_map_to_sfen(&board),
        Ok("lnsgkgsnl/9/ppppppppp/9/9/9/PPPPPPPPP/1B5R1/LNSGKGSNL".to_string())
    );
    let plain = pi_line_board("PI").unwrap();
    assert_eq!(board_map_to_sfen(&plain), Ok(HIRATE_BOARD.to_string()));
    assert_eq!(pi_line_board("PI82HI2").err(), Some(CsaError::InvalidBoard("PI82HI2".to_string())));
}

#[test]
fn initial_sfen_of_position_lines() {
    assert_eq!(csa_initial_sfen(&[], None), Ok(format!("{HIRATE_BOARD} b - 1")));
    assert_eq!(csa_initial_sfen(&strings(&["PI"]), Some('-')), Ok(format!("{HIRATE_BOARD} w - 1")));
    assert_eq!(csa_initial_sfen(&hirate_rows(), Some('+')), Ok(format!("{HIRATE_BOARD} b - 1")));
    let lines = strings(&["P1 *  *  *  *  *  *  * -OU * ", "P+00HI", "P-00AL"]);
    assert_eq!(
        csa_initial_sfen(&lines, Some('+')),
        Ok("7k1/9/9/9/9/9/9/9/9 b R9p2l2n2s2gbr 1".to_string())
    );
}

#[test]
fn initial_sfen_errors() {
    assert_eq!(
        csa_initial_sfen(&strings(&["P1-KYX"]), None),
        Err(CsaError::InvalidBoard("-KYX".to_string()))
    );
    assert_eq!(
        csa_initial_sfen(&strings(&["P+00F"]), None),
        Err(CsaError::InvalidLine("P+00F".to_string()))
    );
    assert_eq!(
        csa_initial_sfen(&strings(&["P1-XX"]), None),
        Err(CsaError::InvalidBoard("unknown piece code: XX".to_string()))
    );
}

#[test]
fn kif_destination_squares() {
    assert_eq!(parse_kif_destination("７六歩", None), Ok((Square(59), 6)));
    assert_eq!(parse_kif_destination("7六歩", None), Ok((Square(59), 4)));
    assert_eq!(parse_kif_destination("同　歩", Some(Square(40))), Ok((Square(40), 3)));
    assert_eq!(parse_kif_destination("同　歩", None), Err(KifError::InvalidMove("同　歩".to_string())));
    assert_eq!(parse_kif_destination("0六", None), Err(KifError::InvalidMove("0六".to_string())));
    assert_eq!(parse_kif_destination("", None), Err(KifError::InvalidMove(String::new())));
}

#[test]
fn kif_terminal_lines() {
    let (entry, elapsed) = parse_kif_terminal_record_from_line("  3 投了 ( 0:03/00:00:04)", Color::Black).unwrap();
    assert_eq!(*entry.kind(), SpecialMove::Resign);
    assert_eq!(entry.result(), GameResult::WhiteWin);
    assert_eq!(elapsed, Some(3000));
    let (entry, elapsed) = parse_kif_terminal_record_from_line("10 中断", Color::White).unwrap();
    assert_eq!(*entry.kind(), SpecialMove::Interrupt);
    assert_eq!(elapsed, None);
    assert!(parse_kif_terminal_record_from_line("投了 ( 0:03/00:00:04)", Color::Black).is_none());
    assert!(parse_kif_terminal_record_from_line("3投了", Color::Black).is_none());
}

fn bar_rows(first: &str, last: &str) -> Vec<String> {
    let empty = "| ・| ・| ・| ・| ・| ・| ・| ・| ・|";
    let mut lines = vec!["  ９ ８ ７ ６ ５ ４ ３ ２ １".to_string(), "+---------------------------+".to_string()];
    lines.push(format!("{first}一"));
    for rank in ["二", "三", "四", "五", "六", "七", "八"] {
        lines.push(format!("{empty}{rank}"));
    }
    lines.push(format!("{last}九"));
    lines.push("+---------------------------+".to_string());
    lines.push("先手の持駒：なし".to_string());
    lines
}

#[test]
fn kif_board_block_reads_bar_separated_cells() {
    let lines = bar_rows("|v香|v桂| ・| ・|v玉| ・| ・| ・|^飛|", "| 香| ・| ・| ・| 王| ・| ・| ・| ・|");
    let (next, board) = parse_board_block(&lines, 0).unwrap();
    assert_eq!(next, 12);
    assert_eq!(board.get(9, 1), Some(('-', "KY")));
    assert_eq!(board.get(1, 1), Some(('-', "HI")));
    assert_eq!(board.get(5, 9), Some(('+', "OU")));
    assert_eq!(board_map_to_sfen(&board), Ok("ln2k3r/9/9/9/9/9/9/9/L3K4".to_string()));
    let mut hands = HandCounts::new();
    hands.set_side(false, &parse_hand_pieces("歩二"));
    assert_eq!(
        kif_diagram_sfen(&board, &hands, Some('-')),
        Some(Ok("ln2k3r/9/9/9/9/9/9/9/L3K4 w 2P 1".to_string()))
    );
}

#[test]
fn kif_board_block_without_inner_bars_reads_no_piece() {
    let row = "|v香v桂v銀v金v玉v金v銀v桂v香|";
    let lines = bar_rows(row, "| 香 桂 銀 金 玉 金 銀 桂 香|");
    let (next, board) = parse_board_block(&lines, 0).unwrap();
    assert_eq!(next, 12);
    assert!(board.is_empty());
    assert_eq!(kif_diagram_sfen(&board, &HandCounts::new(), None), None);
}

#[test]
fn kif_board_block_at_the_end_of_the_text() {
    let lines = strings(&["  ９ ８ ７ ６ ５ ４ ３ ２ １", "| ・| 歩|"]);
    let (next, board) = parse_board_block(&lines, 0).unwrap();
    assert_eq!(next, 2);
    assert_eq!(board.get(8, 1), Some(('+', "FU")));
    let (next, board) = parse_board_block(&lines, 1).unwrap();
    assert_eq!(next, 2);
    assert!(board.is_empty());
}

#[test]
fn kif_cells_name_pieces() {
    let chars = |s: &str| s.chars().collect::<Vec<char>>();
    assert_eq!(kif_cell_piece(&chars(" と ")), Some(('+', "TO".to_string())));
    assert_eq!(kif_cell_piece(&chars("v竜")), Some(('-', "RY".to_string())));
    assert_eq!(kif_cell_piece(&chars(" ・")), None);
    assert_eq!(kif_cell_piece(&chars("v")), None);
    assert_eq!(kif_cell_piece(&chars("歩歩")), None);
}

#[test]
fn kif_hand_texts_count_pieces() {
    let counts = parse_hand_pieces("飛　角二　歩十八");
    assert_eq!(counts.len(), 14);
    assert_eq!(counts[0], 18);
    assert_eq!(counts[5], 2);
    assert_eq!(counts[6], 1);
    assert_eq!(counts.iter().map(|c| *c as u32).sum::<u32>(), 21);
    assert_eq!(parse_hand_pieces("なし"), vec![0u8; 14]);
    assert_eq!(parse_hand_pieces(""), vec![0u8; 14]);
    assert_eq!(parse_hand_pieces("王")[7], 1);
    assert_eq!(parse_hand_pieces("歩二十 歩")[0], 21);
    let mut hands = HandCounts::new();
    hands.set_side(false, &counts);
    hands.set_side(true, &parse_hand_pieces("金"));
    assert_eq!(hand_counts_to_sfen(&hands), Ok("18P2BRg".to_string()));
    hands.set_side(true, &parse_hand_pieces("なし"));
    assert_eq!(hand_counts_to_sfen(&hands), Ok("18P2BR".to_string()));
}

#[test]
fn kif_header_gives_metadata_diagram_turn_and_comments() {
    let mut lines = strings(&[
        "# ---- header ----",
        "開始日時：2024/01/01",
        "先手：Alice",
        "後手：Bob",
        "",
        "**  first comment ",
        "*",
        "後手の持駒：歩二",
    ]);
    lines.extend(bar_rows("|v香|v桂| ・| ・|v玉| ・| ・| ・|^飛|", "| 香| ・| ・| ・| 王| ・| ・| ・| ・|"));
    lines.extend(strings(&["後手番", "手数----指手---------消費時間--", "   1 ７六歩(77)   ( 0:01/00:00:01)"]));
    let header = parse_record_header(&lines, false);
    assert_eq!(header.next, 22);
    assert_eq!(header.metadata.black_player(), Some("Alice"));
    assert_eq!(header.metadata.white_player(), Some("Bob"));
    assert_eq!(header.metadata.start_date(), Some("2024/01/01"));
    assert_eq!(header.comments, vec!["first comment".to_string()]);
    assert_eq!(header.initial_turn, Some('-'));
    assert_eq!(header.hands.count(true, 0), 2);
    assert_eq!(header.board.get(5, 9), Some(('+', "OU")));
    assert_eq!(
        kif_diagram_sfen(&header.board, &header.hands, header.initial_turn),
        Some(Ok("ln2k3r/9/9/9/9/9/9/9/L3K4 w 2p 1".to_string()))
    );
}

#[test]
fn kif_and_ki2_headers_stop_at_their_moves() {
    let lines = strings(&["先手：A", "1 ７六歩(77)", "後手：B"]);
    let header = parse_record_header(&lines, false);
    assert_eq!(header.next, 1);
    assert_eq!(header.metadata.white_player(), None);
    assert!(header.board.is_empty());
    let lines = strings(&["先手：A", "先手番", "▲７六歩 △３四歩", "後手：B"]);
    let header = parse_record_header(&lines, true);
    assert_eq!(header.next, 2);
    assert_eq!(header.initial_turn, Some('+'));
    let header = parse_record_header(&strings(&["まで1手で先手の勝ち"]), true);
    assert_eq!(header.next, 0);
    let header = parse_record_header(&strings(&["", "  "]), false);
    assert_eq!(header.next, 2);
    assert_eq!(kif_diagram_sfen(&header.board, &header.hands, None), None);
}

#[test]
fn csa_header_reads_up_to_the_first_move() {
    let lines = strings(&[
        "'CSA encoding=UTF-8",
        "'* first",
        "'* second",
        "' plain",
        "V2.2",
        "N+Alice ",
        "N-Bob",
        "$EVENT:Meijin",
        "$BROKEN",
        "P1 *  *  *  *  *  *  * -OU * ",
        "P+00HI",
        "-",
        "-3334FU",
        "+7776FU",
    ]);
    let header = parse_csa_header(&lines);
    assert_eq!(header.header_end, 12);
    assert_eq!(header.comment, Some("first\nsecond".to_string()));
    assert_eq!(header.metadata.black_player(), Some("Alice"));
    assert_eq!(header.metadata.white_player(), Some("Bob"));
    assert_eq!(header.metadata.event(), Some("Meijin"));
    assert_eq!(header.position_lines, strings(&["P1 *  *  *  *  *  *  * -OU *", "P+00HI"]));
    assert_eq!(header.side_to_move_token, Some('-'));
    assert_eq!(
        csa_initial_sfen(&header.position_lines, header.side_to_move_token),
        Ok("7k1/9/9/9/9/9/9/9/9 w R 1".to_string())
    );
}

#[test]
fn csa_header_ends_after_a_blank_line_or_at_the_end() {
    let header = parse_csa_header(&strings(&["N+A", "  ", "N-B"]));
    assert_eq!(header.header_end, 2);
    assert_eq!(header.metadata.white_player(), None);
    let header = parse_csa_header(&strings(&["PI", "+"]));
    assert_eq!(header.header_end, 2);
    assert_eq!(header.side_to_move_token, Some('+'));
    assert_eq!(header.comment, None);
    let header = parse_csa_header(&[]);
    assert_eq!(header.header_end, 0);
    assert!(header.position_lines.is_empty());
}

#[test]
fn record_text_splits_into_lines() {
    assert_eq!(record_lines("\u{feff}\u{feff}先手：A\r\n後手：B\rx\n"), strings(&["先手：A", "後手：B", "x", ""]));
    assert_eq!(record_lines(""), strings(&[""]));
    assert_eq!(record_lines("a\r\r\nb"), strings(&["a", "", "b"]));
    assert_eq!(record_lines("a\n\u{feff}b"), strings(&["a", "\u{feff}b"]));
    let header = parse_record_header(&record_lines("先手：A\r\n後手番\r\n手数----指手--\r\n1 ７六歩(77)\r\n"), false);
    assert_eq!(header.next, 2);
    assert_eq!(header.initial_turn, Some('-'));
}

#[test]
fn csa_text_splits_into_lines_and_comma_tokens() {
    assert_eq!(
        csa_lines("\u{feff}V2.2\r\nN+A,B\r\r\n'x,y\n+7776FU,T3,,-3334FU\n"),
        strings(&["V2.2", "N+A,B", "'x,y", "+7776FU", "T3", "-3334FU"])
    );
    assert_eq!(csa_lines(""), Vec::<String>::new());
    assert_eq!(csa_lines("\n"), Vec::<String>::new());
    assert_eq!(csa_lines("a\n\nb"), strings(&["a", "b"]));
    assert_eq!(csa_lines("N+x\n\n+"), strings(&["N+x", "+"]));
    let header = parse_csa_header(&csa_lines("N+A\n,\nPI\n-\n-3334FU\n"));
    assert_eq!(header.side_to_move_token, Some('-'));
    assert_eq!(header.header_end, 3);
}

#[test]
fn kif_move_lines_read_into_moves() {
    let mv = |usi: &str| rsshogi::types::moves::Move::from_usi(usi).unwrap();
    assert_eq!(
        parse_kif_move("   1 ７六歩(77)   ( 0:01/00:00:01)", None),
        Ok((mv("7g7f"), Square(59), Some(1000)))
    );
    assert_eq!(parse_kif_move("  3 同　角成(88)", Some(Square(10))), Ok((mv("8h2b+"), Square(10), None)));
    assert_eq!(parse_kif_move("  5 ５五角打", None), Ok((mv("B*5e"), Square(40), None)));
    assert_eq!(parse_kif_move("10 2二と(23)", None), Ok((mv("2c2b"), Square(10), None)));
    assert_eq!(parse_kif_move("  1 ７六歩", None), Err(KifError::InvalidMove("  1 ７六歩".to_string())));
    assert_eq!(parse_kif_move("  1 ＸＸ歩(77)", None), Err(KifError::InvalidMove("ＸＸ歩(77)".to_string())));
    assert_eq!(parse_kif_move("1 ７六歩(7)", None), Err(KifError::InvalidMove("1 ７六歩(7)".to_string())));
    assert_eq!(parse_kif_move("1 ７六歩(77", None), Err(KifError::InvalidMove("1 ７六歩(77".to_string())));
    assert_eq!(parse_kif_move("1 ７六象(77)", None), Err(KifError::InvalidMove("1 ７六象(77)".to_string())));
    assert_eq!(parse_kif_move("1 同歩(77)", None), Err(KifError::InvalidMove("同歩(77)".to_string())));
}

#[test]
fn kif_move_lines_can_be_checked_before_reading() {
    assert!(kif_move_line_fits("   1 ７六歩(77)   ( 0:01/00:00:01)", None));
    assert!(kif_move_line_fits("  3 同　角成(88)", Some(Square(10))));
    assert!(!kif_move_line_fits("  3 同　角成(88)", Some(Square(81))));
    assert!(!kif_move_line_fits("1 ７六歩(70)", None));
    assert!(kif_move_line_fits("1 ７六歩打(70)", None));
    assert!(!kif_move_line_fits("1 ７六歩(77) (99999999:00/00:00:00)", None));
    assert!(kif_move_line_fits("1 ＸＸ歩(70)", None));
}

#[test]
fn range_checks_for_csa_inputs() {
    use_csa_checks();
}

fn use_csa_checks() {
    assert!(csa_header_fits("TIME_LIMIT", "00:10+30"));
    assert!(!csa_header_fits("TIME_LIMIT", "4294967295:00+30"));
    assert!(csa_header_fits("EVENT", "4294967295:00+30"));
    assert!(csa_time_token_fits("T12"));
    assert!(!csa_time_token_fits("T99999999:00"));
    assert!(row_lines_fit(&strings(&["P1-KY", "P2 *"])));
    assert!(!row_lines_fit(&strings(&["ｘ1-KY"])));
    assert!(csa_initial_fits(&strings(&["PI", "P+00FU"])));
    let many: Vec<String> = std::iter::once("PI".to_string())
        .chain(std::iter::repeat("P+00FU".to_string()).take(256))
        .collect();
    assert!(!csa_initial_fits(&many));
    let mut bad = many.clone();
    bad.insert(1, "P+00F".to_string());
    assert!(csa_initial_fits(&bad));
    let filled: Vec<String> = std::iter::once("PI".to_string())
        .chain(std::iter::repeat("P-00KI".to_string()).take(254))
        .chain(std::iter::once("P-00AL".to_string()))
        .collect();
    assert!(!csa_initial_fits(&filled));
    assert!(csa_header_lines_fit(&strings(&["$TIME_LIMIT:00:10+30", "+7776FU"])));
    assert!(!csa_header_lines_fit(&strings(&["$TIME_LIMIT:4294967295:00+30"])));
    assert!(csa_header_lines_fit(&strings(&["+7776FU", "$TIME_LIMIT:4294967295:00+30"])));
}

#[test]
fn range_checks_for_kif_inputs() {
    assert!(kif_header_line_fits("持ち時間：10分"));
    assert!(!kif_header_line_fits("持ち時間：99999999分"));
    assert!(kif_time_line_fits("消費時間: 0:01/00:00:01"));
    assert!(!kif_time_line_fits("消費時間: 99999999:00"));
    assert!(kif_terminal_line_fits("  3 投了 ( 0:03/00:00:04)"));
    assert!(!kif_terminal_line_fits("  3 投了 ( 99999999:03/00:00:04)"));
    assert!(hand_pieces_fit("歩十八 香二"));
    let lots = "歩九十九 ".repeat(3);
    assert!(!hand_pieces_fit(&lots));
    assert!(record_header_fits(&strings(&["先手の持駒：歩二", "1 ７六歩(77)"]), false));
    assert!(!record_header_fits(&strings(&[&format!("先手の持駒：{lots}")]), false));
    assert!(!record_header_fits(&strings(&["持ち時間：99999999分"]), true));
    assert!(record_header_fits(&strings(&["▲７六歩", "持ち時間：99999999分"]), true));
}
