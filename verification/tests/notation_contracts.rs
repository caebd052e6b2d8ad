use rsshogi::records::formats::csa::{
    append_comment_text, append_csa_metadata, apply_csa_metadata, decode_csa_bytes, parse_csa_time_token,
    parse_time_text,
};
use rsshogi::records::formats::jkf::{
    csa_to_drop_char, csa_to_piece_type, is_promotable_piece_type, is_promotable_rank, piece_type_to_csa,
    piece_type_to_sfen, preset_from_sfen, relative_from_ki2, result_to_jkf_special, sfen_from_preset,
    special_from_jkf_name, special_to_jkf_special, JkfError,
};
use rsshogi::records::formats::kif::{
    append_kif_comments, append_kif_metadata, apply_metadata_line, decode_kif_bytes, format_kif_move_line,
    format_kif_summary, parse_colon_time_to_ms, parse_kif_summary_result, parse_kif_terminal_elapsed_time_ms,
    parse_time_to_ms, resolve_kif_move_time, split_kif_inline_elapsed_time, split_metadata_field,
};
use rsshogi::records::formats::kif_notation::{
    format_fullwidth_digit, format_hand_text, format_hand_text_bod, format_kanji_rank, is_board_header_line,
    is_ki2_move_marker, ki2_direction, kifu_square_name, looks_like_ki2_move_line, normalize_kif_line,
    parse_ki2_piece, parse_variation_start, piece_type_to_kif_board, piece_type_to_kif_move, split_ki2_sections,
    Ki2HDirection, Ki2VDirection,
};
use rsshogi::records::error::RecordError;
use rsshogi::records::record::{RecordMetadata, SpecialMove, SpecialMoveEntry};
use rsshogi::records::time_control::TimeControl;
use rsshogi::types::{Color, GameResult, Hand, PieceType, Square};

const HIRATE: &str = "lnsgkgsnl/1r5b1/ppppppppp/9/9/9/PPPPPPPPP/1B5R1/LNSGKGSNL b - 1";

#[test]
fn kif_header_lines_split_and_fill_metadata() {
    assert_eq!(
        split_metadata_field("  先手：羽生 善治 "),
        Some(("先手".to_string(), "羽生 善治".to_string()))
    );
    assert_eq!(split_metadata_field("key: value"), Some(("key".to_string(), "value".to_string())));
    assert_eq!(split_metadata_field("a:b：c"), Some(("a:b".to_string(), "c".to_string())));
    assert_eq!(split_metadata_field("no field"), None);

    let mut builder = RecordMetadata::builder();
    for line in [
        "先手：Alice",
        "上手：Bob",
        "棋戦：Meijin",
        "場所：Tokyo",
        "開始日時：2024/01/01",
        "終了日：2024/01/02",
        "持ち時間：10分+30秒",
        "先手持ち時間：600+0+10",
        "最大手数：256",
        "持将棋：24点法",
        "備考：first",
        "備考：second",
        "手合割：平手",
        "no field here",
    ] {
        apply_metadata_line(&mut builder, line);
    }
    let metadata = builder.build();
    assert_eq!(metadata.black_player(), Some("Alice"));
    assert_eq!(metadata.white_player(), Some("Bob"));
    assert_eq!(metadata.event(), Some("Meijin"));
    assert_eq!(metadata.site(), Some("Tokyo"));
    assert_eq!(metadata.start_date(), Some("2024/01/01"));
    assert_eq!(metadata.end_date(), Some("2024/01/02"));
    assert_eq!(metadata.time_control(), Some(&TimeControl::new(600, 30, 0)));
    assert_eq!(metadata.black_time_control(), Some(&TimeControl::new(600, 0, 10)));
    assert_eq!(metadata.white_time_control(), None);
    assert_eq!(metadata.max_moves(), Some(256));
    assert_eq!(metadata.impasse_rule(), Some("24点法"));
    assert_eq!(metadata.comment(), Some("first\nsecond"));
    assert_eq!(metadata.attributes().get("手合割"), Some("平手"));
    assert_eq!(metadata.attributes().len(), 1);
}

#[test]
fn csa_headers_fill_metadata() {
    let mut builder = RecordMetadata::builder();
    apply_csa_metadata(&mut builder, "EVENT", "e");
    apply_csa_metadata(&mut builder, "TIME_LIMIT", "00:10+30");
    apply_csa_metadata(&mut builder, "TIME+", "600+10+0");
    apply_csa_metadata(&mut builder, "TIME-", "bad");
    apply_csa_metadata(&mut builder, "MAX_MOVES", " 300 ");
    apply_csa_metadata(&mut builder, "JISHOGI", "27");
    apply_csa_metadata(&mut builder, "NOTE", "a\\nb");
    apply_csa_metadata(&mut builder, "X", "y");
    let metadata = builder.build();
    assert_eq!(metadata.event(), Some("e"));
    assert_eq!(metadata.time_control(), Some(&TimeControl::new(600, 30, 0)));
    assert_eq!(metadata.black_time_control(), Some(&TimeControl::new(600, 10, 0)));
    assert_eq!(metadata.white_time_control(), None);
    assert_eq!(metadata.max_moves(), Some(300));
    assert_eq!(metadata.impasse_rule(), Some("27"));
    assert_eq!(metadata.comment(), Some("a\nb"));
    assert_eq!(metadata.attributes().get("X"), Some("y"));
}

#[test]
fn csa_header_lines_of_metadata() {
    let mut builder = RecordMetadata::builder();
    builder
        .comment(Some("a\nb".to_string()))
        .black_player(Some("B".to_string()))
        .white_player(Some("W".to_string()))
        .event(Some("E".to_string()))
        .time_control(Some(TimeControl::new(600, 30, 0)))
        .white_time_control(Some(TimeControl::new(300, 0, 5)))
        .max_moves(Some(256))
        .add_attribute("EVENT".to_string(), "dup".to_string())
        .add_attribute("ZZ".to_string(), "z".to_string());
    let metadata = builder.build();
    let mut lines = vec!["V2.2".to_string()];
    append_csa_metadata(&mut lines, &metadata);
    assert_eq!(
        lines,
        vec![
            "V2.2", "$NOTE:a\\nb", "N+B", "N-W", "$EVENT:E", "$TIME_LIMIT:00:10+30", "$TIME-:300+0+5",
            "$MAX_MOVES:256", "$ZZ:z",
        ]
    );
}

#[test]
fn kif_header_lines_of_metadata() {
    let mut builder = RecordMetadata::builder();
    builder
        .event(Some("E".to_string()))
        .site(Some("S".to_string()))
        .time_control(Some(TimeControl::new(600, 30, 0)))
        .max_moves(Some(256))
        .comment(Some("  x \n\n y".to_string()))
        .black_player(Some("B".to_string()))
        .add_attribute("戦型".to_string(), "矢倉".to_string())
        .add_attribute("手合割".to_string(), "平手".to_string());
    let metadata = builder.build();
    let mut lines = Vec::new();
    append_kif_metadata(&mut lines, &metadata);
    assert_eq!(
        lines,
        vec!["棋戦：E", "場所：S", "持ち時間：10分秒読み30秒", "最大手数：256", "備考：x", "備考：y", "先手：B", "戦型：矢倉"]
    );
    let mut comments = Vec::new();
    append_kif_comments(&mut comments, "a\n  \n b \r\n");
    assert_eq!(comments, vec!["*a", "*b"]);
}

#[test]
fn kif_summaries_and_move_lines() {
    let resign = SpecialMoveEntry::new(SpecialMove::Resign, GameResult::WhiteWin);
    assert_eq!(format_kif_summary(&resign, Color::Black, 64), "まで64手で後手の勝ち");
    let timeout = SpecialMoveEntry::new(SpecialMove::Timeout, GameResult::BlackWinByTimeout);
    let summary = format_kif_summary(&timeout, Color::White, 10);
    assert_eq!(summary, "まで10手で時間切れにより先手の勝ち");
    let read = parse_kif_summary_result(&summary, Color::White).unwrap();
    assert_eq!(read.kind(), &SpecialMove::Timeout);
    assert_eq!(read.result(), GameResult::BlackWinByTimeout);
    let unknown = SpecialMoveEntry::new(SpecialMove::Unknown("X".to_string()), GameResult::Paused);
    assert_eq!(format_kif_summary(&unknown, Color::Black, 3), "まで3手でX");
    assert_eq!(format_kif_move_line(1, "７六歩(77)", 1000, 61000, false), "   1 ７六歩(77) ( 0:01/00:01:01)");
    assert_eq!(format_kif_move_line(12345, "投了", 0, 0, true), "12345 投了 ( 0:00/00:00:00)+");
}

#[test]
fn kif_notation_pieces_squares_and_markers() {
    assert!(is_ki2_move_marker('▲'));
    assert!(is_ki2_move_marker('☖'));
    assert!(!is_ki2_move_marker('a'));
    assert!(looks_like_ki2_move_line("  ▲７六歩"));
    assert!(looks_like_ki2_move_line("１"));
    assert!(looks_like_ki2_move_line("同　歩"));
    assert!(looks_like_ki2_move_line("7"));
    assert!(!looks_like_ki2_move_line("x"));
    assert!(!looks_like_ki2_move_line("   "));
    assert!(is_board_header_line("  ９ ８ ７ ６ ５ ４ ３ ２ １"));
    assert!(!is_board_header_line("１ ９"));
    assert_eq!(parse_variation_start("変化：12手"), 12);
    assert_eq!(parse_variation_start("abc"), 0);
    assert_eq!(parse_variation_start("99999999999999999999999"), 0);
    assert_eq!(piece_type_to_kif_move(PieceType(10)), "成香");
    assert_eq!(piece_type_to_kif_board(PieceType(10)), "杏");
    assert_eq!(piece_type_to_kif_board(PieceType(7)), "金");
    assert_eq!(piece_type_to_kif_move(PieceType(0)), "玉");
    assert_eq!(format_fullwidth_digit(7), '７');
    assert_eq!(format_kanji_rank(6), '六');
    assert_eq!(kifu_square_name(Square(0)), Some("１一".to_string()));
    assert_eq!(kifu_square_name(Square(60)), Some("７七".to_string()));
    assert_eq!(kifu_square_name(Square(81)), None);
    assert_eq!(parse_ki2_piece("成銀上"), Some((PieceType(12), 6)));
    assert_eq!(parse_ki2_piece("歩"), Some((PieceType(1), 3)));
    assert_eq!(parse_ki2_piece("竜引"), Some((PieceType(14), 3)));
    assert_eq!(parse_ki2_piece("成"), None);
    assert_eq!(parse_ki2_piece(""), None);
    assert_eq!(ki2_direction(Square(60), Square(59), Color::Black), (Ki2HDirection::Straight, Ki2VDirection::Up));
    assert_eq!(ki2_direction(Square(60), Square(59), Color::White), (Ki2HDirection::Straight, Ki2VDirection::Down));
    assert_eq!(ki2_direction(Square(8), Square(17), Color::Black), (Ki2HDirection::Left, Ki2VDirection::Level));
    assert_eq!(ki2_direction(Square(17), Square(8), Color::Black), (Ki2HDirection::Right, Ki2VDirection::Level));
}

#[test]
fn kif_hand_texts() {
    assert_eq!(format_hand_text(Hand(0)), "なし");
    assert_eq!(format_hand_text(Hand(3)), "歩三");
    assert_eq!(format_hand_text(Hand(1 | (1 << 24))), "歩　飛");
    assert_eq!(format_hand_text_bod(Hand(1 | (1 << 24))), "飛　歩");
    assert_eq!(format_hand_text(Hand((2 << 28) | (10 << 0))), "歩十　金二");
    assert_eq!(format_hand_text(Hand(18)), "歩18");
}

#[test]
fn kif_lines_normalize_and_split() {
    assert_eq!(normalize_kif_line("王竜成銀成桂成香成歩"), "玉龍全圭杏と");
    assert_eq!(normalize_kif_line("成成銀"), "成全");
    assert_eq!(split_ki2_sections("▲７六歩△３四歩"), vec!["▲７六歩", "△３四歩"]);
    assert_eq!(split_ki2_sections("x▲y"), vec!["x", "▲y"]);
    assert_eq!(split_ki2_sections("abc"), vec!["abc"]);
    assert!(split_ki2_sections("").is_empty());
}

#[test]
fn elapsed_times_read() {
    assert_eq!(parse_colon_time_to_ms("1:02:03"), Some(3_723_000));
    assert_eq!(parse_colon_time_to_ms("  5 "), Some(5_000));
    assert_eq!(parse_colon_time_to_ms("1：30"), Some(90_000));
    assert_eq!(parse_colon_time_to_ms("a"), None);
    assert_eq!(parse_colon_time_to_ms(""), None);
    assert_eq!(parse_colon_time_to_ms("0:00"), Some(0));
    assert_eq!(parse_time_to_ms("消費時間：1:30"), Some(90_000));
    assert_eq!(parse_time_to_ms("0:00"), None);
    assert_eq!(parse_kif_terminal_elapsed_time_ms("まで64手で投了 ( 0:12/00:10:30)"), Some(12_000));
    assert_eq!(parse_kif_terminal_elapsed_time_ms("投了 ( 0:12)"), None);
    assert_eq!(parse_kif_terminal_elapsed_time_ms("投了"), None);
    assert_eq!(
        split_kif_inline_elapsed_time("   1 ７六歩(77)   ( 0:01/00:00:01)"),
        ("   1 ７六歩(77)".to_string(), Some(1_000))
    );
    assert_eq!(split_kif_inline_elapsed_time("同　王(55)"), ("同　玉(55)".to_string(), None));
    let mut pending = Some(3);
    assert_eq!(resolve_kif_move_time(Some(5), &mut pending), Some(5));
    assert_eq!(pending, None);
    let mut pending = Some(3);
    assert_eq!(resolve_kif_move_time(None, &mut pending), Some(3));
    assert_eq!(pending, None);
    assert_eq!(parse_time_text("10"), Some(10_000));
    assert_eq!(parse_csa_time_token("T12"), Some(12_000));
    assert_eq!(parse_csa_time_token(" T=1:30 "), Some(90_000));
    assert_eq!(parse_csa_time_token("TT5"), Some(5_000));
    assert_eq!(parse_csa_time_token("X5"), None);
}

#[test]
fn comments_append_with_line_breaks() {
    let mut slot: Option<String> = None;
    append_comment_text(&mut slot, "");
    assert_eq!(slot, None);
    append_comment_text(&mut slot, "a");
    assert_eq!(slot.as_deref(), Some("a"));
    append_comment_text(&mut slot, "b");
    assert_eq!(slot.as_deref(), Some("a\nb"));
}

#[test]
fn jkf_pieces_presets_and_terminals() {
    assert_eq!(piece_type_to_csa(PieceType(14)), Some("RY"));
    assert_eq!(piece_type_to_csa(PieceType(0)), None);
    for raw in 1..=14 {
        let code = piece_type_to_csa(PieceType(raw)).unwrap();
        assert_eq!(csa_to_piece_type(code), Some(PieceType(raw)));
    }
    assert_eq!(csa_to_piece_type("GY"), Some(PieceType(8)));
    assert_eq!(csa_to_piece_type("XX"), None);
    assert_eq!(piece_type_to_sfen(PieceType(13), Color::White), Some("+b".to_string()));
    assert_eq!(piece_type_to_sfen(PieceType(8), Color::Black), Some("K".to_string()));
    assert_eq!(piece_type_to_sfen(PieceType(0), Color::Black), None);
    assert_eq!(csa_to_drop_char("TO"), Some('P'));
    assert_eq!(csa_to_drop_char("OU"), None);
    assert!(is_promotable_piece_type(PieceType(6)));
    assert!(!is_promotable_piece_type(PieceType(7)));
    assert!(is_promotable_rank(Color::White, 7));
    assert!(!is_promotable_rank(Color::Black, 4));
    assert_eq!(relative_from_ki2("７六歩右上"), "RU");
    let unknown = SpecialMoveEntry::new(SpecialMove::Unknown("abc".to_string()), GameResult::Invalid);
    assert_eq!(special_to_jkf_special(&unknown), Some("ABC".to_string()));
    let declaration = SpecialMoveEntry::new(SpecialMove::Try, GameResult::BlackWinByTryRule);
    assert_eq!(special_to_jkf_special(&declaration), Some("KACHI".to_string()));
    assert_eq!(result_to_jkf_special(GameResult::Error), Some("ERROR"));
    assert_eq!(result_to_jkf_special(GameResult::Paused), Some("CHUDAN"));
    let toryo = special_from_jkf_name("toryo", Color::Black);
    assert_eq!(toryo.kind(), &SpecialMove::Resign);
    assert_eq!(toryo.result(), GameResult::WhiteWin);
    assert_eq!(toryo.raw(), Some("toryo"));
    let kachi = special_from_jkf_name("KACHI", Color::White);
    assert_eq!(kachi.result(), GameResult::WhiteWinByDeclaration);
    let other = special_from_jkf_name("foo", Color::Black);
    assert_eq!(other.kind(), &SpecialMove::Unknown("foo".to_string()));
    assert_eq!(other.result(), GameResult::Invalid);
    assert_eq!(preset_from_sfen(HIRATE), Some("HIRATE"));
    assert_eq!(sfen_from_preset("HIRATE"), Some(HIRATE));
    assert_eq!(
        sfen_from_preset("5_L"),
        Some("1nsgkgs2/9/ppppppppp/9/9/9/PPPPPPPPP/1B5R1/LNSGKGSNL w - 1")
    );
    assert_eq!(preset_from_sfen("9/9/9/9/9/9/9/9/9 b - 1"), None);
    assert_eq!(JkfError::IllegalMove { index: 4 }.to_string(), "illegal move at index 4");
    assert_eq!(JkfError::UnsupportedPreset("X".to_string()).to_string(), "unsupported JKF preset: X");
    let from_record: JkfError = RecordError::EmptyInitPosition.into();
    assert_eq!(
        from_record.to_string(),
        "record construction failed: initial position SFEN cannot be empty"
    );
}

#[test]
fn record_bytes_decode_as_utf8_or_shift_jis() {
    assert_eq!(decode_csa_bytes(b"+7776FU"), "+7776FU");
    assert_eq!(decode_csa_bytes("先手".as_bytes()), "先手");
    assert_eq!(decode_csa_bytes(&[0x90, 0xe6, 0x8e, 0xe8]), "先手");
    assert_eq!(decode_kif_bytes(&[0x90, 0xe6, 0x8e, 0xe8]), "先手");
}
