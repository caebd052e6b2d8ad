use rsshogi::records::error::RecordError;
use rsshogi::records::formats::common::{encode_text, encode_text_with_options, ExportOptions, TextEncoding};
use rsshogi::records::formats::csa::{
    csa_position_p_command, format_csa_note_value, format_csa_time_limit, marker_from_terminal,
    parse_csa_note_value, parse_csa_program_comment_text, terminal_from_marker, CsaError,
};
use rsshogi::records::formats::kif::{
    format_kif_time_control_text, format_time_hhmmss, format_time_mss, kanji_number, kanji_to_int,
    kif_display_width, pad_kif_move_text, parse_ki2_summary_result, parse_kif_summary_result,
    special_move_to_kif_text, terminal_from_kif_name, Ki2Error, KifError,
};
use rsshogi::records::formats::pack::{
    decode_games, write_games, PackEndReason, PackGame, PackGameResult, PackPly, PackStartPosition,
};
use rsshogi::records::formats::traversal::TraversalError;
use rsshogi::records::formats::usi::{
    special_from_usi_token, special_to_usi_token, UsiPositionError, UsiPositionExportOptions,
    UsiPositionParseOptions,
};
use rsshogi::records::record::{RecordMetadata, RecordMetadataKey, SpecialMove, SpecialMoveEntry};
use rsshogi::records::time_control::{parse_csa_time_control, parse_kif_time_control, TimeControl};
use rsshogi::types::moves::AperyMove;
use rsshogi::types::{Color, GameResult};

#[test]
fn time_control_spec_text_roundtrips() {
    let tc = TimeControl::new(600, 30, 5);
    assert_eq!(tc.base_seconds(), 600);
    assert_eq!(tc.byoyomi_seconds(), 30);
    assert_eq!(tc.increment_seconds(), 5);
    assert_eq!(tc.to_spec(), "600+30+5");
    assert_eq!(TimeControl::from_spec(&tc.to_spec()), Some(tc));
    assert_eq!(TimeControl::from_spec(" 600 + 30\t+ 5 "), Some(tc));
    assert_eq!(TimeControl::from_spec("+600++30++5"), None);
    assert_eq!(TimeControl::normalize_spec(" 0010 + 0 + 07 "), Some("10+0+7".to_string()));
    assert_eq!(TimeControl::from_spec("600+30"), None);
    assert_eq!(TimeControl::from_spec("600+30+5+1"), None);
    assert_eq!(TimeControl::from_spec("600+ +5"), None);
    assert_eq!(TimeControl::from_spec("4294967296+0+0"), None);
    assert_eq!(TimeControl::from_spec("-1+0+0"), None);
    assert_eq!(TimeControl::normalize_spec("abc"), None);
}

#[test]
fn csa_time_limit_reads_both_forms() {
    assert_eq!(parse_csa_time_control("600+10+0"), Some(TimeControl::new(600, 10, 0)));
    assert_eq!(parse_csa_time_control("01:30+30"), Some(TimeControl::new(5400, 30, 0)));
    assert_eq!(parse_csa_time_control(" 00 : 10 +60"), Some(TimeControl::new(600, 60, 0)));
    assert_eq!(parse_csa_time_control("10+30"), None);
    assert_eq!(parse_csa_time_control("x:10+30"), None);
}

#[test]
fn kif_time_line_reads_base_and_byoyomi() {
    assert_eq!(parse_kif_time_control("1時間30分+30秒"), Some(TimeControl::new(5400, 30, 0)));
    assert_eq!(parse_kif_time_control("10分"), Some(TimeControl::new(600, 0, 0)));
    assert_eq!(parse_kif_time_control("2時間"), Some(TimeControl::new(7200, 0, 0)));
    assert_eq!(parse_kif_time_control("30秒"), Some(TimeControl::new(0, 30, 0)));
    assert_eq!(parse_kif_time_control("各15分+ 6 0秒"), Some(TimeControl::new(900, 0, 0)));
    assert_eq!(parse_kif_time_control("10分+6 0 秒"), Some(TimeControl::new(600, 60, 0)));
    assert_eq!(parse_kif_time_control("なし"), None);
    assert_eq!(parse_kif_time_control("0分"), None);
}

#[test]
fn metadata_builder_sets_and_reads_back_fields() {
    let mut builder = RecordMetadata::builder();
    builder
        .event(Some("Meijin".to_string()))
        .black_player(Some("Alice".to_string()))
        .white_player(Some("Bob".to_string()))
        .max_moves(Some(256))
        .time_control(Some(TimeControl::new(600, 30, 0)))
        .impasse_rule(Some("24".to_string()))
        .set_standard(RecordMetadataKey::Other("round".to_string()), Some("3".to_string()))
        .add_attribute("zeta".to_string(), "z".to_string())
        .add_attribute("alpha".to_string(), "a".to_string())
        .add_attribute("zeta".to_string(), "zz".to_string());
    builder.black_player(None);
    builder.append_comment_line("first").append_comment_line("").append_comment_line("second");
    let metadata = builder.build();
    assert_eq!(metadata.event(), Some("Meijin"));
    assert_eq!(metadata.get(&RecordMetadataKey::Event), Some("Meijin"));
    assert_eq!(metadata.black_player(), None);
    assert_eq!(metadata.white_player(), Some("Bob"));
    assert_eq!(metadata.site(), None);
    assert_eq!(metadata.max_moves(), Some(256));
    assert_eq!(metadata.time_control(), Some(&TimeControl::new(600, 30, 0)));
    assert_eq!(metadata.black_time_control(), None);
    assert_eq!(metadata.impasse_rule(), Some("24"));
    assert_eq!(metadata.get(&RecordMetadataKey::Other("round".to_string())), Some("3"));
    assert_eq!(metadata.get(&RecordMetadataKey::Other("missing".to_string())), None);
    assert_eq!(metadata.comment(), Some("first\nsecond"));
    let attributes = metadata.attributes();
    assert_eq!(attributes.len(), 2);
    assert_eq!(attributes.get("zeta"), Some("zz"));
    assert_eq!(attributes.get("alpha"), Some("a"));
    assert_eq!(attributes.get("beta"), None);
    let keys: Vec<&str> = attributes.entries().iter().map(|(k, _)| k.as_str()).collect();
    assert_eq!(keys, vec!["alpha", "zeta"]);
    assert_eq!(metadata.custom().len(), 2);
    assert_eq!(metadata.clone(), metadata);
    assert_eq!(RecordMetadata::default().event(), None);
}

#[test]
fn metadata_other_keys_can_be_removed() {
    let mut builder = RecordMetadata::builder();
    let key = RecordMetadataKey::Other("場所".to_string());
    builder.set_standard(key.clone(), Some("東京".to_string()));
    builder.set_standard(key.clone(), None);
    builder.comment(Some(String::new())).append_comment_line("only");
    let metadata = builder.build();
    assert_eq!(metadata.get(&key), None);
    assert_eq!(metadata.comment(), Some("only"));
}

#[test]
fn text_encoding_keeps_ascii_and_maps_japanese() {
    let utf8 = encode_text("+7776FU", TextEncoding::Utf8);
    let sjis = encode_text("+7776FU", TextEncoding::ShiftJis);
    assert_eq!(utf8.bytes(), b"+7776FU");
    assert_eq!(sjis.bytes(), b"+7776FU");
    assert!(!sjis.has_unmappable_chars());
    let japanese = encode_text("先手", TextEncoding::ShiftJis);
    assert_eq!(japanese.bytes(), &[0x90, 0xe6, 0x8e, 0xe8]);
    assert!(!japanese.has_unmappable_chars());
    let emoji = encode_text("🔥", TextEncoding::ShiftJis);
    assert!(emoji.has_unmappable_chars());
    assert_eq!(emoji.into_bytes(), b"&#128293;".to_vec());
    let utf8_japanese = encode_text_with_options("先手", ExportOptions::default());
    assert_eq!(utf8_japanese.bytes(), "先手".as_bytes());
    assert_eq!(ExportOptions::default().encoding(), TextEncoding::Utf8);
    assert_eq!(ExportOptions::new(TextEncoding::ShiftJis).encoding(), TextEncoding::ShiftJis);
}

#[test]
fn error_messages_match_their_variants() {
    assert_eq!(RecordError::InvalidNodeId(7).to_string(), "invalid record node id 7");
    assert_eq!(
        RecordError::NotChild { parent: 1, child: 2 }.to_string(),
        "node 2 is not a child of parent 1"
    );
    assert_eq!(KifError::InvalidLine("x".to_string()).to_string(), "invalid KIF line: x");
    assert_eq!(KifError::MissingResult.to_string(), "missing KIF result");
    assert_eq!(Ki2Error::IllegalMove { index: 3 }.to_string(), "illegal move at index 3");
    assert_eq!(CsaError::MissingEndMarker.to_string(), "missing CSA end marker");
    assert_eq!(
        TraversalError::IllegalMove { node_id: 4, ply: 2 }.to_string(),
        "illegal move at node 4 (ply 2)"
    );
    assert_eq!(
        UsiPositionError::InvalidMove { index: 5, token: "7g7x".to_string() }.to_string(),
        "invalid move token at index 5: 7g7x"
    );
    assert_eq!(
        UsiPositionError::from(RecordError::IllegalMove).to_string(),
        "record construction failed: illegal move at current editor position"
    );
    assert!(!UsiPositionParseOptions::strict().allow_special_tokens);
    assert!(UsiPositionParseOptions::extended().allow_special_tokens);
    assert!(!UsiPositionExportOptions::strict().include_special_tokens);
    assert!(UsiPositionExportOptions::extended().include_special_tokens);
}

#[test]
fn csa_markers_read_and_write_terminals() {
    let resign = terminal_from_marker("%TORYO", Color::Black);
    assert_eq!(resign.kind(), &SpecialMove::Resign);
    assert_eq!(resign.result(), GameResult::WhiteWin);
    assert_eq!(terminal_from_marker("%KACHI", Color::White).result(), GameResult::WhiteWinByDeclaration);
    let action = terminal_from_marker("%-ILLEGAL_ACTION", Color::Black);
    assert_eq!(action.kind(), &SpecialMove::LoseByIllegalMove);
    assert_eq!(action.result(), GameResult::BlackWinByIllegalMove);
    assert_eq!(marker_from_terminal(&action), "%ILLEGAL_MOVE");
    let unknown = terminal_from_marker("%%FOO", Color::Black);
    assert_eq!(unknown.kind(), &SpecialMove::Unknown("FOO".to_string()));
    assert_eq!(unknown.result(), GameResult::Paused);
    assert_eq!(terminal_from_marker("%ERROR", Color::Black).result(), GameResult::Error);
    for marker in ["%TORYO", "%CHUDAN", "%SENNICHITE", "%TIME_UP", "%ERROR", "%BAR", "%"] {
        for side in [Color::Black, Color::White] {
            assert_eq!(marker_from_terminal(&terminal_from_marker(marker, side)), marker);
        }
    }
}

#[test]
fn kif_terminal_names_and_summaries() {
    let resign = terminal_from_kif_name("投了", Color::White);
    assert_eq!(resign.kind(), &SpecialMove::Resign);
    assert_eq!(resign.result(), GameResult::BlackWin);
    assert_eq!(terminal_from_kif_name("不戦敗", Color::Black).result(), GameResult::WhiteWinByForfeit);
    assert_eq!(terminal_from_kif_name("謎", Color::Black).kind(), &SpecialMove::Unknown("謎".to_string()));
    let summary = parse_kif_summary_result("  まで64手で後手の勝ち ", Color::Black).unwrap();
    assert_eq!(summary.kind(), &SpecialMove::Resign);
    assert_eq!(summary.result(), GameResult::WhiteWin);
    let timeout = parse_kif_summary_result("まで10手で時間切れにより先手の勝ち", Color::Black).unwrap();
    assert_eq!(timeout.result(), GameResult::BlackWinByTimeout);
    let mate = parse_kif_summary_result("まで5手で詰", Color::White).unwrap();
    assert_eq!(mate.result(), GameResult::BlackWin);
    assert_eq!(parse_kif_summary_result("まで2手で最大手数", Color::Black).unwrap().kind(), &SpecialMove::MaxMoves);
    assert!(parse_kif_summary_result("まで3手で入玉宣言", Color::Black).is_none());
    assert!(parse_kif_summary_result("投了", Color::Black).is_none());
    assert_eq!(
        parse_ki2_summary_result(" まで1手で中断", Color::Black).unwrap().kind(),
        &SpecialMove::Interrupt
    );
    assert!(parse_ki2_summary_result("先手の勝ち", Color::Black).is_none());
    assert_eq!(kif_display_width("投了ab"), 6);
    assert_eq!(pad_kif_move_text("投了"), "投了        ");
    let text = special_move_to_kif_text(&SpecialMoveEntry::new(SpecialMove::Timeout, GameResult::BlackWinByTimeout));
    assert_eq!(text, "切れ負け    ");
    let long = "１２３４５６７";
    assert_eq!(pad_kif_move_text(long), long);
}

#[test]
fn usi_special_tokens_roundtrip() {
    let resign = special_from_usi_token("RESIGN", Color::Black).unwrap();
    assert_eq!(resign.kind(), &SpecialMove::Resign);
    assert_eq!(resign.result(), GameResult::WhiteWin);
    assert_eq!(resign.raw(), Some("RESIGN"));
    assert_eq!(special_to_usi_token(&resign, Color::Black), Some("RESIGN".to_string()));
    let win = special_from_usi_token("win", Color::White).unwrap();
    assert_eq!(win.result(), GameResult::WhiteWinByDeclaration);
    assert!(special_from_usi_token("7g7f", Color::Black).is_none());
    let draw = SpecialMoveEntry::new(SpecialMove::Draw, GameResult::DrawByRepetition);
    assert_eq!(special_to_usi_token(&draw, Color::Black), Some("draw".to_string()));
    let unknown = SpecialMoveEntry::new(SpecialMove::Unknown("AbC".to_string()), GameResult::Paused);
    assert_eq!(special_to_usi_token(&unknown, Color::Black), Some("abc".to_string()));
    let illegal = SpecialMoveEntry::new(SpecialMove::WinByIllegalMove, GameResult::BlackWinByIllegalMove);
    assert_eq!(special_to_usi_token(&illegal, Color::Black), None);
    for token in ["resign", "win", "sennichite", "max_moves", "jishogi", "time_up", "interrupt", "mate", "nomate"] {
        let entry = SpecialMoveEntry::new(
            special_from_usi_token(token, Color::Black).unwrap().kind().clone(),
            GameResult::Paused,
        );
        assert_eq!(special_to_usi_token(&entry, Color::Black), Some(token.to_string()));
    }
}

#[test]
fn pack_stream_of_games_reads_back() {
    let games = vec![
        PackGame {
            start_position: PackStartPosition::Startpos,
            plies: vec![PackPly { mv: AperyMove::from_raw(0x1e3b), eval: 10 }],
            result: PackGameResult::BlackWin,
            end_reason: PackEndReason::Resign,
        },
        PackGame {
            start_position: PackStartPosition::Startpos,
            plies: Vec::new(),
            result: PackGameResult::Draw,
            end_reason: PackEndReason::MaxMoves,
        },
    ];
    let mut bytes = vec![0xaa];
    write_games(&mut bytes, &games).unwrap();
    assert_eq!(bytes[0], 0xaa);
    assert_eq!(decode_games(&bytes[1..]).unwrap(), games);
    assert!(decode_games(&bytes[1..bytes.len() - 1]).is_err());
}

#[test]
fn csa_note_values_escape_and_read_back() {
    assert_eq!(format_csa_note_value("a\\b\nc"), "a\\\\b\\nc");
    assert_eq!(parse_csa_note_value("a\\\\b\\nc"), "a\\b\nc");
    assert_eq!(parse_csa_note_value("x\\ty\\"), "x\\ty\\");
    let text = "line one\nline \\ two";
    assert_eq!(parse_csa_note_value(&format_csa_note_value(text)), text);
}

#[test]
fn csa_time_limit_header_forms() {
    assert_eq!(format_csa_time_limit(&TimeControl::new(0, 0, 0)), None);
    assert_eq!(
        format_csa_time_limit(&TimeControl::new(5430, 30, 0)),
        Some(("TIME_LIMIT".to_string(), "01:30+30".to_string()))
    );
    assert_eq!(
        format_csa_time_limit(&TimeControl::new(600, 0, 10)),
        Some(("TIME".to_string(), "600+0+10".to_string()))
    );
    let (_, value) = format_csa_time_limit(&TimeControl::new(5430, 30, 0)).unwrap();
    assert_eq!(parse_csa_time_control(&value), Some(TimeControl::new(5400, 30, 0)));
}

#[test]
fn csa_comment_lines_and_initial_positions() {
    assert_eq!(parse_csa_program_comment_text("  '* hello  "), Some("hello".to_string()));
    assert_eq!(parse_csa_program_comment_text("'*"), Some(String::new()));
    assert_eq!(parse_csa_program_comment_text("'** 30 +7776FU"), None);
    assert_eq!(parse_csa_program_comment_text("'**評価値=10"), None);
    assert_eq!(parse_csa_program_comment_text("' plain"), None);
    assert_eq!(
        csa_position_p_command("lnsgkgsnl/1r5b1/ppppppppp/9/9/9/PPPPPPPPP/1B5R1/LNSGKGSNL b - 1"),
        Some(("PI", "+"))
    );
    assert_eq!(
        csa_position_p_command("lnsgkgsnl/9/ppppppppp/9/9/9/PPPPPPPPP/1B5R1/LNSGKGSNL w - 1"),
        Some(("PI82HI22KA", "-"))
    );
    assert_eq!(
        csa_position_p_command("4k4/9/ppppppppp/9/9/9/PPPPPPPPP/1B5R1/LNSGKGSNL w - 1"),
        Some(("PI82HI22KA41KI61KI31GI71GI21KE81KE11KY91KY", "-"))
    );
    assert_eq!(csa_position_p_command("9/9/9/9/9/9/9/9/9 b - 1"), None);
}

#[test]
fn kanji_numbers_read_and_write() {
    assert_eq!(kanji_to_int(""), 1);
    assert_eq!(kanji_to_int("十八"), 18);
    assert_eq!(kanji_to_int("二十"), 20);
    assert_eq!(kanji_to_int("二十三"), 23);
    assert_eq!(kanji_to_int("〇"), 1);
    assert_eq!(kanji_to_int("百"), 1);
    assert_eq!(kanji_to_int("九九九"), 255);
    for value in 1u8..=10 {
        assert_eq!(kanji_to_int(&kanji_number(value)), value);
    }
    assert_eq!(kanji_number(7), "七");
    assert_eq!(kanji_number(10), "十");
    assert_eq!(kanji_number(11), "11");
    assert_eq!(kanji_number(0), "0");
}

#[test]
fn kif_elapsed_times_and_time_control_text() {
    assert_eq!(format_time_mss(0), " 0:00");
    assert_eq!(format_time_mss(65_999), " 1:05");
    assert_eq!(format_time_mss(754_000), "12:34");
    assert_eq!(format_time_hhmmss(3_723_000), "01:02:03");
    assert_eq!(format_time_hhmmss(360_000_000), "100:00:00");
    assert_eq!(format_kif_time_control_text(&TimeControl::new(0, 0, 0)), None);
    assert_eq!(
        format_kif_time_control_text(&TimeControl::new(5400, 30, 0)),
        Some("1時間30分秒読み30秒".to_string())
    );
    assert_eq!(
        format_kif_time_control_text(&TimeControl::new(600, 0, 10)),
        Some("10分加算10秒".to_string())
    );
    assert_eq!(format_kif_time_control_text(&TimeControl::new(0, 60, 0)), Some("秒読み60秒".to_string()));
}
