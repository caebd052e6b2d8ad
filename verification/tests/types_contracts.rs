use std::collections::{HashMap, HashSet};
use std::str::FromStr;

use rsshogi::types::bitboard::{BitIter, Bitboard};
use rsshogi::types::moves::{
    AperyMove, AperyMove32, Move32Metadata, MoveType, FROM_TO_TABLE_SIZE, MOVE_NONE, MOVE_NULL,
};
use rsshogi::types::{
    Color, Eval, File, GameResult, Hand, HandPiece, Ki2Notation, Move, Move32,
    ParseKi2NotationError, Piece, PieceType, Rank, RepetitionState, Square, HAND_BORROW_MASK,
};

#[test]
fn raw_and_text_contract() {
    assert_eq!(Color::from_i8(0), Some(Color::Black));
    assert_eq!(Color::from_i8(2), None);
    assert_eq!(Color::Black.raw(), 0);
    assert_eq!(Color::Black.to_string(), "Black");
    assert_eq!("w".parse(), Ok(Color::White));
    assert_eq!(Color::iter().rev().collect::<Vec<_>>(), vec![Color::White, Color::Black]);
    assert_eq!(!Color::Black, Color::White);
}

#[test]
fn cp_range_classification_is_inclusive() {
    assert_eq!(Eval::from_raw(Eval::CP_MIN), Eval::Cp(Eval::CP_MIN));
    assert_eq!(Eval::from_raw(Eval::CP_MAX), Eval::Cp(Eval::CP_MAX));
    assert!(Eval::from_raw(Eval::CP_MAX + 1).is_special());
    assert_eq!(Eval::from_cp(32_001), None);
    assert_eq!(Eval::from_i32(i32::MAX), Eval::Special(i16::MAX));
}

#[test]
fn ordering_follows_the_numeric_value_across_variants() {
    assert!(Eval::Special(i16::MIN) < Eval::Cp(Eval::CP_MIN));
    assert!(Eval::Cp(Eval::CP_MAX) < Eval::Special(i16::MAX));
}

#[test]
fn result_raw_values_and_classification() {
    let raw_values = [
        (GameResult::BlackWin, 0),
        (GameResult::WhiteWin, 1),
        (GameResult::DrawByRepetition, 2),
        (GameResult::Error, 3),
        (GameResult::BlackWinByDeclaration, 4),
        (GameResult::WhiteWinByDeclaration, 5),
        (GameResult::DrawByMaxPlies, 6),
        (GameResult::Invalid, 7),
        (GameResult::BlackWinByForfeit, 8),
        (GameResult::WhiteWinByForfeit, 9),
        (GameResult::DrawByImpasse, 10),
        (GameResult::Paused, 11),
        (GameResult::BlackWinByIllegalMove, 12),
        (GameResult::WhiteWinByIllegalMove, 13),
        (GameResult::BlackWinByTimeout, 16),
        (GameResult::WhiteWinByTimeout, 17),
        (GameResult::BlackWinByTryRule, 20),
        (GameResult::WhiteWinByTryRule, 21),
    ];
    for (result, expected) in raw_values {
        assert_eq!(result.to_u8(), expected);
    }
    assert_eq!(GameResult::WhiteWinByTryRule.to_score(), -1);
    assert!(GameResult::DrawByImpasse.is_draw());
    assert_eq!(GameResult::BlackWinByForfeit.winner_color(), Some(Color::BLACK));
}

#[test]
fn bits_exposes_the_packed_raw_value() {
    let hand = Hand::ZERO().checked_add(HandPiece::PAWN(), 3).unwrap();
    assert_eq!(hand.bits(), hand.raw());
    assert_eq!(Hand::from_raw(hand.bits()), hand);
}

#[test]
fn raw_piece_and_overflow_contracts() {
    assert!(HandPiece::new(6).is_valid());
    assert!(!HandPiece::new(7).is_valid());
    let hand = Hand::from_bits(1);
    assert!(hand.has(PieceType::PAWN()));
    assert!(!hand.has_overflow());
    assert!(Hand::from_bits(HAND_BORROW_MASK).has_overflow());
}

#[test]
fn promoted_pieces_are_not_hand_pieces() {
    let hand = Hand::ZERO().checked_add(HandPiece::PAWN(), 1).unwrap();
    assert_eq!(HandPiece::from_piece_type(PieceType::PRO_PAWN()), None);
    assert!(hand.has(PieceType::PAWN()));
    assert!(!hand.has(PieceType::PRO_PAWN()));
}

#[test]
fn piece_type_raw_and_minor_contracts() {
    let minor = [2, 3, 4, 7, 9, 10, 11, 12];
    for raw in 0..PieceType::COUNT as i8 {
        assert_eq!(PieceType::new(raw).is_minor(), minor.contains(&raw));
    }
    assert_eq!(PieceType::new(-1).raw(), -1);
    assert!(!PieceType::new(-1).is_valid());
}

#[test]
fn piece_helpers_preserve_color_and_base_type() {
    assert_eq!(Piece::W_HORSE().base_piece_type(), PieceType::BISHOP());
    assert_eq!(Piece::W_HORSE().unpromoted_piece(), Piece::W_BISHOP());
    assert!(Piece::B_ROOK().is_long_range());
    assert!(!Piece::new(16).is_valid());
}

#[test]
fn piece_from_str_preserves_color_and_promotion() {
    assert_eq!(Piece::from_str("P"), Ok(Piece::B_PAWN()));
    assert_eq!(Piece::from_str("p"), Ok(Piece::W_PAWN()));
    assert_eq!(Piece::from_str("+B"), Ok(Piece::B_HORSE()));
    assert_eq!(Piece::from_str("+r"), Ok(Piece::W_DRAGON()));
    assert!(Piece::from_str("").is_err());
    assert!(Piece::from_str("PP").is_err());
    assert!(Piece::from_str("++P").is_err());
}

#[test]
fn public_piece_type_iterator_excludes_internal_gold_like() {
    let types: Vec<_> = PieceType::iter().collect();
    assert_eq!(types.len(), 15);
    assert_eq!(types.first(), Some(&PieceType::NONE()));
    assert_eq!(types.last(), Some(&PieceType::DRAGON()));
    assert!(!types.contains(&PieceType::GOLD_LIKE()));
    assert_eq!(
        PieceType::raw_pieces().collect::<Vec<_>>(),
        vec![
            PieceType::PAWN(),
            PieceType::LANCE(),
            PieceType::KNIGHT(),
            PieceType::SILVER(),
            PieceType::BISHOP(),
            PieceType::ROOK(),
            PieceType::GOLD(),
            PieceType::KING(),
        ]
    );
    assert_eq!(
        PieceType::hand_pieces().collect::<Vec<_>>(),
        vec![
            PieceType::PAWN(),
            PieceType::LANCE(),
            PieceType::KNIGHT(),
            PieceType::SILVER(),
            PieceType::BISHOP(),
            PieceType::ROOK(),
            PieceType::GOLD(),
        ]
    );
}

#[test]
fn test_repetition_state_derives() {
    let state = RepetitionState::Win;
    let cloned = state;
    assert_eq!(state, cloned);

    let state2 = RepetitionState::Lose;
    let copied = state2;
    assert_eq!(state2, copied);

    assert_eq!(RepetitionState::NoRepetition, RepetitionState::NoRepetition);
    assert_ne!(RepetitionState::Win, RepetitionState::Lose);

    let debug_str = format!("{:?}", RepetitionState::Draw);
    assert_eq!(debug_str, "Draw");
}

#[test]
fn test_all_states_are_unique() {
    let states = [
        RepetitionState::NoRepetition,
        RepetitionState::Win,
        RepetitionState::Lose,
        RepetitionState::Draw,
        RepetitionState::Superior,
        RepetitionState::Inferior,
    ];
    for (i, state1) in states.iter().enumerate() {
        for (j, state2) in states.iter().enumerate() {
            if i == j {
                assert_eq!(state1, state2);
            } else {
                assert_ne!(state1, state2);
            }
        }
    }
}

#[test]
fn test_default_is_none() {
    let state = RepetitionState::default();
    assert_eq!(state, RepetitionState::NoRepetition);
}

#[test]
fn test_repetition_state_usi_string() {
    assert_eq!(RepetitionState::NoRepetition.to_usi(), "rep_none");
    assert_eq!(RepetitionState::Win.to_usi(), "rep_win");
    assert_eq!(RepetitionState::Lose.to_usi(), "rep_lose");
    assert_eq!(RepetitionState::Draw.to_usi(), "rep_draw");
    assert_eq!(RepetitionState::Superior.to_usi(), "rep_sup");
    assert_eq!(RepetitionState::Inferior.to_usi(), "rep_inf");
}

#[test]
fn usi_and_file_mirror_are_fallible_and_symmetric() {
    let sq_11 = Square::new(0);
    let sq_91 = Square::new(72);
    assert_eq!(Square::from_usi("1a"), Some(sq_11));
    assert_eq!(Square::from_usi("9a"), Some(sq_91));
    assert_eq!(Square::from_usi("0a"), None);
    assert_eq!(sq_11.mirror_file(), sq_91);
    assert_eq!(sq_11.mirror_file().mirror_file(), sq_11);
}

#[test]
fn iterator_visits_all_valid_squares_in_raw_order() {
    let squares: Vec<_> = Square::iter().collect();
    assert_eq!(squares.len(), Square::COUNT);
    assert_eq!(squares.first(), Some(&Square::new(0)));
    assert_eq!(squares.last(), Some(&Square::new(80)));
    assert!(squares.iter().enumerate().all(|(raw, square)| square.raw() == raw as i8));
}

#[test]
fn from_str_accepts_none_and_reports_python_compatible_errors() {
    assert_eq!(Square::from_str("none"), Ok(Square::NONE()));
    assert_eq!(Square::from_str("1j"), Err("invalid USI square"));
}

#[test]
fn coordinate_lookups_match_signed_arithmetic_for_every_raw_value() {
    for raw in i8::MIN..=i8::MAX {
        let square = Square::new(raw);
        assert_eq!(square.file().raw(), raw / 9, "raw file {raw}");
        assert_eq!(square.rank().raw(), raw % 9, "raw rank {raw}");
    }
}

#[test]
fn all_squares_preserve_file_major_mapping() {
    for square in Square::iter() {
        assert_eq!(square.raw(), square.file().raw() * 9 + square.rank().raw());
        assert_eq!(Square::from_file_rank(square.file(), square.rank()), square);
    }
}

#[test]
fn move32_from_to_index_includes_drop_rows_and_public_accessors() {
    let from = Square::from_usi("7g").expect("valid square");
    let to = Square::from_usi("5e").expect("valid square");
    let normal = Move32::normal(from, to, Piece::B_PAWN());
    let drop = Move32::drop(PieceType::GOLD(), to, Color::BLACK);

    assert_eq!(FROM_TO_TABLE_SIZE, 88 * Square::COUNT);
    assert_eq!(Move32::FROM_TO_TABLE_SIZE, FROM_TO_TABLE_SIZE);
    assert_eq!(normal.from_index(), from.to_index());
    assert_eq!(normal.to_index(), to.to_index());
    assert_eq!(normal.from_to_index(), Some(from.to_index() * Square::COUNT + to.to_index()));
    assert_eq!(drop.from_index(), PieceType::GOLD().raw() as usize);
    assert_eq!(drop.to_index(), to.to_index());
    assert_eq!(drop.from_to_index(), Some((Square::COUNT + 6) * Square::COUNT + to.to_index()));
    assert_eq!(MoveType::from_bits(0), MoveType::Normal);
    assert_eq!(MoveType::from_bits(Move::MOVE_PROMOTE), MoveType::Promotion);
    assert_eq!(MoveType::from_bits(Move::MOVE_DROP), MoveType::Drop);
}

#[test]
fn move32_metadata_uses_a_compact_optional_index_sentinel() {
    let metadata = Move32Metadata::new(Piece::B_PAWN(), Piece::NONE(), Some(123));
    let absent = Move32Metadata::with_from_to_index(
        Piece::B_PAWN(),
        Piece::NONE(),
        false,
        false,
        false,
        None,
    );
    let out_of_range = Move32Metadata::new(Piece::B_PAWN(), Piece::NONE(), Some(FROM_TO_TABLE_SIZE));

    assert!(core::mem::size_of::<Move32Metadata>() <= 8);
    assert_eq!(metadata.from_to_index(), Some(123));
    assert_eq!(absent.from_to_index(), None);
    assert_eq!(out_of_range.from_to_index(), None);
}

#[test]
fn apery_rejects_and_roundtrips_malformed_drop_promotion_bits() {
    let to = Square::from_usi("5e").expect("valid square");
    let malformed = AperyMove::from_raw(
        AperyMove::from_move(Move::drop(PieceType::PAWN(), to)).raw() | (1 << 14),
    );

    assert!(malformed.is_drop());
    assert!(malformed.is_promotion());
    assert!(!malformed.is_normal());
    assert!(!malformed.to_move().is_normal());
    assert_eq!(AperyMove::from_move(malformed.to_move()).raw(), malformed.raw());
    assert_eq!(malformed.to_usi(), "none");
}

#[test]
fn apery_normal_promotion_translates_the_promotion_bit() {
    let from = Square::from_usi("7c").expect("valid square");
    let to = Square::from_usi("7b").expect("valid square");
    let promotion = Move::promotion(from, to);
    let apery = AperyMove::from_move(promotion);

    assert_eq!(apery.raw(), (promotion.raw() & !(Move::MOVE_DROP | Move::MOVE_PROMOTE)) | (1 << 14));
    assert!(apery.is_promotion());
    assert_eq!(apery.move_type(), MoveType::Promotion);
    assert!(apery.is_normal());
    assert_eq!(apery.to_move(), promotion);
    assert_eq!(AperyMove::from_move(apery.to_move()), apery);
}

#[test]
fn from_usi_rejects_trailing_tokens_and_non_ascii() {
    assert_eq!(Move::from_usi("end"), Some(Move::MOVE_END()));
    assert_eq!(Move::from_usi("0000"), Some(Move::MOVE_NULL()));
    assert_eq!(Move::from_usi("7g7f 3c3d"), None);
    assert_eq!(Move::from_usi("P*5e\n"), None);
    assert_eq!(Move::from_usi("７g7f"), None);
}

#[test]
fn notation_is_a_compact_copy_value() {
    assert_eq!(core::mem::size_of::<Ki2Notation>(), 4);
}

#[test]
fn same_destination_padding_is_canonicalized() {
    let padded: Ki2Notation = "△同　角".parse().expect("valid notation");
    let unpadded: Ki2Notation = "△同角".parse().expect("valid notation");

    assert_eq!(padded, unpadded);
    assert_eq!(padded.to_string(), "△同　角");
}

#[test]
fn invalid_notations_are_rejected() {
    for text in ["７六歩", "▲7六歩", "▲７6歩", "▲７六王", "▲７六金打成", "▲７六と打", ""] {
        assert_eq!(text.parse::<Ki2Notation>(), Err(ParseKi2NotationError), "{text}");
    }
}

#[test]
fn hash_collections_work_with_hand_move_and_square() {
    let hand = Hand::ZERO().checked_add(HandPiece::PAWN(), 2).expect("valid pawn count");
    let mut hand_cache = HashMap::new();
    hand_cache.insert(hand, 123_i32);
    assert_eq!(hand_cache.get(&hand), Some(&123));

    let from = Square::from_file_rank(File::FILE_7(), Rank::RANK_7());
    let to = Square::from_file_rank(File::FILE_7(), Rank::RANK_6());
    let mv16 = Move::normal(from, to);
    let mv32 = Move32::normal(from, to, Piece::B_PAWN());

    let mut move16_cache = HashMap::new();
    move16_cache.insert(mv16, 1_u8);
    assert_eq!(move16_cache.get(&mv16), Some(&1));

    let mut move32_cache = HashMap::new();
    move32_cache.insert(mv32, 2_u8);
    assert_eq!(move32_cache.get(&mv32), Some(&2));

    let mut squares = HashSet::new();
    squares.insert(to);
    assert!(squares.contains(&to));
}

#[test]
fn move_usi_text_reads_back() {
    for text in ["7g7f", "8h2b+", "P*5e", "G*1a", "none", "resign", "win", "end"] {
        let mv = Move::from_usi(text).expect("valid move");
        assert_eq!(mv.to_usi(), text);
    }
    assert_eq!(Move::from_usi("null").unwrap().to_usi(), "null");
    assert_eq!(Move::from_usi("p*5e"), Move::from_usi("P*5e"));
    assert_eq!(Move::from_usi("7g7g"), None);
    assert_eq!(Move::from_usi("K*5e"), None);
    assert_eq!(Move::from_raw(0x7fff).to_usi(), "none");
    assert_eq!(MOVE_NONE().raw(), 0);
    assert_eq!(MOVE_NULL().to_move(), Move::MOVE_NULL());
}

#[test]
fn move_fields_have_exact_bit_positions() {
    let from = Square::from_usi("7g").unwrap();
    let to = Square::from_usi("7f").unwrap();
    let mv = Move::normal(from, to);
    assert_eq!(mv.raw(), ((60u16) << 7) | 59);
    assert_eq!(mv.from_sq(), from);
    assert_eq!(mv.to_sq(), to);
    let drop = Move::drop(PieceType::ROOK(), to);
    assert_eq!(drop.raw(), (6u16 << 7) | 59 | Move::MOVE_DROP);
    assert_eq!(drop.dropped_piece(), Some(PieceType::ROOK()));
    assert_eq!(Move::normal(from, to).dropped_piece(), None);
}

#[test]
fn move32_keeps_the_piece_and_writes_csa() {
    let from = Square::from_usi("7g").unwrap();
    let to = Square::from_usi("7f").unwrap();
    let mv = Move32::normal(from, to, Piece::B_PAWN());
    assert_eq!(mv.raw(), (1u32 << 16) | (Move::normal(from, to).raw() as u32));
    assert_eq!(mv.piece_after_move(), Piece::B_PAWN());
    assert_eq!(mv.to_move(), Move::normal(from, to));
    assert_eq!(mv.to_csa(), Some("+7776FU".to_string()));
    let drop = Move32::drop(PieceType::SILVER(), Square::from_usi("3d").unwrap(), Color::WHITE);
    assert_eq!(drop.to_csa(), Some("-0034GI".to_string()));
    let promo = Move32::promotion(Square::from_usi("8h").unwrap(), Square::from_usi("2b").unwrap(), Piece::B_BISHOP());
    assert_eq!(promo.to_csa(), Some("+8822UM".to_string()));
    assert_eq!(Move32::from_raw(Move::normal(from, to).raw() as u32).to_csa(), None);
    assert_eq!(Move32::from(Move::normal(from, to)).to_move(), Move::normal(from, to));
    assert_eq!(Move::from(mv), Move::normal(from, to));
}

#[test]
fn apery32_fields_decode() {
    let a = AperyMove32::from_raw((3u32 << 20) | (5u32 << 16) | AperyMove::from_move(Move::promotion(
        Square::from_usi("8h").unwrap(),
        Square::from_usi("2b").unwrap(),
    )).raw() as u32);
    assert!(a.is_capture());
    assert_eq!(a.piece_type_before(), PieceType::BISHOP());
    assert_eq!(a.piece_type_after(), PieceType::HORSE());
    assert_eq!(a.captured_piece_type(), PieceType::KNIGHT());
    assert_eq!(a.to_usi(), "8h2b+");
}

#[test]
fn bitboard_square_operations() {
    let mut b = Bitboard::EMPTY();
    assert!(b.is_empty());
    b.set(Square::new(5));
    b.set(Square::new(70));
    b.set(Square::new(80));
    assert!(b.test(Square::new(70)));
    assert!(!b.test(Square::new(6)));
    assert_eq!(b.count(), 3);
    assert!(b.more_than_one());
    assert_eq!(b.lsb(), Some(Square::new(5)));
    assert_eq!(b.msb(), Some(Square::new(80)));
    let mut it: BitIter = b.iter();
    assert_eq!(it.next(), Some(Square::new(5)));
    assert_eq!(it.next(), Some(Square::new(70)));
    assert_eq!(it.next(), Some(Square::new(80)));
    assert_eq!(it.next(), None);
    assert_eq!(b.pop_lsb(), Some(Square::new(5)));
    b.clear(Square::new(70));
    assert_eq!(b.count(), 1);
    assert!(!b.more_than_one());
    assert_eq!(Bitboard::ALL().count(), 81);
    assert_eq!(Bitboard::ALL().not(), Bitboard::EMPTY());
    assert_eq!(!Bitboard::EMPTY(), Bitboard::ALL());
}

#[test]
fn bitboard_masks_and_symmetries() {
    let file7 = Bitboard::file_mask(File::FILE_7());
    assert_eq!(file7.count(), 9);
    assert!(file7.test(Square::new(54)) && file7.test(Square::new(62)));
    let rank3 = Bitboard::rank_mask(Rank::RANK_3());
    assert_eq!((file7 & rank3).count(), 1);
    assert!((file7 & rank3).test(Square::new(56)));
    assert_eq!(Bitboard::promotion_zone(Color::Black).count(), 27);
    assert!(Bitboard::promotion_zone(Color::White).test(Square::new(8)));
    let b = Bitboard::from_square(Square::new(0));
    assert_eq!(b.flip(), Bitboard::from_square(Square::new(80)));
    assert_eq!(b.mirror_file(), Bitboard::from_square(Square::new(72)));
    assert_eq!(file7.flip().flip(), file7);
    assert_eq!(Bitboard::from_packed_bits(b.packed_bits()), b);
    assert_eq!(Bitboard::from_packed_bits(1u128 << 80).parts(), [0, 1 << 17]);
    assert_eq!(Bitboard::from_parts([u64::MAX, u64::MAX]), Bitboard::ALL());
    assert!(file7.intersects(rank3));
    assert!(!file7.intersects(Bitboard::file_mask(File::FILE_1())));
    assert_eq!(Bitboard::EMPTY().decrement().parts(), [u64::MAX, u64::MAX]);
    assert_eq!(Bitboard::from_parts([0, 1]).decrement().parts(), [u64::MAX, 0]);
    let r = Bitboard::from_parts([0x0102_0304_0506_0708, 0x3_0201]).byte_reverse();
    assert_eq!(r.parts(), [0x0102_0300_0000_0000, 0x0807_0605_0403_0201]);
    assert!(Bitboard::from_square(Square::new(0)).to_string().starts_with("Bitboard(\n  000000000\n"));
    assert!(Bitboard::from_square(Square::new(0)).to_string().ends_with("  000000001\n)"));
    assert!(Bitboard::from_square(Square::new(8)).to_string().starts_with("Bitboard(\n  000000001\n"));
}
