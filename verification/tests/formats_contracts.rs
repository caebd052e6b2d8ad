use std::mem::size_of;

use rsshogi::board::HuffmanCodedPos;
use rsshogi::records::formats::hcpe::{
    decode_entries, decode_entry, encode_entry, write_entries, HcpeError, HcpeGameResult, HuffmanCodedPosAndEval,
    HCPE_ENTRY_BYTES,
};
use rsshogi::records::formats::pack::{
    decode_game, encode_game, PackEndReason, PackError, PackGame, PackGameResult, PackStartPosition,
};
use rsshogi::records::formats::sbinpack::{
    decode_score_delta_bounded, decode_uleb128_u32_bounded, SbinpackError, SbinpackMetadata,
    SBINPACK_MAX_METADATA_BYTES,
};
use rsshogi::types::moves::AperyMove;
use rsshogi::types::{GameResult, Move};

/// A fixed 32-byte position code standing in for the initial position.
fn sample_hcp() -> HuffmanCodedPos {
    let mut data = [0u8; 32];
    for (i, b) in data.iter_mut().enumerate() {
        *b = (i as u8).wrapping_mul(37).wrapping_add(11);
    }
    HuffmanCodedPos { data }
}

fn apery(usi: &str) -> AperyMove {
    AperyMove::from_move(Move::from_usi(usi).unwrap())
}

#[test]
fn test_hcpe_layout_and_roundtrip() {
    assert_eq!(size_of::<HuffmanCodedPosAndEval>(), HCPE_ENTRY_BYTES);

    let entry = HuffmanCodedPosAndEval::new(sample_hcp(), 123, apery("7g7f"), HcpeGameResult::BlackWin);
    let encoded = encode_entry(&entry);
    let decoded = decode_entry(&encoded).unwrap();
    assert_eq!(decoded, entry);
}

#[test]
fn test_hcpe_io_helpers_roundtrip() {
    let entries = vec![
        HuffmanCodedPosAndEval::new(sample_hcp(), 1, apery("7g7f"), HcpeGameResult::Draw),
        HuffmanCodedPosAndEval::new(sample_hcp(), -2, apery("2g2f"), HcpeGameResult::WhiteWin),
    ];
    let mut bytes = Vec::new();
    write_entries(&mut bytes, &entries).unwrap();
    let decoded = decode_entries(&mut bytes.as_slice()).unwrap();
    assert_eq!(decoded, entries);
}

#[test]
fn test_hcpe_game_result_rejects_unsupported_values() {
    assert!(HcpeGameResult::try_from(GameResult::BlackWinByDeclaration).is_err());
    let mut bytes = [0u8; HCPE_ENTRY_BYTES];
    bytes[36] = 9;
    assert!(decode_entry(&bytes).is_err());
}

#[test]
fn hcpe_entry_bytes_follow_the_declared_layout() {
    let entry = HuffmanCodedPosAndEval::new(sample_hcp(), -2, AperyMove::from_raw(0x1e3b), HcpeGameResult::WhiteWin);
    let encoded = encode_entry(&entry);
    assert_eq!(&encoded[..32], &sample_hcp().data[..]);
    assert_eq!(&encoded[32..34], &[0xfe, 0xff]);
    assert_eq!(&encoded[34..36], &[0x3b, 0x1e]);
    assert_eq!(encoded[36], 2);
    assert_eq!(encoded[37], 0);
    assert!(decode_entry(&encoded[..37]).is_err());
}

#[test]
fn empty_startpos_game_has_the_declared_exact_bytes() {
    let game = PackGame {
        start_position: PackStartPosition::Startpos,
        plies: Vec::new(),
        result: PackGameResult::BlackWin,
        end_reason: PackEndReason::Resign,
    };

    let expected = [0x01, 0x81, 0x00, 0x00];
    assert_eq!(encode_game(&game), expected);

    let (decoded, consumed) = decode_game(&expected).expect("declared PACK vector must decode");
    assert_eq!(decoded, game);
    assert_eq!(consumed, expected.len());
}

#[test]
fn games_are_self_delimiting_and_concatenable() {
    let first = PackGame {
        start_position: PackStartPosition::Startpos,
        plies: Vec::new(),
        result: PackGameResult::Draw,
        end_reason: PackEndReason::RepetitionDraw,
    };
    let second = PackGame {
        start_position: PackStartPosition::Startpos,
        plies: Vec::new(),
        result: PackGameResult::WhiteWin,
        end_reason: PackEndReason::TimeUp,
    };

    let mut bytes = encode_game(&first);
    bytes.extend_from_slice(&encode_game(&second));

    let (decoded_first, consumed) = decode_game(&bytes).expect("first game must decode");
    let (decoded_second, second_consumed) =
        decode_game(&bytes[consumed..]).expect("second game must decode");
    assert_eq!(decoded_first, first);
    assert_eq!(decoded_second, second);
    assert_eq!(consumed + second_consumed, bytes.len());
}

#[test]
fn malformed_terminal_marker_is_rejected() {
    let invalid = [0x01, 0x03, 0x00, 0x00];
    assert!(decode_game(&invalid).is_err());
}

#[test]
fn pack_rejects_structurally_invalid_raw_moves() {
    for raw in [0x0204_u16, 0xc081_u16, 0x6880_u16, 0x2c00_u16] {
        let bytes = [1, raw as u8, (raw >> 8) as u8, 0, 0, 0, 0, 0];
        assert!(decode_game(&bytes).is_err(), "raw {raw:#06x} must be rejected");
    }
}

#[test]
fn pack_accepts_structurally_valid_apery_promotion() {
    let bytes = [1, 0x80, 0x48, 0, 0, 0x81, 0, 0];
    let (game, consumed) = decode_game(&bytes).expect("Apery promotion must decode");
    assert_eq!(game.plies[0].mv.raw(), 0x4880);
    assert_eq!(consumed, bytes.len());
}

#[test]
fn pack_rejects_inconsistent_terminal_outcome_during_decode() {
    assert!(matches!(
        decode_game(&[1, 0, 0, 0]),
        Err(PackError::InconsistentOutcome { result: PackGameResult::Draw, .. })
    ));
}

#[test]
fn public_delta_decoders_respect_input_bounds() {
    let mut offset = 0;
    assert_eq!(decode_uleb128_u32_bounded(&[0xac, 0x02], &mut offset, usize::MAX), Some(300));
    assert_eq!(offset, 2);

    let mut offset = 0;
    assert_eq!(decode_score_delta_bounded(&[9], &mut offset, 1), Some(-5));
    assert_eq!(offset, 1);

    let mut offset = 0;
    assert_eq!(decode_uleb128_u32_bounded(&[0x80], &mut offset, 1), None);
    assert_eq!(offset, 1);
}

#[test]
fn metadata_rejects_too_large_payload() {
    let err = SbinpackMetadata::new(vec![0; SBINPACK_MAX_METADATA_BYTES + 1])
        .expect_err("too large metadata");
    assert!(matches!(
        err,
        SbinpackError::MetadataTooLarge {
            len,
            max: SBINPACK_MAX_METADATA_BYTES
        } if len == SBINPACK_MAX_METADATA_BYTES + 1
    ));
}

use rsshogi::board::PackedSfen;
use rsshogi::records::formats::sazpack::{deserialize_chunk, serialize_chunk, SazError, SazGame};
use rsshogi::records::formats::sazpack_selfplay::{
    deserialize_selfplay_chunk, deserialize_selfplay_chunk_indexed, serialize_selfplay_chunk, SazOutcomeBound,
    SazSelfplayError, SazSelfplayGame, SazSelfplayPolicyEntry, SazSelfplayPosition, SazTerminationReason, SazWdl,
};
use rsshogi::types::EnteringKingRule;

/// A fixed 32-byte packed SFEN standing in for the initial position.
fn sample_packed_sfen() -> PackedSfen {
    let mut data = [0u8; 32];
    for (i, b) in data.iter_mut().enumerate() {
        *b = (i as u8).wrapping_mul(29).wrapping_add(3);
    }
    PackedSfen { data }
}

fn fixture() -> SazSelfplayGame {
    SazSelfplayGame {
        stem_packed_sfen: sample_packed_sfen(),
        game_result: GameResult::DrawByMaxPlies,
        termination_reason: SazTerminationReason::MaxGamePlies,
        entering_king_rule: EnteringKingRule::Point27,
        positions: vec![SazSelfplayPosition {
            played: Move::from_usi("7g7f").unwrap(),
            root_wdl: SazWdl { win: 20_000, draw: 25_535, loss: 20_000 },
            outcome_wdl: SazWdl { win: 0, draw: u16::MAX, loss: 0 },
            plies_left: 1,
            requested_visits: 800,
            target_weight_milli: 1000,
            exploration_flags: 3,
            mate: None,
            policy: vec![
                SazSelfplayPolicyEntry {
                    mv: Move::from_usi("7g7f").unwrap(),
                    prior: 50_000,
                    visits_before: 2,
                    visits_after: 500,
                    lower: SazOutcomeBound::Loss,
                    upper: SazOutcomeBound::Win,
                },
                SazSelfplayPolicyEntry {
                    mv: Move::from_usi("2g2f").unwrap(),
                    prior: 15_535,
                    visits_before: 0,
                    visits_after: 300,
                    lower: SazOutcomeBound::Draw,
                    upper: SazOutcomeBound::Win,
                },
            ],
        }],
    }
}

const SAZ_HEADER_LEN: usize = 10;
const SAZ_POSITION_FIXED_LEN: usize = 24;

#[test]
fn selfplay_roundtrip_preserves_typed_fields() {
    let game = fixture();
    let bytes = serialize_selfplay_chunk(std::slice::from_ref(&game)).unwrap();
    assert_eq!(&bytes[..4], b"SAZ2");
    assert_eq!(deserialize_selfplay_chunk(&bytes).unwrap(), vec![game]);
}

#[test]
fn indexed_decode_preserves_exact_game_payload_ranges() {
    let games = [fixture(), fixture()];
    let bytes = serialize_selfplay_chunk(&games).unwrap();
    let indexed = deserialize_selfplay_chunk_indexed(&bytes).unwrap();
    assert_eq!(indexed.len(), 2);
    assert_eq!(indexed[0].game, games[0]);
    assert_eq!(indexed[1].game, games[1]);
    assert_eq!(indexed[0].payload_range.start, SAZ_HEADER_LEN);
    assert_eq!(indexed[0].payload_range.end, indexed[1].payload_range.start);
    assert_eq!(indexed[1].payload_range.end, bytes.len());
    assert!(!bytes[indexed[0].payload_range.clone()].is_empty());
}

#[test]
fn selfplay_rejects_decreasing_visits() {
    let mut game = fixture();
    game.positions[0].policy[0].visits_after = 1;
    assert_eq!(serialize_selfplay_chunk(&[game]), Err(SazSelfplayError::DecreasingVisits));
}

#[test]
fn selfplay_rejects_every_truncated_prefix_without_panicking() {
    let bytes = serialize_selfplay_chunk(&[fixture()]).unwrap();
    for end in 0..bytes.len() {
        assert!(deserialize_selfplay_chunk(&bytes[..end]).is_err(), "accepted prefix {end}");
    }
}

#[test]
fn selfplay_rejects_unknown_header_flags_and_mate_tag() {
    let mut bytes = serialize_selfplay_chunk(&[fixture()]).unwrap();
    bytes[5] = 1;
    assert_eq!(deserialize_selfplay_chunk(&bytes), Err(SazSelfplayError::UnsupportedFlags(1)));

    bytes[5] = 0;
    let position_start = SAZ_HEADER_LEN + 32 + 3 + 1;
    let mate_tag = position_start + SAZ_POSITION_FIXED_LEN - 1;
    bytes[mate_tag] = 2;
    assert_eq!(deserialize_selfplay_chunk(&bytes), Err(SazSelfplayError::InvalidMateTag(2)));
}

#[test]
fn selfplay_chunk_has_the_declared_layout() {
    let mut game = fixture();
    game.positions[0].mate = Some(-3);
    let bytes = serialize_selfplay_chunk(std::slice::from_ref(&game)).unwrap();
    assert_eq!(&bytes[..6], &[b'S', b'A', b'Z', b'2', 1, 0]);
    let payload_len = u32::from_le_bytes([bytes[6], bytes[7], bytes[8], bytes[9]]) as usize;
    assert_eq!(payload_len + SAZ_HEADER_LEN, bytes.len());
    assert_eq!(&bytes[10..42], &sample_packed_sfen().data[..]);
    // Result, termination reason, entering-king rule, one position.
    assert_eq!(&bytes[42..46], &[GameResult::DrawByMaxPlies.to_u8(), 7, 3, 1]);
    // Root distribution 20000, 25535, 20000.
    assert_eq!(&bytes[48..54], &[0x20, 0x4e, 0xbf, 0x63, 0x20, 0x4e]);
    // Requested visits 800, target weight 1000, flags 3, mate tag 1 and -3.
    assert_eq!(&bytes[62..66], &[0x20, 0x03, 0, 0]);
    assert_eq!(&bytes[66..72], &[0xe8, 0x03, 3, 1, 0xfd, 0xff]);
    // Two policy entries; the first has ULEB128 visits 2 and 500.
    assert_eq!(bytes[72], 2);
    assert_eq!(&bytes[77..82], &[2, 0xf4, 0x03, 0, 2]);
    assert_eq!(deserialize_chunk(&bytes).unwrap(), vec![game]);
}

#[test]
fn selfplay_rejects_bad_distributions_and_codes() {
    let mut game = fixture();
    game.positions[0].root_wdl.win += 1;
    assert_eq!(serialize_selfplay_chunk(&[game]), Err(SazSelfplayError::InvalidDistributionSum));

    let mut game = fixture();
    game.positions[0].policy[1].prior -= 1;
    assert_eq!(serialize_chunk(&[game]), Err(SazError::InvalidDistributionSum));

    let bytes = serialize_selfplay_chunk(&[fixture()]).unwrap();
    let mut bad = bytes.clone();
    bad[0] = b'X';
    assert_eq!(deserialize_selfplay_chunk(&bad), Err(SazSelfplayError::InvalidMagic));
    let mut bad = bytes.clone();
    bad[4] = 2;
    assert_eq!(deserialize_selfplay_chunk(&bad), Err(SazSelfplayError::UnsupportedVersion(2)));
    let mut bad = bytes.clone();
    bad.push(0);
    assert_eq!(deserialize_selfplay_chunk(&bad), Err(SazSelfplayError::TrailingBytes));
    let mut bad = bytes.clone();
    bad[42] = 14;
    assert_eq!(deserialize_selfplay_chunk(&bad), Err(SazSelfplayError::InvalidGameResult(14)));
    let mut bad = bytes.clone();
    bad[43] = 8;
    assert_eq!(deserialize_selfplay_chunk(&bad), Err(SazSelfplayError::InvalidTerminationReason(8)));
    let mut bad = bytes.clone();
    bad[44] = 7;
    assert_eq!(deserialize_selfplay_chunk(&bad), Err(SazSelfplayError::InvalidEnteringKingRule(7)));
    let mut bad = bytes.clone();
    bad[78] = 3;
    assert_eq!(deserialize_selfplay_chunk(&bad), Err(SazSelfplayError::InvalidOutcomeBound(3)));
    let empty: [SazGame; 0] = [];
    let chunk = serialize_selfplay_chunk(&empty).unwrap();
    assert_eq!(chunk, vec![b'S', b'A', b'Z', b'2', 1, 0, 0, 0, 0, 0]);
    assert_eq!(deserialize_selfplay_chunk(&chunk).unwrap(), Vec::<SazSelfplayGame>::new());
}

#[test]
fn hcpe_partial_trailing_entry_is_refused_with_its_length() {
    let entries = vec![HuffmanCodedPosAndEval::new(sample_hcp(), 5, apery("7g7f"), HcpeGameResult::BlackWin)];
    let mut bytes = Vec::new();
    write_entries(&mut bytes, &entries).unwrap();
    assert_eq!(bytes.len(), HCPE_ENTRY_BYTES);
    for k in [1usize, 2, 37] {
        let mut with_tail = bytes.clone();
        with_tail.extend(std::iter::repeat(0u8).take(k));
        assert_eq!(decode_entries(&mut with_tail.as_slice()), Err(HcpeError::InvalidLength(k)));
    }
    let empty: Vec<u8> = Vec::new();
    assert_eq!(decode_entries(&mut empty.as_slice()), Ok(vec![]));
}
