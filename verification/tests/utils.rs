use rs_modbus::utils::{
    check_range, crc, crc_with_seed, gen_connection_id, lrc, pack_coils, pack_registers,
    parse_coils, parse_registers, predict_frame, predict_rtu_frame_length, PredictResult,
};
use std::time::{SystemTime, UNIX_EPOCH};

#[test]
fn test_crc_known_values() {
    // Test with empty data
    assert_eq!(crc(&[]), 0xffff);
    // Test with single byte: TABLE[0xFE] ^ 0x00FF = 0x8081 ^ 0x00FF = 0x807E
    assert_eq!(crc(&[0x01]), 0x807e);
    // Test self-consistency: CRC of [data + crc(data)] should match
    let data = [0x01, 0x03, 0x00, 0x00, 0x00, 0x0a];
    let result = crc(&data);
    let frame_crc = result.to_le_bytes();
    let mut full_frame = data.to_vec();
    full_frame.extend_from_slice(&frame_crc);
    assert_eq!(crc(&full_frame[..full_frame.len() - 2]), result);
}

#[test]
fn test_crc_with_seed_chains_equivalently() {
    let data = [0x01u8, 0x03, 0x00, 0x00, 0x00, 0x0a, 0x77, 0xff];
    let full = crc(&data);
    for split in 0..=data.len() {
        let (left, right) = data.split_at(split);
        let chained = crc_with_seed(right, crc(left));
        assert_eq!(chained, full, "split={split}");
    }
    // crc() must equal crc_with_seed(.., 0xffff).
    assert_eq!(crc(&data), crc_with_seed(&data, 0xffff));
}

#[test]
fn test_lrc_known_values() {
    // Empty data
    assert_eq!(lrc(&[]), 0x00);
    // Single byte: ~0x01 + 1 = 0xFF
    assert_eq!(lrc(&[0x01]), 0xff);
    // Two bytes: (0x01 + 0x03) = 0x04, ~0x04 + 1 = 0xFC
    assert_eq!(lrc(&[0x01, 0x03]), 0xfc);
}

#[test]
fn test_check_range_single() {
    assert!(check_range(&[5], &[(0, 10)]));
    assert!(!check_range(&[15], &[(0, 10)]));
    assert!(check_range(&[5, 8], &[(0, 10)]));
    assert!(!check_range(&[5, 15], &[(0, 10)]));
}

#[test]
fn test_check_range_multiple() {
    // Multiple ranges - any match is ok
    assert!(check_range(&[5], &[(0, 3), (4, 10)]));
    assert!(!check_range(&[5], &[(0, 3), (6, 10)]));
}

#[test]
fn test_check_range_empty() {
    // Empty range means no restriction
    assert!(check_range(&[999], &[]));
}

#[test]
fn test_check_range_invalid() {
    // min > max is invalid, skip
    assert!(!check_range(&[5], &[(10, 0)]));
}

#[test]
fn test_parse_coils() {
    // 3 coils: true, false, true
    let data = vec![0x01, 0b00000101];
    let coils = parse_coils(&data, 3);
    assert_eq!(coils, vec![true, false, true]);

    // 8 coils: all true
    let data = vec![0x01, 0xFF];
    let coils = parse_coils(&data, 8);
    assert_eq!(coils, vec![true; 8]);

    // 10 coils
    let data = vec![0x02, 0b00000101, 0b00000011];
    let coils = parse_coils(&data, 10);
    assert_eq!(
        coils,
        vec![true, false, true, false, false, false, false, false, true, true]
    );
}

#[test]
fn test_pack_coils() {
    let coils = vec![
        true, false, true, false, false, false, false, false, true, true,
    ];
    let packed = pack_coils(&coils, 10);
    assert_eq!(packed, vec![0x02, 0b00000101, 0b00000011]);
}

#[test]
fn test_pack_and_parse_coils_roundtrip() {
    let coils = vec![true, false, true, true, false, true, false, true];
    let packed = pack_coils(&coils, 8);
    let parsed = parse_coils(&packed, 8);
    assert_eq!(coils, parsed);
}

#[test]
fn test_parse_registers() {
    let data = vec![0x04, 0x00, 0x01, 0xAB, 0xCD];
    let regs = parse_registers(&data, 2);
    assert_eq!(regs, vec![0x0001, 0xABCD]);
}

#[test]
fn test_pack_registers() {
    let regs = vec![0x0001u16, 0xABCD];
    let packed = pack_registers(&regs, 2);
    assert_eq!(packed, vec![0x04, 0x00, 0x01, 0xAB, 0xCD]);
}

#[test]
fn test_pack_and_parse_registers_roundtrip() {
    let regs = vec![0x1234u16, 0x5678, 0x9ABC];
    let packed = pack_registers(&regs, 3);
    let parsed = parse_registers(&packed, 3);
    assert_eq!(regs, parsed);
}

// ===== predict_rtu_frame_length =====

#[test]
fn test_predict_buffer_too_short_returns_none() {
    assert_eq!(predict_rtu_frame_length(&[], false), None);
    assert_eq!(predict_rtu_frame_length(&[0x01], false), None);
}

#[test]
fn test_predict_request_fc1_2_3_4_5_6_fixed_8() {
    for fc in [0x01u8, 0x02, 0x03, 0x04, 0x05, 0x06] {
        assert_eq!(
            predict_rtu_frame_length(&[0x01, fc], false),
            Some(8),
            "request fc=0x{:02x} should predict 8",
            fc
        );
    }
}

#[test]
fn test_predict_request_fc17_fixed_4() {
    assert_eq!(predict_rtu_frame_length(&[0x01, 0x11], false), Some(4));
}

#[test]
fn test_predict_request_fc22_fixed_10() {
    assert_eq!(predict_rtu_frame_length(&[0x01, 0x16], false), Some(10));
}

#[test]
fn test_predict_request_fc43_fixed_7() {
    assert_eq!(predict_rtu_frame_length(&[0x01, 0x2b], false), Some(7));
}

#[test]
fn test_predict_request_fc15_byte_count() {
    // fc=0x0f request: offset=6 (byteCount), extra=9
    // bytes: unit fc addr1 addr2 qty1 qty2 byteCount ... + 2 CRC = 9 + byteCount
    let buf = [0x01u8, 0x0f, 0x00, 0x00, 0x00, 0x0a, 0x02];
    assert_eq!(predict_rtu_frame_length(&buf, false), Some(11));
}

#[test]
fn test_predict_request_fc16_byte_count() {
    // fc=0x10 request: offset=6, extra=9
    let buf = [0x01u8, 0x10, 0x00, 0x00, 0x00, 0x02, 0x04];
    assert_eq!(predict_rtu_frame_length(&buf, false), Some(13));
}

#[test]
fn test_predict_request_fc23_byte_count() {
    // fc=0x17 request: offset=10, extra=13
    let buf = [
        0x01u8, 0x17, 0x00, 0x00, 0x00, 0x02, 0x00, 0x02, 0x00, 0x01, 0x02,
    ];
    assert_eq!(predict_rtu_frame_length(&buf, false), Some(15));
}

#[test]
fn test_predict_request_byte_count_buffer_too_short() {
    // fc=0x0f offset=6, buffer length=6 → cannot read byteCount
    let buf = [0x01u8, 0x0f, 0x00, 0x00, 0x00, 0x0a];
    assert_eq!(predict_rtu_frame_length(&buf, false), None);
}

#[test]
fn test_predict_response_exception_returns_5() {
    // Any response with fc & 0x80 = exception, length is 5 (unit + fc + code + crc[2])
    assert_eq!(predict_rtu_frame_length(&[0x01, 0x83], true), Some(5));
    assert_eq!(predict_rtu_frame_length(&[0x01, 0x90], true), Some(5));
    assert_eq!(predict_rtu_frame_length(&[0x01, 0xab], true), Some(5));
}

#[test]
fn test_predict_response_fc5_6_15_16_fixed_8() {
    for fc in [0x05u8, 0x06, 0x0f, 0x10] {
        assert_eq!(
            predict_rtu_frame_length(&[0x01, fc], true),
            Some(8),
            "response fc=0x{:02x} should predict 8",
            fc
        );
    }
}

#[test]
fn test_predict_response_fc22_fixed_10() {
    assert_eq!(predict_rtu_frame_length(&[0x01, 0x16], true), Some(10));
}

#[test]
fn test_predict_response_fc1_2_3_4_byte_count() {
    // response offset=2, extra=5
    // unit fc byteCount data... crc[2] = 5 + byteCount
    for fc in [0x01u8, 0x02, 0x03, 0x04] {
        let buf = [0x01u8, fc, 0x04, 0x00, 0x00, 0x00, 0x00];
        assert_eq!(
            predict_rtu_frame_length(&buf, true),
            Some(9),
            "response fc=0x{:02x} byte_count=4 should predict 9",
            fc
        );
    }
}

#[test]
fn test_predict_response_fc17_byte_count() {
    let buf = [0x01u8, 0x11, 0x03];
    assert_eq!(predict_rtu_frame_length(&buf, true), Some(8));
}

#[test]
fn test_predict_response_fc23_byte_count() {
    let buf = [0x01u8, 0x17, 0x04];
    assert_eq!(predict_rtu_frame_length(&buf, true), Some(9));
}

#[test]
fn test_predict_response_byte_count_buffer_too_short() {
    // response fc=0x03 offset=2, buffer length=2 → no byteCount yet
    let buf = [0x01u8, 0x03];
    assert_eq!(predict_rtu_frame_length(&buf, true), None);
}

#[test]
fn test_predict_unknown_fc_returns_none() {
    assert_eq!(predict_rtu_frame_length(&[0x01, 0x99], false), None);
    // FC43 response is variable-length and not predictable from leading bytes
    assert_eq!(predict_rtu_frame_length(&[0x01, 0x2b], true), None);
}

#[test]
fn test_predict_request_exception_path_not_taken() {
    // In a request, fc with high bit set is NOT treated as exception
    // (only responses use that path)
    assert_eq!(predict_rtu_frame_length(&[0x01, 0x83], false), None);
}

#[test]
fn predictions_tell_too_short_from_unknown() {
    assert_eq!(predict_frame(&[0x01], false), PredictResult::NeedMore);
    assert_eq!(predict_frame(&[0x01, 0x10, 0, 0, 0, 1], false), PredictResult::NeedMore);
    assert_eq!(predict_frame(&[0x01, 0x99], false), PredictResult::Unknown);
    assert_eq!(predict_frame(&[0x01, 0x2b], true), PredictResult::Unknown);
    assert_eq!(predict_frame(&[0x01, 0x11, 0xff], true), PredictResult::Length(260));
}

// ===== gen_connection_id =====

fn now() -> u128 {
    SystemTime::now()
        .duration_since(UNIX_EPOCH)
        .map(|d| d.as_nanos())
        .unwrap_or(0)
}

#[test]
fn test_gen_connection_id_has_prefix() {
    let mut seq = 0;
    let id = gen_connection_id("serial", now(), &mut seq);
    assert!(id.starts_with("serial-"), "got {}", id);
}

#[test]
fn test_gen_connection_id_is_unique() {
    let mut seq = 0;
    let a = gen_connection_id("tcp-server", now(), &mut seq);
    let b = gen_connection_id("tcp-server", now(), &mut seq);
    assert_ne!(a, b);
}

#[test]
fn test_gen_connection_id_different_prefixes() {
    let mut seq = 0;
    let a = gen_connection_id("a", now(), &mut seq);
    let b = gen_connection_id("b", now(), &mut seq);
    assert!(a.starts_with("a-"));
    assert!(b.starts_with("b-"));
}

#[test]
fn connection_ids_hold_prefix_time_and_sequence() {
    let mut seq = 0;
    assert_eq!(gen_connection_id("udp-client", 1700000000000000123, &mut seq), "udp-client-1700000000000000123-1");
    assert_eq!(seq, 1);
    seq = 99;
    assert_eq!(gen_connection_id("x", 0, &mut seq), "x-0-100");
    seq = u64::MAX;
    assert_eq!(gen_connection_id("x", 5, &mut seq), "x-5-0");
    assert_eq!(seq, 0);
}

// ===== laws on concrete values =====

#[test]
fn data_followed_by_its_crc_leaves_no_remainder() {
    let mut data = vec![0x01, 0x03, 0x00, 0x00, 0x00, 0x0a];
    let c = crc(&data);
    assert_eq!(c, 0xcdc5);
    data.extend_from_slice(&c.to_le_bytes());
    assert_eq!(crc(&data), 0);
}

#[test]
fn data_followed_by_its_lrc_sums_to_zero() {
    let mut data = vec![0x01u8, 0x03, 0xff, 0x80, 0x80];
    data.push(lrc(&data));
    assert_eq!(data.iter().fold(0u8, |a, b| a.wrapping_add(*b)), 0);
}

#[test]
fn byte_counts_of_payloads_wrap_around() {
    assert_eq!(pack_coils(&[], 2048), vec![0x00]);
    assert_eq!(pack_registers(&[], 128), vec![0x00]);
    assert_eq!(pack_registers(&[], 127), vec![0xfe]);
}

#[test]
fn quantities_and_values_may_differ() {
    assert_eq!(pack_coils(&[true, true], 9), vec![0x02, 0b11]);
    assert_eq!(pack_registers(&[0x0102], 2), vec![0x04, 0x01, 0x02]);
    assert_eq!(parse_coils(&[], 0), Vec::<bool>::new());
    assert_eq!(parse_registers(&[], 0), Vec::<u16>::new());
}

#[test]
fn coil_packing_round_trips_at_every_length() {
    for n in 0..40u16 {
        let coils: Vec<bool> = (0..n).map(|i| i % 3 == 0 || i % 7 == 2).collect();
        assert_eq!(parse_coils(&pack_coils(&coils, n), n), coils);
    }
}
