use rs_modbus::error::ModbusError;
use rs_modbus::layers::application::rtu::{compute_interval_ms, IntervalMs};
use rs_modbus::layers::application::{
    ApplicationRole, FrameEvent, FrameInterval, RtuApplicationLayer, RtuApplicationLayerOptions,
};
use rs_modbus::layers::physical::{ConnectionId, PhysicalLayerType};
use rs_modbus::types::{
    ApplicationDataUnit, CustomFcPredict, CustomFunctionCode, FramedDataUnit, LengthPredictor,
};
use rs_modbus::utils::crc;
use std::sync::Arc;

type Layer = RtuApplicationLayer<CustomFcPredict, ()>;

/// Build an RTU frame: `[unit, fc, ...payload, crc_lo, crc_hi]`.
fn rtu_request(unit: u8, fc: u8, payload: &[u8]) -> Vec<u8> {
    let mut buf = Vec::with_capacity(2 + payload.len() + 2);
    buf.push(unit);
    buf.push(fc);
    buf.extend_from_slice(payload);
    let c = crc(&buf);
    buf.extend_from_slice(&c.to_le_bytes());
    buf
}

fn conn() -> ConnectionId {
    Arc::from("fake-conn")
}

/// An RTU layer on a network, slave side.
fn net() -> Layer {
    let mut app = RtuApplicationLayer::new(0, 0);
    app.set_role(ApplicationRole::Slave).unwrap();
    app
}

/// An RTU layer on a serial line, slave side.
fn serial(interval_ms: u32, inter_char_ms: u32) -> Layer {
    let mut app = RtuApplicationLayer::new(interval_ms, inter_char_ms);
    app.set_role(ApplicationRole::Slave).unwrap();
    app
}

fn frames(events: Vec<FrameEvent>) -> Vec<FramedDataUnit> {
    events
        .into_iter()
        .map(|e| match e {
            FrameEvent::Framing(f) => f,
            FrameEvent::FramingError(e) => panic!("unexpected {e:?}"),
        })
        .collect()
}

fn only_error(events: Vec<FrameEvent>) -> ModbusError {
    assert_eq!(events.len(), 1);
    match events.into_iter().next().unwrap() {
        FrameEvent::FramingError(e) => e,
        FrameEvent::Framing(_) => panic!("expected no frame"),
    }
}

#[test]
fn test_rtu_decodes_known_fc_via_predict() {
    let mut app = net();
    // FC03 request: 8 bytes (fixed length).
    let frame = rtu_request(1, 0x03, &[0x00, 0x14, 0x00, 0x02]);
    assert_eq!(frame.len(), 8);
    let got = frames(app.process_data_event(&frame, &conn()).events);
    assert_eq!(got.len(), 1);
    assert_eq!(got[0].adu.unit, 1);
    assert_eq!(got[0].adu.fc, 0x03);
    assert_eq!(got[0].adu.data, vec![0x00, 0x14, 0x00, 0x02]);
    assert_eq!(got[0].raw, frame);
}

#[test]
fn test_rtu_splits_sticky_frames() {
    let mut app = net();
    let a = rtu_request(1, 0x03, &[0x00, 0x14, 0x00, 0x01]);
    let b = rtu_request(2, 0x06, &[0x00, 0x05, 0x12, 0x34]);
    let mut combined = a.clone();
    combined.extend_from_slice(&b);
    let got = frames(app.process_data_event(&combined, &conn()).events);
    assert_eq!(got.len(), 2);
    assert_eq!(got[0].adu.unit, 1);
    assert_eq!(got[0].adu.fc, 0x03);
    assert_eq!(got[1].adu.unit, 2);
    assert_eq!(got[1].adu.fc, 0x06);
}

#[test]
fn test_rtu_reassembles_half_frame() {
    let mut app = net();
    let frame = rtu_request(1, 0x03, &[0x00, 0x14, 0x00, 0x02]);
    assert!(app.process_data_event(&frame[..4], &conn()).events.is_empty());
    let got = frames(app.process_data_event(&frame[4..], &conn()).events);
    assert_eq!(got[0].adu.fc, 0x03);
    assert_eq!(got[0].adu.data, vec![0x00, 0x14, 0x00, 0x02]);
}

#[test]
fn test_rtu_framing_error_on_bad_crc_then_recovers() {
    let mut app = net();
    let bad = vec![0x01, 0x03, 0x00, 0x00, 0x00, 0x0a, 0xff, 0xff];
    // Make absolutely sure CRC is wrong.
    let real_crc = crc(&bad[..6]);
    assert_ne!(u16::from_le_bytes([bad[6], bad[7]]), real_crc);
    app.process_data_event(&bad, &conn());

    let good = rtu_request(2, 0x03, &[0x00, 0x05, 0x00, 0x01]);
    let got = frames(app.process_data_event(&good, &conn()).events);
    assert_eq!(got[0].adu.unit, 2);
    assert_eq!(got[0].adu.fc, 0x03);
}

#[test]
fn test_rtu_compute_interval_ms_via_constructor_net() {
    // For Net transports the interval is always 0 regardless of inputs.
    for options in [
        RtuApplicationLayerOptions {
            baud_rate: Some(9600),
            ..Default::default()
        },
        RtuApplicationLayerOptions {
            baud_rate: Some(9600),
            interval_between_frames: Some(FrameInterval::Bits(96.0)),
            ..Default::default()
        },
        RtuApplicationLayerOptions {
            baud_rate: Some(115200),
            interval_between_frames: Some(FrameInterval::Ms(7)),
            ..Default::default()
        },
    ] {
        let (t35, t15) = intervals(PhysicalLayerType::Net, options);
        assert_eq!((t35, t15), (0, 0));
        let _app: Layer = RtuApplicationLayer::new(t35, t15);
    }
}

// ===== custom function codes =====

#[test]
fn custom_fc_fixed_length_predictor() {
    let mut app = net();
    app.add_custom_function_code(CustomFunctionCode {
        fc: 0x65,
        predict_request_length: CustomFcPredict::Length(8),
        predict_response_length: CustomFcPredict::Length(8),
        handle: None,
    });
    let frame = rtu_request(1, 0x65, &[0x11, 0x22, 0x33, 0x44]);
    let got = frames(app.process_data_event(&frame, &conn()).events);
    assert_eq!(got.len(), 1);
    assert_eq!(got[0].adu.fc, 0x65);
    assert_eq!(got[0].adu.data, vec![0x11, 0x22, 0x33, 0x44]);
}

enum Predictor {
    Counted,
    Undecided,
}

impl LengthPredictor for Predictor {
    fn predict(&self, buf: &[u8]) -> CustomFcPredict {
        match self {
            Predictor::Counted => {
                if buf.len() < 3 {
                    CustomFcPredict::NeedMore
                } else {
                    CustomFcPredict::Length(5 + buf[2] as usize)
                }
            }
            Predictor::Undecided => CustomFcPredict::NeedMore,
        }
    }
}

#[test]
fn custom_fc_variable_length_predictor() {
    let mut app: RtuApplicationLayer<Predictor, ()> = RtuApplicationLayer::new(0, 0);
    app.set_role(ApplicationRole::Slave).unwrap();
    app.add_custom_function_code(CustomFunctionCode {
        fc: 0x66,
        predict_request_length: Predictor::Counted,
        predict_response_length: Predictor::Undecided,
        handle: None,
    });
    let frame = rtu_request(1, 0x66, &[0x03, 0xaa, 0xbb, 0xcc]);
    let got = frames(app.process_data_event(&frame, &conn()).events);
    assert_eq!(got[0].adu.fc, 0x66);
    assert_eq!(got[0].adu.data, vec![0x03, 0xaa, 0xbb, 0xcc]);
}

#[test]
fn unregistered_codes_are_errors() {
    let mut app = net();
    let frame = rtu_request(1, 0x65, &[0x11, 0x22, 0x33, 0x44]);
    let err = only_error(app.process_data_event(&frame, &conn()).events);
    assert!(matches!(err, ModbusError::InvalidData));
    app.add_custom_function_code(CustomFunctionCode {
        fc: 0x65,
        predict_request_length: CustomFcPredict::Length(8),
        predict_response_length: CustomFcPredict::NeedMore,
        handle: None,
    });
    assert_eq!(frames(app.process_data_event(&frame, &conn()).events).len(), 1);
    app.remove_custom_function_code(0x65);
    assert!(matches!(
        only_error(app.process_data_event(&frame, &conn()).events),
        ModbusError::InvalidData
    ));
}

#[test]
fn predicted_lengths_have_limits() {
    for n in [3usize, 257] {
        let mut app = net();
        app.add_custom_function_code(CustomFunctionCode {
            fc: 0x65,
            predict_request_length: CustomFcPredict::Length(n),
            predict_response_length: CustomFcPredict::Length(n),
            handle: None,
        });
        let err = only_error(app.process_data_event(&[1, 0x65, 0, 0], &conn()).events);
        assert!(matches!(err, ModbusError::InvalidData));
    }
}

#[test]
fn an_undecided_predictor_gives_way_to_later_bytes() {
    let mut app: RtuApplicationLayer<Predictor, ()> = RtuApplicationLayer::new(0, 0);
    app.set_role(ApplicationRole::Slave).unwrap();
    app.add_custom_function_code(CustomFunctionCode {
        fc: 0x66,
        predict_request_length: Predictor::Undecided,
        predict_response_length: Predictor::Undecided,
        handle: None,
    });
    let mut bytes = vec![0x66u8; 250];
    bytes.extend_from_slice(&rtu_request(1, 0x03, &[0, 0, 0, 1]));
    // With 258 bytes at hand nobody waits any longer; bytes are skipped until
    // fewer than a whole frame's worth are left.
    assert!(app.process_data_event(&bytes, &conn()).events.is_empty());
}

#[test]
fn a_master_expects_responses() {
    let mut app: Layer = RtuApplicationLayer::new(0, 0);
    app.set_role(ApplicationRole::Master).unwrap();
    let frame = rtu_request(1, 0x03, &[0x02, 0x12, 0x34]);
    let got = frames(app.process_data_event(&frame, &conn()).events);
    assert_eq!(got[0].adu.data, vec![0x02, 0x12, 0x34]);
    let exception = rtu_request(1, 0x83, &[0x02]);
    let got = frames(app.process_data_event(&exception, &conn()).events);
    assert_eq!(got[0].adu.fc, 0x83);
    // The length of an identification cannot be told.
    let ident = rtu_request(1, 0x2b, &[0x0e, 1, 0x81, 0, 0, 0]);
    assert!(matches!(
        only_error(app.process_data_event(&ident, &conn()).events),
        ModbusError::InvalidData
    ));
}

// ===== the pool =====

#[test]
fn pool_consumes_chunk_larger_than_pool_without_truncating() {
    let mut app = net();
    // 80 frames x 8 bytes = 640 bytes, exceeding the 512-byte pool.
    let mut chunk = Vec::new();
    for i in 0..80 {
        let frame = rtu_request(1, 0x03, &[0x00, i as u8, 0x00, 0x02]);
        chunk.extend_from_slice(&frame);
    }
    let got = frames(app.process_data_event(&chunk, &conn()).events);
    assert_eq!(got.len(), 80, "expected 80 frames, got {}", got.len());
    for (i, f) in got.iter().enumerate() {
        assert_eq!(f.adu.data[1], i as u8);
    }
}

#[test]
fn pool_emits_framing_error_when_chunk_exceeds_pool_and_no_valid_frame() {
    let mut app = net();
    // 600 bytes of garbage: no valid RTU frame can be extracted
    let garbage = vec![0xabu8; 600];
    let events = app.process_data_event(&garbage, &conn()).events;
    assert!(
        events
            .iter()
            .any(|e| matches!(e, FrameEvent::FramingError(_))),
        "expected at least one framing-error for pool overflow"
    );
}

#[test]
fn chunks_of_any_size_give_the_same_frames() {
    let mut stream = Vec::new();
    for i in 0..50u8 {
        stream.extend_from_slice(&rtu_request(1, 0x03, &[0x00, i, 0x00, 0x02]));
        stream.extend_from_slice(&rtu_request(2, 0x10, &[0, i, 0, 1, 2, 0xab, i]));
    }
    for size in [1usize, 3, 7, 64, 255, 511, 513, 900] {
        let mut app = net();
        let mut got = Vec::new();
        for chunk in stream.chunks(size) {
            got.extend(frames(app.process_data_event(chunk, &conn()).events));
        }
        assert_eq!(got.len(), 100, "chunks of {size}");
        let raw: Vec<u8> = got.into_iter().flat_map(|f| f.raw).collect();
        assert_eq!(raw, stream);
    }
}

// ===== t3.5 strict mode =====

#[test]
fn strict_t35_emits_framing_error_for_incomplete_frame() {
    let mut app = serial(50, 0);
    // Only 4 bytes of an 8-byte frame.
    let frame = rtu_request(1, 0x03, &[0x00, 0x14, 0x00, 0x02]);
    let outcome = app.process_data_event(&frame[..4], &conn());
    assert!(outcome.events.is_empty());
    assert_eq!(outcome.interval_timer, Some(50));
    assert_eq!(outcome.inter_char_timer, None);
    let err = only_error(app.interval_elapsed(&conn()));
    assert!(
        matches!(err, ModbusError::IncompleteFrame),
        "expected IncompleteFrame, got {:?}",
        err
    );
    assert!(app.interval_elapsed(&conn()).is_empty());
}

#[test]
fn strict_t35_emits_framing_error_on_crc_mismatch_and_drops_buffer() {
    let mut app = serial(50, 0);
    let mut bad = rtu_request(1, 0x03, &[0x00, 0x14, 0x00, 0x02]);
    // Tamper CRC: flip the last byte.
    let last = bad.len() - 1;
    bad[last] ^= 0xFF;
    assert!(app.process_data_event(&bad, &conn()).events.is_empty());
    let err = only_error(app.interval_elapsed(&conn()));
    assert!(
        matches!(err, ModbusError::CrcCheckFailed),
        "expected CrcCheckFailed, got {:?}",
        err
    );
    assert!(app.interval_elapsed(&conn()).is_empty());
}

#[test]
fn strict_t35_recover_after_crc_fail_next_valid_frame_delivers() {
    let mut app = serial(50, 0);
    let mut bad = rtu_request(1, 0x03, &[0x00, 0x14, 0x00, 0x02]);
    let last = bad.len() - 1;
    bad[last] ^= 0xFF;
    app.process_data_event(&bad, &conn());
    let err = only_error(app.interval_elapsed(&conn()));
    assert!(matches!(err, ModbusError::CrcCheckFailed));

    let good = rtu_request(1, 0x04, &[0x00, 0x21, 0x00, 0x01]);
    assert!(app.process_data_event(&good, &conn()).events.is_empty());
    let got = frames(app.interval_elapsed(&conn()));
    assert_eq!(got[0].adu.fc, 0x04);
}

// ===== t1.5 inter-character timeout =====

#[test]
fn t15_emits_framing_error_when_mid_frame_gap_exceeds_t15() {
    let mut app = serial(50, 30);
    let frame = rtu_request(1, 0x03, &[0x00, 0x14, 0x00, 0x02]);
    let outcome = app.process_data_event(&frame[..4], &conn());
    assert_eq!(outcome.interval_timer, Some(50));
    assert_eq!(outcome.inter_char_timer, Some(30));
    app.inter_char_elapsed(&conn());

    // The rest of the frame is too late; t1.5 already expired.
    let outcome = app.process_data_event(&frame[4..], &conn());
    let err = only_error(outcome.events);
    assert!(
        matches!(err, ModbusError::T1_5Exceeded),
        "expected T1_5Exceeded, got {:?}",
        err
    );
}

#[test]
fn t15_expiry_is_what_t35_reports() {
    let mut app = serial(50, 30);
    let frame = rtu_request(1, 0x03, &[0x00, 0x14, 0x00, 0x02]);
    app.process_data_event(&frame[..4], &conn());
    app.inter_char_elapsed(&conn());
    let err = only_error(app.interval_elapsed(&conn()));
    assert!(matches!(err, ModbusError::T1_5Exceeded));
}

#[test]
fn t15_tolerates_gap_shorter_than_timeout() {
    let mut app = serial(50, 30);
    let frame = rtu_request(1, 0x03, &[0x00, 0x14, 0x00, 0x02]);
    assert!(app.process_data_event(&frame[..4], &conn()).events.is_empty());
    assert!(app.process_data_event(&frame[4..], &conn()).events.is_empty());
    let got = frames(app.interval_elapsed(&conn()));
    assert_eq!(got.len(), 1);
    assert_eq!(got[0].adu.fc, 0x03);
}

#[test]
fn t15_disabled_no_error_on_mid_frame_gap() {
    let mut app = serial(50, 0);
    let frame = rtu_request(1, 0x03, &[0x00, 0x14, 0x00, 0x02]);
    let outcome = app.process_data_event(&frame[..4], &conn());
    assert_eq!(outcome.inter_char_timer, None);
    app.process_data_event(&frame[4..], &conn());
    let got = frames(app.interval_elapsed(&conn()));
    assert_eq!(got.len(), 1);
    assert_eq!(got[0].adu.fc, 0x03);
}

#[test]
fn a_whole_frames_worth_of_bytes_does_not_wait_for_silence() {
    let mut app = serial(50, 30);
    let mut bytes = Vec::new();
    for i in 0..32u8 {
        bytes.extend_from_slice(&rtu_request(1, 0x03, &[0, i, 0, 1]));
    }
    assert_eq!(bytes.len(), 256);
    let outcome = app.process_data_event(&bytes, &conn());
    assert_eq!(outcome.interval_timer, None);
    assert_eq!(outcome.inter_char_timer, None);
    assert_eq!(frames(outcome.events).len(), 32);
}

#[test]
fn forgotten_bytes_are_not_flushed() {
    let mut app = serial(50, 30);
    let frame = rtu_request(1, 0x03, &[0x00, 0x14, 0x00, 0x02]);
    app.process_data_event(&frame, &conn());
    app.connection_closed(&conn());
    assert!(app.interval_elapsed(&conn()).is_empty());
    app.process_data_event(&frame, &conn());
    app.flush();
    app.inter_char_elapsed(&conn());
    assert!(app.interval_elapsed(&conn()).is_empty());
    app.add_custom_function_code(CustomFunctionCode {
        fc: 0x65,
        predict_request_length: CustomFcPredict::Length(4),
        predict_response_length: CustomFcPredict::Length(4),
        handle: None,
    });
    app.process_data_event(&frame, &conn());
    assert!(app.destroy());
    assert!(!app.destroy());
    assert!(app.interval_elapsed(&conn()).is_empty());
    app.process_data_event(&rtu_request(1, 0x65, &[]), &conn());
    assert!(matches!(
        only_error(app.interval_elapsed(&conn())),
        ModbusError::InvalidData
    ));
}

#[test]
fn the_longest_frame_is_received() {
    let mut app: Layer = RtuApplicationLayer::new(0, 0);
    app.set_role(ApplicationRole::Master).unwrap();
    let mut data = vec![251u8];
    data.extend_from_slice(&[0x5a; 251]);
    let frame = app.encode(&ApplicationDataUnit::new(1, 0x11, data.clone()));
    assert_eq!(frame.len(), 256);
    let got = frames(app.process_data_event(&frame, &conn()).events);
    assert_eq!(got[0].adu.data, data);
}

// ===== intervals =====

fn resolve(interval: IntervalMs<f64>) -> u32 {
    match interval {
        IntervalMs::Ms(n) => n,
        IntervalMs::Bits { baud_rate, bits } => {
            ((bits * 1000.0) / baud_rate as f64).ceil().max(0.0) as u32
        }
    }
}

fn intervals(
    layer_type: PhysicalLayerType,
    options: RtuApplicationLayerOptions<f64>,
) -> (u32, u32) {
    let (t35, t15) = compute_interval_ms(layer_type, options);
    (resolve(t35), resolve(t15))
}

#[test]
fn test_compute_interval_ms_net_returns_zero() {
    assert_eq!(
        intervals(PhysicalLayerType::Net, RtuApplicationLayerOptions::default()),
        (0, 0)
    );
    assert_eq!(
        intervals(
            PhysicalLayerType::Net,
            RtuApplicationLayerOptions {
                baud_rate: Some(9600),
                interval_between_frames: Some(FrameInterval::Ms(50)),
                ..Default::default()
            }
        ),
        (0, 0),
        "Net always ignores baud/interval inputs"
    );
}

#[test]
fn test_compute_interval_ms_serial_default_9600() {
    assert_eq!(
        intervals(
            PhysicalLayerType::Serial,
            RtuApplicationLayerOptions {
                baud_rate: Some(9600),
                ..Default::default()
            }
        ),
        (5, 0)
    );
}

#[test]
fn test_compute_interval_ms_serial_default_19200() {
    assert_eq!(
        intervals(
            PhysicalLayerType::Serial,
            RtuApplicationLayerOptions {
                baud_rate: Some(19200),
                ..Default::default()
            }
        ),
        (3, 0)
    );
}

#[test]
fn test_compute_interval_ms_serial_above_19200_uses_spec_fixed() {
    // baud > 19200 → spec fixed 1.75 ms for t3.5, 0.75 ms for t1.5
    assert_eq!(
        intervals(
            PhysicalLayerType::Serial,
            RtuApplicationLayerOptions {
                baud_rate: Some(38400),
                ..Default::default()
            }
        ),
        (1, 0)
    );
    assert_eq!(
        intervals(
            PhysicalLayerType::Serial,
            RtuApplicationLayerOptions {
                baud_rate: Some(115200),
                inter_char_timeout: Some(FrameInterval::Bits(16.5)),
                ..Default::default()
            }
        ),
        (1, 0)
    );
}

#[test]
fn explicit_bit_times_go_before_the_fixed_value() {
    let options = RtuApplicationLayerOptions {
        baud_rate: Some(38400),
        interval_between_frames: Some(FrameInterval::Bits(384.0)),
        ..Default::default()
    };
    assert_eq!(intervals(PhysicalLayerType::Serial, options), (10, 0));
}

#[test]
fn test_compute_interval_ms_serial_explicit_ms() {
    assert_eq!(
        intervals(
            PhysicalLayerType::Serial,
            RtuApplicationLayerOptions {
                baud_rate: Some(9600),
                interval_between_frames: Some(FrameInterval::Ms(20)),
                ..Default::default()
            }
        ),
        (20, 0)
    );
}

#[test]
fn test_compute_interval_ms_serial_explicit_bits() {
    assert_eq!(
        intervals(
            PhysicalLayerType::Serial,
            RtuApplicationLayerOptions {
                baud_rate: Some(9600),
                interval_between_frames: Some(FrameInterval::Bits(96.0)),
                ..Default::default()
            }
        ),
        (10, 0)
    );
}

#[test]
fn test_compute_interval_ms_serial_default_baud_when_unspecified() {
    assert_eq!(
        intervals(
            PhysicalLayerType::Serial,
            RtuApplicationLayerOptions::default()
        ),
        (5, 0)
    );
}

#[test]
fn test_compute_interval_ms_serial_with_inter_char_timeout() {
    let (t35, t15) = intervals(
        PhysicalLayerType::Serial,
        RtuApplicationLayerOptions {
            baud_rate: Some(9600),
            inter_char_timeout: Some(FrameInterval::Bits(21.0)),
            ..Default::default()
        },
    );
    assert_eq!(t35, 5);
    assert_eq!(t15, 3); // ceil(21.0 * 1000 / 9600) = ceil(2.1875) = 3
}

#[test]
fn default_intervals_agree_with_their_formula() {
    for baud in [0u32, 1, 7, 110, 300, 1200, 2400, 4800, 7700, 9600, 19200] {
        let (t35, t15) = intervals(
            PhysicalLayerType::Serial,
            RtuApplicationLayerOptions {
                baud_rate: Some(baud),
                inter_char_timeout: Some(FrameInterval::Ms(4)),
                ..Default::default()
            },
        );
        assert_eq!(t35, (38.5 * 1000.0 / baud as f64).ceil() as u32, "baud {baud}");
        assert_eq!(t15, 4);
    }
}
