use rs_modbus::error::ModbusError;
use rs_modbus::layers::application::{
    supports_concurrency, ApplicationProtocol, ApplicationRole, AsciiApplicationLayer, Framing,
    FrameEvent, RtuApplicationLayer, TcpApplicationLayer,
};
use rs_modbus::layers::physical::ConnectionId;
use rs_modbus::types::{ApplicationDataUnit, CustomFcPredict};
use rs_modbus::utils::crc;
use std::future::Future;
use std::pin::Pin;
use std::sync::Arc;

type ResponseFn = Arc<
    dyn Fn(Vec<u8>) -> Pin<Box<dyn Future<Output = Result<(), ModbusError>> + Send>> + Send + Sync,
>;

fn make_tcp_app() -> TcpApplicationLayer {
    TcpApplicationLayer::new()
}

fn make_rtu_app() -> RtuApplicationLayer<CustomFcPredict, ()> {
    RtuApplicationLayer::new(0, 0)
}

fn make_ascii_app() -> AsciiApplicationLayer {
    AsciiApplicationLayer::new()
}

#[test]
fn test_application_role_equality() {
    assert_eq!(ApplicationRole::Master, ApplicationRole::Master);
    assert_ne!(ApplicationRole::Master, ApplicationRole::Slave);
}

#[test]
fn test_framing_clone_preserves_fields() {
    let response: ResponseFn = Arc::new(|_| Box::pin(async { Ok(()) }));
    let conn: ConnectionId = Arc::from("test");
    let framing = Framing {
        adu: ApplicationDataUnit::new(1, 0x03, vec![0x00, 0x0a]),
        raw: vec![0xff; 4],
        response,
        connection: conn,
    };
    let cloned = framing.clone();
    assert_eq!(cloned.adu.unit, 1);
    assert_eq!(cloned.adu.fc, 0x03);
    assert_eq!(cloned.raw, vec![0xff; 4]);
    assert_eq!(&*cloned.connection, "test");
}

#[test]
fn test_set_role_first_call_succeeds() {
    let mut app = make_tcp_app();
    assert_eq!(app.role(), None);
    app.set_role(ApplicationRole::Master).unwrap();
    assert_eq!(app.role(), Some(ApplicationRole::Master));
}

#[test]
fn test_set_role_same_again_is_idempotent() {
    let mut app = make_tcp_app();
    app.set_role(ApplicationRole::Slave).unwrap();
    app.set_role(ApplicationRole::Slave).unwrap();
    assert_eq!(app.role(), Some(ApplicationRole::Slave));
}

#[test]
fn test_set_role_conflict_returns_invalid_state() {
    let mut app = make_tcp_app();
    app.set_role(ApplicationRole::Master).unwrap();
    let err = app.set_role(ApplicationRole::Slave).unwrap_err();
    assert!(matches!(err, ModbusError::InvalidState(_)));
}

#[test]
fn role_conflicts_name_both_roles() {
    let text = "application layer role already set to Slave, cannot change to Master";
    let mut rtu = make_rtu_app();
    rtu.set_role(ApplicationRole::Slave).unwrap();
    match rtu.set_role(ApplicationRole::Master) {
        Err(ModbusError::InvalidState(s)) => assert_eq!(s, text),
        other => panic!("unexpected {other:?}"),
    }
    assert_eq!(rtu.role(), Some(ApplicationRole::Slave));
    let mut ascii = make_ascii_app();
    ascii.set_role(ApplicationRole::Slave).unwrap();
    match ascii.set_role(ApplicationRole::Master) {
        Err(ModbusError::InvalidState(s)) => assert_eq!(s, text),
        other => panic!("unexpected {other:?}"),
    }
    assert_eq!(ascii.role(), Some(ApplicationRole::Slave));
}

#[test]
fn layers_know_their_protocol() {
    assert_eq!(make_tcp_app().protocol(), ApplicationProtocol::Tcp);
    assert_eq!(make_rtu_app().protocol(), ApplicationProtocol::Rtu);
    assert_eq!(make_ascii_app().protocol(), ApplicationProtocol::Ascii);
}

#[test]
fn concurrency_needs_tcp() {
    assert!(supports_concurrency(true, ApplicationProtocol::Tcp));
    assert!(!supports_concurrency(true, ApplicationProtocol::Rtu));
    assert!(!supports_concurrency(true, ApplicationProtocol::Ascii));
    assert!(supports_concurrency(false, ApplicationProtocol::Rtu));
    assert!(supports_concurrency(false, ApplicationProtocol::Ascii));
}

#[test]
fn test_tcp_encode() {
    let mut layer = make_tcp_app();
    let adu = ApplicationDataUnit::new(1, 0x03, vec![0x00, 0x00, 0x00, 0x0a]);
    let frame = layer.encode(&adu);
    assert_eq!(frame.len(), 12);
    assert_eq!(&frame[2..4], [0x00, 0x00]); // protocol = 0
    assert_eq!(u16::from_be_bytes([frame[4], frame[5]]), 6); // length = 2 + 4
    assert_eq!(frame[6], 1); // unit
    assert_eq!(frame[7], 0x03); // fc
    assert_eq!(&frame[8..], [0x00, 0x00, 0x00, 0x0a]);
}

#[test]
fn test_tcp_encode_with_transaction() {
    let mut layer = make_tcp_app();
    let adu = ApplicationDataUnit::new(1, 0x03, vec![]).with_transaction(42);
    let frame = layer.encode(&adu);
    assert_eq!(u16::from_be_bytes([frame[0], frame[1]]), 42);
}

#[test]
fn tcp_counts_transactions_from_one_and_wraps() {
    let mut layer = make_tcp_app();
    let adu = ApplicationDataUnit::new(1, 0x03, vec![]);
    assert_eq!(layer.encode(&adu)[..2], [0, 1]);
    assert_eq!(layer.encode(&adu)[..2], [0, 2]);
    let explicit = ApplicationDataUnit::new(1, 0x03, vec![]).with_transaction(500);
    layer.encode(&explicit);
    assert_eq!(layer.encode(&adu)[..2], [0, 3]);
    for _ in 4..=0xffffu32 {
        layer.encode(&adu);
    }
    assert_eq!(layer.encode(&adu)[..2], [0, 0]);
    assert_eq!(layer.encode(&adu)[..2], [0, 1]);
}

#[test]
fn test_tcp_decode() {
    let layer = make_tcp_app();
    let frame = vec![0x00, 0x01, 0x00, 0x00, 0x00, 0x04, 0x01, 0x03, 0x00, 0x0a];
    let decoded = layer.decode(&frame).unwrap();
    assert_eq!(decoded.adu.transaction, Some(1));
    assert_eq!(decoded.adu.unit, 1);
    assert_eq!(decoded.adu.fc, 0x03);
    assert_eq!(decoded.adu.data, vec![0x00, 0x0a]);
}

#[test]
fn test_tcp_decode_invalid_protocol() {
    let layer = make_tcp_app();
    let frame = vec![0x00, 0x01, 0x00, 0x01, 0x00, 0x04, 0x01, 0x03, 0x00, 0x0a];
    assert!(matches!(
        layer.decode(&frame),
        Err(ModbusError::InvalidData)
    ));
}

#[test]
fn tcp_decode_refuses_wrong_lengths() {
    let layer = make_tcp_app();
    assert!(matches!(
        layer.decode(&[0, 1, 0, 0, 0, 2, 1]),
        Err(ModbusError::InsufficientData)
    ));
    assert!(matches!(
        layer.decode(&[0, 1, 0, 0, 0, 3, 1, 3]),
        Err(ModbusError::InvalidData)
    ));
    assert!(layer.decode(&[0, 1, 0, 0, 0, 2, 1, 3]).is_ok());
}

#[test]
fn test_tcp_roundtrip() {
    let mut layer = make_tcp_app();
    let adu = ApplicationDataUnit::new(1, 0x03, vec![0x00, 0x00, 0x00, 0x0a]).with_transaction(5);
    let encoded = layer.encode(&adu);
    let decoded = layer.decode(&encoded).unwrap();
    assert_eq!(decoded.adu.transaction, Some(5));
    assert_eq!(decoded.adu.unit, 1);
    assert_eq!(decoded.adu.fc, 0x03);
    assert_eq!(decoded.adu.data, vec![0x00, 0x00, 0x00, 0x0a]);
}

#[test]
fn test_rtu_encode() {
    let layer = make_rtu_app();
    let adu = ApplicationDataUnit::new(1, 0x03, vec![0x00, 0x00, 0x00, 0x0a]);
    let frame = layer.encode(&adu);
    assert_eq!(frame.len(), 8);
    assert_eq!(frame[0], 1);
    assert_eq!(frame[1], 0x03);
    assert_eq!(&frame[2..6], [0x00, 0x00, 0x00, 0x0a]);
    let crc_val = u16::from_le_bytes([frame[6], frame[7]]);
    assert_eq!(crc(&frame[..6]), crc_val);
}

#[test]
fn test_rtu_decode() {
    let layer = make_rtu_app();
    let adu = ApplicationDataUnit::new(1, 0x03, vec![0x00, 0x00, 0x00, 0x0a]);
    let frame = layer.encode(&adu);
    let decoded = layer.decode(&frame).unwrap();
    assert_eq!(decoded.adu.unit, 1);
    assert_eq!(decoded.adu.fc, 0x03);
    assert_eq!(decoded.adu.data, vec![0x00, 0x00, 0x00, 0x0a]);
}

#[test]
fn test_rtu_decode_crc_fail() {
    let layer = make_rtu_app();
    let frame = vec![0x01, 0x03, 0x00, 0x00, 0x00, 0x0a, 0xFF, 0xFF];
    assert!(matches!(
        layer.decode(&frame),
        Err(ModbusError::CrcCheckFailed)
    ));
    assert!(matches!(
        layer.decode(&frame[..3]),
        Err(ModbusError::InsufficientData)
    ));
}

#[test]
fn test_rtu_roundtrip() {
    let layer = make_rtu_app();
    let adu = ApplicationDataUnit::new(
        17,
        0x10,
        vec![0x00, 0x01, 0x00, 0x02, 0x04, 0xAB, 0xCD, 0xEF, 0x01],
    );
    let encoded = layer.encode(&adu);
    let decoded = layer.decode(&encoded).unwrap();
    assert_eq!(decoded.adu.unit, 17);
    assert_eq!(decoded.adu.fc, 0x10);
    assert_eq!(decoded.adu.data, adu.data);
}

#[test]
fn test_ascii_encode() {
    let layer = make_ascii_app();
    let adu = ApplicationDataUnit::new(1, 0x03, vec![0x00, 0x00, 0x00, 0x0a]);
    let frame = layer.encode(&adu);
    let frame_str = String::from_utf8(frame.clone()).unwrap();
    assert!(frame_str.starts_with(':'));
    assert!(frame_str.ends_with("\r\n"));
    assert_eq!(frame_str.len(), 1 + 2 + 2 + 8 + 2 + 2);
    assert_eq!(frame_str, ":01030000000AF2\r\n");
}

#[test]
fn test_ascii_decode() {
    let layer = make_ascii_app();
    let adu = ApplicationDataUnit::new(1, 0x03, vec![0x00, 0x00, 0x00, 0x0a]);
    let encoded = layer.encode(&adu);
    let decoded = layer.decode(&encoded).unwrap();
    assert_eq!(decoded.adu.unit, 1);
    assert_eq!(decoded.adu.fc, 0x03);
    assert_eq!(decoded.adu.data, vec![0x00, 0x00, 0x00, 0x0a]);
}

#[test]
fn test_ascii_roundtrip() {
    let layer = make_ascii_app();
    let adu = ApplicationDataUnit::new(
        17,
        0x10,
        vec![0x00, 0x01, 0x00, 0x02, 0x04, 0xAB, 0xCD, 0xEF, 0x01],
    );
    let encoded = layer.encode(&adu);
    let decoded = layer.decode(&encoded).unwrap();
    assert_eq!(decoded.adu.unit, 17);
    assert_eq!(decoded.adu.fc, 0x10);
    assert_eq!(decoded.adu.data, adu.data);
}

#[test]
fn test_ascii_decode_lrc_fail() {
    let layer = make_ascii_app();
    let frame = b":01030000000AFF\r\n";
    assert!(matches!(
        layer.decode(frame),
        Err(ModbusError::LrcCheckFailed)
    ));
}

#[test]
fn ascii_decode_tells_its_errors_apart() {
    let layer = make_ascii_app();
    assert!(matches!(layer.decode(b":01FF\r\n"), Err(ModbusError::InsufficientData)));
    assert!(matches!(layer.decode(b"x01030000000AF2\r\n"), Err(ModbusError::InvalidData)));
    assert!(matches!(layer.decode(b":01030000000AF2\n\n"), Err(ModbusError::InvalidData)));
    assert!(matches!(layer.decode(b":01030000000AF\r\n"), Err(ModbusError::InvalidData)));
    assert!(matches!(layer.decode(b":0103000G000AF2\r\n"), Err(ModbusError::InvalidHex)));
    // Lowercase digits are decoded, whatever the layer receives.
    assert!(layer.decode(b":01030000000af2\r\n").is_ok());
}

#[test]
fn ascii_frames_without_data_are_received_and_decoded() {
    let mut layer = make_ascii_app();
    let adu = ApplicationDataUnit::new(1, 0x11, vec![]);
    let frame = layer.encode(&adu);
    assert_eq!(frame, b":0111EE\r\n");
    let decoded = layer.decode(&frame).unwrap();
    assert_eq!(decoded.adu.transaction, None);
    assert_eq!((decoded.adu.unit, decoded.adu.fc), (1, 0x11));
    assert!(decoded.adu.data.is_empty());
    assert_eq!(decoded.raw, frame);
    assert!(matches!(layer.decode(&frame[..8]), Err(ModbusError::InsufficientData)));
    let events = layer.process_data_event(&frame, &Arc::from("c"));
    assert!(matches!(&events[..], [FrameEvent::Framing(f)] if f.adu.fc == 0x11));
}

#[test]
fn test_framing_emits_on_valid_tcp_frame() {
    let mut application = make_tcp_app();
    let frame = vec![0x00, 0x07, 0x00, 0x00, 0x00, 0x04, 0x01, 0x03, 0x00, 0x0a];
    let mut events = application.process_data_event(&frame, &Arc::from("client"));
    assert_eq!(events.len(), 1);
    match events.remove(0) {
        FrameEvent::Framing(f) => {
            assert_eq!(f.adu.transaction, Some(7));
            assert_eq!(f.adu.unit, 1);
            assert_eq!(f.adu.fc, 0x03);
            assert_eq!(f.adu.data, vec![0x00, 0x0a]);
            assert_eq!(f.raw, frame);
        }
        FrameEvent::FramingError(e) => panic!("unexpected {e:?}"),
    }
}

#[test]
fn test_framing_error_on_invalid_tcp_protocol() {
    let mut application = make_tcp_app();
    // Bogus protocol_id (bytes 2..4 != 0).
    let bogus = vec![0x00, 0x07, 0x12, 0x34, 0x00, 0x04, 0x01, 0x03, 0x00, 0x0a];
    let events = application.process_data_event(&bogus, &Arc::from("client"));
    assert!(matches!(
        &events[..],
        [FrameEvent::FramingError(ModbusError::InvalidData)]
    ));
}

#[test]
fn layers_are_destroyed_once() {
    let conn: ConnectionId = Arc::from("c");
    let mut tcp = make_tcp_app();
    let frame = tcp.encode(&ApplicationDataUnit::new(1, 0x03, vec![0, 0, 0, 1]));
    assert!(tcp.process_data_event(&frame[..5], &conn).is_empty());
    assert!(tcp.destroy());
    assert!(tcp.process_data_event(&frame[..5], &conn).is_empty());
    assert!(!tcp.destroy());
    assert_eq!(tcp.process_data_event(&frame[5..], &conn).len(), 1);

    let mut ascii = make_ascii_app();
    let frame = ascii.encode(&ApplicationDataUnit::new(1, 0x03, vec![0, 0, 0, 1]));
    assert!(ascii.process_data_event(&frame[..5], &conn).is_empty());
    assert!(ascii.destroy());
    assert!(ascii.process_data_event(&frame[5..], &conn).is_empty());
    assert!(ascii.process_data_event(&frame[..5], &conn).is_empty());
    assert!(!ascii.destroy());
    assert_eq!(ascii.process_data_event(&frame[5..], &conn).len(), 1);
}
