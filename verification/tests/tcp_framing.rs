use rs_modbus::error::ModbusError;
use rs_modbus::layers::application::{FrameEvent, TcpApplicationLayer};
use rs_modbus::layers::physical::ConnectionId;
use rs_modbus::types::{ApplicationDataUnit, FramedDataUnit};
use std::sync::Arc;

fn mbap_request(transaction: u16, unit: u8, fc: u8, data: &[u8]) -> Vec<u8> {
    let mut buf = Vec::with_capacity(8 + data.len());
    buf.extend_from_slice(&transaction.to_be_bytes());
    buf.extend_from_slice(&[0, 0]);
    let len = (data.len() as u16) + 2;
    buf.extend_from_slice(&len.to_be_bytes());
    buf.push(unit);
    buf.push(fc);
    buf.extend_from_slice(data);
    buf
}

fn conn(name: &str) -> ConnectionId {
    Arc::from(name)
}

fn frames(events: Vec<FrameEvent>) -> Vec<FramedDataUnit> {
    events
        .into_iter()
        .map(|e| match e {
            FrameEvent::Framing(f) => f,
            FrameEvent::FramingError(e) => panic!("unexpected {e:?}"),
        })
        .collect()
}

fn errors(events: &[FrameEvent]) -> Vec<&ModbusError> {
    events
        .iter()
        .map(|e| match e {
            FrameEvent::Framing(_) => panic!("unexpected frame"),
            FrameEvent::FramingError(e) => e,
        })
        .collect()
}

#[test]
fn test_reassembles_half_packet() {
    let mut application = TcpApplicationLayer::new();
    let c = conn("a");
    let request = mbap_request(1, 1, 0x03, &[0x00, 0x14, 0x00, 0x02]);
    assert_eq!(request.len(), 12);
    assert!(application.process_data_event(&request[..6], &c).is_empty());
    let got = frames(application.process_data_event(&request[6..], &c));
    assert_eq!(got.len(), 1);
    assert_eq!(got[0].adu.transaction, Some(1));
    assert_eq!(got[0].adu.unit, 1);
    assert_eq!(got[0].adu.fc, 0x03);
    assert_eq!(got[0].adu.data, vec![0x00, 0x14, 0x00, 0x02]);
}

#[test]
fn tcp_fragmentation_test_test_splits_sticky_packet() {
    let mut application = TcpApplicationLayer::new();
    let r1 = mbap_request(10, 1, 0x03, &[0x00, 0x14, 0x00, 0x01]);
    let r2 = mbap_request(11, 1, 0x03, &[0x00, 0x15, 0x00, 0x01]);
    let mut combined = r1.clone();
    combined.extend_from_slice(&r2);
    let got = frames(application.process_data_event(&combined, &conn("a")));
    assert_eq!(got.len(), 2);
    assert_eq!(got[0].adu.transaction, Some(10));
    assert_eq!(got[1].adu.transaction, Some(11));
    assert_eq!(got[0].raw, r1);
    assert_eq!(got[1].raw, r2);
}

#[test]
fn test_handles_mixed_full_plus_partial() {
    let mut application = TcpApplicationLayer::new();
    let c = conn("a");
    let r1 = mbap_request(20, 1, 0x03, &[0x00, 0x14, 0x00, 0x01]);
    let r2 = mbap_request(21, 1, 0x03, &[0x00, 0x14, 0x00, 0x01]);
    let mut chunk1 = r1.clone();
    chunk1.extend_from_slice(&r2[..4]);
    let first = frames(application.process_data_event(&chunk1, &c));
    let second = frames(application.process_data_event(&r2[4..], &c));
    assert_eq!(first.len(), 1);
    assert_eq!(first[0].adu.transaction, Some(20));
    assert_eq!(second.len(), 1);
    assert_eq!(second[0].adu.transaction, Some(21));
}

#[test]
fn tcp_fragmentation_test_test_handles_byte_by_byte_delivery() {
    let mut application = TcpApplicationLayer::new();
    let c = conn("a");
    let request = mbap_request(30, 1, 0x03, &[0x00, 0x14, 0x00, 0x02]);
    let mut got = Vec::new();
    for chunk in request.chunks(1) {
        got.extend(frames(application.process_data_event(chunk, &c)));
    }
    assert_eq!(got.len(), 1);
    assert_eq!(got[0].adu.transaction, Some(30));
    assert_eq!(got[0].adu.data, vec![0x00, 0x14, 0x00, 0x02]);
}

#[test]
fn tcp_fragmentation_test_test_isolates_multiple_clients_with_interleaved_halves() {
    let mut application = TcpApplicationLayer::new();
    let (a, b) = (conn("a"), conn("b"));
    let r_a = mbap_request(100, 1, 0x03, &[0x00, 0x14, 0x00, 0x01]);
    let r_b = mbap_request(200, 1, 0x03, &[0x00, 0x15, 0x00, 0x01]);
    assert!(application.process_data_event(&r_a[..6], &a).is_empty());
    assert!(application.process_data_event(&r_b[..6], &b).is_empty());
    let got_a = frames(application.process_data_event(&r_a[6..], &a));
    let got_b = frames(application.process_data_event(&r_b[6..], &b));
    assert_eq!(got_a[0].adu.transaction, Some(100));
    assert_eq!(got_b[0].adu.transaction, Some(200));
}

#[test]
fn test_rejects_invalid_protocol_id() {
    let mut application = TcpApplicationLayer::new();
    let c = conn("a");
    let mut bogus = mbap_request(300, 1, 0x03, &[0x00, 0x14, 0x00, 0x01]);
    bogus[2] = 0x12;
    bogus[3] = 0x34;
    let events = application.process_data_event(&bogus, &c);
    assert!(matches!(errors(&events)[..], [ModbusError::InvalidData]));

    // After the bogus frame, a subsequent valid frame is read as itself.
    let good = mbap_request(301, 1, 0x03, &[0x00, 0x14, 0x00, 0x01]);
    let got = frames(application.process_data_event(&good, &c));
    assert_eq!(got[0].adu.transaction, Some(301));
}

#[test]
fn test_caps_buffer_growth_on_absurd_length() {
    let mut application = TcpApplicationLayer::new();
    // length field = 0xFFFF → frame would be 0x10005, way past the longest frame.
    let mut header = vec![0u8; 8];
    header[0..2].copy_from_slice(&400u16.to_be_bytes());
    header[2..4].copy_from_slice(&[0, 0]);
    header[4..6].copy_from_slice(&0xffffu16.to_be_bytes());
    header[6] = 1;
    header[7] = 0x03;
    let events = application.process_data_event(&header, &conn("a"));
    assert!(matches!(errors(&events)[..], [ModbusError::InvalidData]));
}

#[test]
fn frames_of_every_admissible_length_are_found() {
    let mut application = TcpApplicationLayer::new();
    let c = conn("a");
    for n in [0usize, 1, 251, 252] {
        let adu = ApplicationDataUnit::new(3, 0x41, vec![0x5a; n]).with_transaction(9);
        let frame = application.encode(&adu);
        let got = frames(application.process_data_event(&frame, &c));
        assert_eq!(got.len(), 1);
        assert_eq!(got[0].adu.data, vec![0x5a; n]);
    }
    let adu = ApplicationDataUnit::new(3, 0x41, vec![0x5a; 253]).with_transaction(9);
    let frame = application.encode(&adu);
    let events = application.process_data_event(&frame, &c);
    assert!(matches!(errors(&events)[..], [ModbusError::InvalidData]));
    // A length field below 2 leaves no room for unit and function code.
    let events = application.process_data_event(&[0, 1, 0, 0, 0, 1, 1, 3], &c);
    assert!(matches!(errors(&events)[..], [ModbusError::InvalidData]));
}

#[test]
fn an_error_drops_the_rest_of_the_buffer() {
    let mut application = TcpApplicationLayer::new();
    let mut bytes = mbap_request(1, 1, 0x03, &[]);
    bytes.extend_from_slice(&[0, 2, 9, 9, 0, 2, 1, 3]);
    bytes.extend_from_slice(&mbap_request(3, 1, 0x03, &[]));
    let events = application.process_data_event(&bytes, &conn("a"));
    assert_eq!(events.len(), 2);
    assert!(matches!(&events[0], FrameEvent::Framing(f) if f.adu.transaction == Some(1)));
    assert!(matches!(events[1], FrameEvent::FramingError(ModbusError::InvalidData)));
}

#[test]
fn closing_and_flushing_forget_pending_bytes() {
    let request = mbap_request(1, 1, 0x03, &[0, 1, 0, 2]);
    let mut application = TcpApplicationLayer::new();
    let (a, b) = (conn("a"), conn("b"));
    application.process_data_event(&request[..6], &a);
    application.process_data_event(&request[..6], &b);
    application.connection_closed(&a);
    assert_eq!(frames(application.process_data_event(&request[6..], &b)).len(), 1);
    assert_eq!(frames(application.process_data_event(&request, &a)).len(), 1);
    application.process_data_event(&request[..6], &a);
    application.flush();
    assert_eq!(frames(application.process_data_event(&request, &a)).len(), 1);
}
