use rs_modbus::error::ModbusError;
use rs_modbus::layers::physical::serial::{DataBits, FlowControl, Parity, StopBits};
use rs_modbus::layers::physical::udp::{client_accepts, Datagram, PeerAddr, PeerIp};
use rs_modbus::layers::physical::{
    CloseEvents, ConnectionId, DataEvent, PhysicalLayerType, SerialPhysicalLayer,
    SerialPhysicalLayerOptions, TcpClientPhysicalLayer, TcpServerPhysicalLayer, UdpPhysicalLayer,
    UdpPhysicalLayerOptions,
};
use std::future::Future;
use std::pin::Pin;
use std::sync::Arc;

type ResponseFn = Arc<
    dyn Fn(Vec<u8>) -> Pin<Box<dyn Future<Output = Result<(), ModbusError>> + Send>> + Send + Sync,
>;

fn conn(name: &str) -> ConnectionId {
    Arc::from(name)
}

fn quiet(events: &CloseEvents) -> bool {
    events.connections.is_empty() && !events.closed
}

fn names(events: &CloseEvents) -> Vec<String> {
    let mut names: Vec<String> = events.connections.iter().map(|c| c.to_string()).collect();
    names.sort();
    names
}

#[test]
fn test_physical_layer_type_equality() {
    assert_eq!(PhysicalLayerType::Serial, PhysicalLayerType::Serial);
    assert_ne!(PhysicalLayerType::Serial, PhysicalLayerType::Net);
}

#[test]
fn test_data_event_clone_preserves_fields() {
    let response: ResponseFn = Arc::new(|_| Box::pin(async { Ok(()) }));
    let conn: ConnectionId = Arc::from("test-conn-1");
    let event = DataEvent {
        data: vec![1, 2, 3],
        response: Arc::clone(&response),
        connection: Arc::clone(&conn),
    };
    let cloned = event.clone();
    assert_eq!(cloned.data, vec![1, 2, 3]);
    assert_eq!(&*cloned.connection, "test-conn-1");
}

#[test]
fn test_connection_id_is_cheap_to_clone() {
    // ConnectionId should be Arc<str> so clone is O(1)
    let id: ConnectionId = Arc::from("hello");
    let cloned = Arc::clone(&id);
    assert_eq!(&*id, "hello");
    assert_eq!(&*cloned, "hello");
    // Both should point to same allocation
    assert!(Arc::ptr_eq(&id, &cloned));
}

#[test]
fn layers_know_their_type() {
    assert_eq!(TcpClientPhysicalLayer::new().layer_type(), PhysicalLayerType::Net);
    assert_eq!(TcpServerPhysicalLayer::new().layer_type(), PhysicalLayerType::Net);
    assert_eq!(UdpPhysicalLayer::new_server().layer_type(), PhysicalLayerType::Net);
    assert_eq!(serial(9600).layer_type(), PhysicalLayerType::Serial);
}

#[test]
fn test_write_before_open_fails() {
    let client = TcpClientPhysicalLayer::new();
    assert!(matches!(client.write(), Err(ModbusError::PortNotOpen)));
}

#[test]
fn test_server_write_not_supported() {
    let server = TcpServerPhysicalLayer::new();
    assert!(matches!(server.write(), Err(ModbusError::NotSupported)));
}

// ===== TCP client =====

#[test]
fn tcp_client_reopens_after_close_and_exchanges_data_again() {
    let mut phy = TcpClientPhysicalLayer::new();
    phy.set_addr("127.0.0.1:1502".to_string());
    assert_eq!(phy.open(None).unwrap(), "127.0.0.1:1502");
    phy.opened(conn("a"));
    assert!(phy.is_open());
    assert!(phy.write().is_ok());
    phy.close();
    assert!(!phy.is_open());

    assert_eq!(phy.open(None).unwrap(), "127.0.0.1:1502");
    phy.opened(conn("b"));
    assert!(phy.is_open());
    assert!(phy.write().is_ok());
    assert_eq!(names(&phy.destroy()), ["b"]);
}

#[test]
fn tcp_client_emits_close_event_on_user_initiated_close() {
    let mut phy = TcpClientPhysicalLayer::new();
    phy.open(None).unwrap();
    phy.opened(conn("a"));
    let events = phy.close();
    assert!(events.closed);
    assert_eq!(names(&events), ["a"]);
    // The reader notices afterwards; nobody is told twice.
    assert!(quiet(&phy.read_ended(&conn("a"))));
    assert!(quiet(&phy.close()));
}

#[test]
fn tcp_client_rejects_double_open() {
    let mut phy = TcpClientPhysicalLayer::new();
    phy.open(None).unwrap();
    assert!(matches!(phy.open(None), Err(ModbusError::PortAlreadyOpen)));
    phy.opened(conn("a"));
    let result = phy.open(None);
    assert!(
        matches!(result, Err(ModbusError::PortAlreadyOpen)),
        "expected PortAlreadyOpen, got {:?}",
        result
    );
}

#[test]
fn tcp_client_rejects_open_and_write_after_destroy() {
    let mut phy = TcpClientPhysicalLayer::new();
    phy.open(None).unwrap();
    phy.opened(conn("a"));
    assert!(phy.destroy().closed);
    assert!(phy.is_destroyed());
    assert!(matches!(phy.open(None), Err(ModbusError::PortDestroyed)));
    assert!(matches!(phy.write(), Err(ModbusError::PortNotOpen)));
    assert!(quiet(&phy.destroy()));
}

#[test]
fn tcp_client_addresses_have_an_order() {
    let mut phy = TcpClientPhysicalLayer::new();
    assert_eq!(phy.open(None).unwrap(), "127.0.0.1:502");
    assert!(matches!(
        phy.open_failed("refused".to_string()),
        ModbusError::ConnectionError(ref s) if s == "refused"
    ));
    phy.set_addr("10.0.0.1:502".to_string());
    assert_eq!(phy.open(Some("10.0.0.2:502".to_string())).unwrap(), "10.0.0.2:502");
    phy.open_failed("refused".to_string());
    assert_eq!(phy.open(None).unwrap(), "10.0.0.1:502");
}

#[test]
fn tcp_client_tells_when_the_peer_is_gone() {
    let mut phy = TcpClientPhysicalLayer::new();
    phy.open(None).unwrap();
    phy.opened(conn("a"));
    let events = phy.read_ended(&conn("a"));
    assert!(events.closed);
    assert_eq!(names(&events), ["a"]);
    assert!(!phy.is_open());
    assert!(quiet(&phy.close()));
}

// ===== TCP server =====

#[test]
fn tcp_server_reopens_after_close_and_accepts_new_client() {
    let mut phy = TcpServerPhysicalLayer::new();
    phy.set_addr("127.0.0.1:0".to_string());
    assert_eq!(phy.open(None).unwrap(), "127.0.0.1:0");
    phy.opened("127.0.0.1:40001".to_string());
    assert_eq!(phy.get_addr().unwrap(), "127.0.0.1:40001");
    phy.accepted(conn("a"));
    phy.close();
    assert_eq!(phy.open(None).unwrap(), "127.0.0.1:40001");
    phy.opened("127.0.0.1:40001".to_string());
    phy.accepted(conn("b"));
    assert!(phy.is_open());
    assert_eq!(names(&phy.close()), ["b"]);
}

#[test]
fn tcp_server_emits_close_event_on_user_initiated_close() {
    let mut phy = TcpServerPhysicalLayer::new();
    phy.open(None).unwrap();
    phy.opened("[::]:502".to_string());
    let events = phy.close();
    assert!(events.closed);
    assert!(events.connections.is_empty());
    assert!(quiet(&phy.close()));
    assert!(!phy.accept_ended().closed);
}

#[test]
fn tcp_server_emits_connection_close_for_active_clients_on_close() {
    let mut phy = TcpServerPhysicalLayer::new();
    phy.open(None).unwrap();
    phy.opened("[::]:502".to_string());
    for name in ["a", "b", "c"] {
        phy.accepted(conn(name));
    }
    assert!(phy.client_ended(&conn("b")));
    assert!(!phy.client_ended(&conn("b")));
    let events = phy.close();
    assert!(events.closed);
    assert_eq!(names(&events), ["a", "c"]);
    // The readers of the clients notice afterwards; nobody is told twice.
    assert!(!phy.client_ended(&conn("a")));
}

#[test]
fn test_tcp_server_emits_connection_close() {
    let mut server = TcpServerPhysicalLayer::new();
    server.open(None).unwrap();
    server.opened("127.0.0.1:502".to_string());
    server.accepted(conn("a"));
    assert!(server.client_ended(&conn("a")));
}

#[test]
fn tcp_server_rejects_double_open() {
    let mut phy = TcpServerPhysicalLayer::new();
    phy.open(None).unwrap();
    phy.opened("[::]:502".to_string());
    let result = phy.open(None);
    assert!(
        matches!(result, Err(ModbusError::PortAlreadyOpen)),
        "expected PortAlreadyOpen, got {:?}",
        result
    );
}

#[test]
fn tcp_server_rejects_open_after_destroy() {
    let mut phy = TcpServerPhysicalLayer::new();
    assert_eq!(phy.open(None).unwrap(), "[::]:502");
    phy.opened("[::]:502".to_string());
    phy.accepted(conn("a"));
    assert_eq!(names(&phy.destroy()), ["a"]);
    assert!(phy.is_destroyed());
    assert!(!phy.is_open());
    assert!(matches!(phy.open(None), Err(ModbusError::PortDestroyed)));
    assert!(quiet(&phy.destroy()));
}

#[test]
fn a_failing_listener_leaves_the_clients_alone() {
    let mut phy = TcpServerPhysicalLayer::new();
    phy.open(None).unwrap();
    assert!(matches!(
        phy.open_failed("in use".to_string()),
        ModbusError::ConnectionError(ref s) if s == "in use"
    ));
    phy.open(None).unwrap();
    phy.opened("[::]:502".to_string());
    phy.accepted(conn("a"));
    let events = phy.accept_ended();
    assert!(events.closed && events.connections.is_empty());
    assert!(phy.client_ended(&conn("a")));
}

// ===== UDP =====

fn peer(port: u16) -> PeerAddr {
    PeerAddr {
        ip: PeerIp::V4(0x7f00_0001),
        port,
        flowinfo: 0,
        scope_id: 0,
    }
}

fn open_server(options: UdpPhysicalLayerOptions) -> UdpPhysicalLayer {
    let mut phy = UdpPhysicalLayer::new_server_with_options(options);
    phy.set_local_addr("127.0.0.1:0".to_string());
    assert_eq!(phy.open().unwrap(), "127.0.0.1:0");
    phy.opened(None);
    phy
}

fn receive(phy: &mut UdpPhysicalLayer, from: PeerAddr, fresh: &str) -> Option<String> {
    match phy.datagram(&from) {
        Datagram::Drop => None,
        Datagram::Known(c) => Some(c.to_string()),
        Datagram::New => {
            phy.register(from, conn(fresh));
            Some(fresh.to_string())
        }
    }
}

#[test]
fn udp_reopens_after_close_and_receives_new_datagram() {
    let mut phy = open_server(UdpPhysicalLayerOptions::default());
    receive(&mut phy, peer(1), "a");
    phy.close();
    assert_eq!(phy.open().unwrap(), "127.0.0.1:0");
    phy.opened(None);
    assert!(phy.is_open());
    // The peers of the earlier session are forgotten.
    assert_eq!(receive(&mut phy, peer(1), "b").unwrap(), "b");
}

#[test]
fn udp_emits_close_event_on_user_initiated_close() {
    let mut phy = open_server(UdpPhysicalLayerOptions::default());
    assert!(phy.close().closed);
    assert!(quiet(&phy.close()));
    assert!(quiet(&phy.receive_ended()));
}

#[test]
fn udp_rejects_double_open() {
    let mut phy = open_server(UdpPhysicalLayerOptions::default());
    let result = phy.open();
    assert!(
        matches!(result, Err(ModbusError::PortAlreadyOpen)),
        "expected PortAlreadyOpen, got {:?}",
        result
    );
}

#[test]
fn udp_rejects_open_after_destroy() {
    let mut phy = open_server(UdpPhysicalLayerOptions::default());
    assert!(phy.destroy().closed);
    assert!(phy.is_destroyed());
    assert!(matches!(phy.open(), Err(ModbusError::PortDestroyed)));
}

#[test]
fn per_rinfo_distinct_connection_ids() {
    let mut phy = open_server(UdpPhysicalLayerOptions::default());
    let ids: Vec<String> = [(1, "a"), (2, "b"), (3, "c")]
        .iter()
        .map(|(port, name)| receive(&mut phy, peer(*port), name).unwrap())
        .collect();
    assert_eq!(ids, ["a", "b", "c"]);
}

#[test]
fn same_rinfo_keeps_stable_connection_id() {
    let mut phy = open_server(UdpPhysicalLayerOptions::default());
    for fresh in ["a", "b", "c"] {
        assert_eq!(receive(&mut phy, peer(1), fresh).unwrap(), "a");
    }
}

#[test]
fn idle_rinfo_evicted_after_timeout() {
    let mut phy = open_server(UdpPhysicalLayerOptions { idle_timeout_ms: 60 });
    receive(&mut phy, peer(1), "a");
    assert_eq!(phy.idle_timer(), Some(60));
    // Evicted exactly once with the same id.
    assert!(!phy.idle_elapsed(&peer(1), &conn("other")));
    assert!(phy.idle_elapsed(&peer(1), &conn("a")));
    assert!(!phy.idle_elapsed(&peer(1), &conn("a")));
    assert_eq!(receive(&mut phy, peer(1), "b").unwrap(), "b");
}

#[test]
fn idle_timeout_zero_disables_eviction() {
    let phy = open_server(UdpPhysicalLayerOptions { idle_timeout_ms: 0 });
    assert_eq!(phy.idle_timer(), None);
    assert_eq!(UdpPhysicalLayer::new_server().idle_timer(), Some(30000));
    let client = UdpPhysicalLayer::new_client_with_options(
        "127.0.0.1:502".to_string(),
        UdpPhysicalLayerOptions { idle_timeout_ms: 60 },
    );
    assert_eq!(client.idle_timer(), None);
}

#[test]
fn close_emits_connection_close_per_active_rinfo() {
    let mut phy = open_server(UdpPhysicalLayerOptions { idle_timeout_ms: 0 });
    receive(&mut phy, peer(1), "a");
    receive(&mut phy, peer(2), "b");
    let events = phy.close();
    assert!(events.closed);
    assert_eq!(names(&events), ["a", "b"]);
}

#[test]
fn client_mode_drops_datagrams_from_unexpected_senders() {
    let mut phy = UdpPhysicalLayer::new_client("127.0.0.1:5020".to_string());
    assert_eq!(phy.open().unwrap(), "0.0.0.0:0");
    assert_eq!(phy.remote_addr().unwrap(), "127.0.0.1:5020");
    phy.opened(Some(peer(5020)));
    assert_eq!(phy.write().unwrap(), "127.0.0.1:5020");
    assert_eq!(receive(&mut phy, peer(5020), "a").unwrap(), "a");
    assert_eq!(receive(&mut phy, peer(5021), "b"), None);
    let elsewhere = PeerAddr {
        ip: PeerIp::V4(0x0a00_0001),
        ..peer(5020)
    };
    assert_eq!(receive(&mut phy, elsewhere, "c"), None);
}

#[test]
fn clients_listen_by_port_and_address() {
    let any_v4 = PeerAddr { ip: PeerIp::V4(0), ..peer(7) };
    let any_v6 = PeerAddr { ip: PeerIp::V6(0), ..peer(7) };
    assert!(client_accepts(&peer(7), &peer(7)));
    assert!(!client_accepts(&peer(7), &peer(8)));
    assert!(client_accepts(&any_v4, &peer(7)));
    assert!(client_accepts(&any_v6, &peer(7)));
    assert!(!client_accepts(&any_v6, &peer(8)));
    let v6 = PeerAddr { ip: PeerIp::V6(1), ..peer(7) };
    assert!(!client_accepts(&peer(7), &v6));
    let scoped = PeerAddr { scope_id: 3, ..v6 };
    assert!(client_accepts(&v6, &scoped));
}

#[test]
fn a_server_has_nobody_to_write_to() {
    let mut phy = UdpPhysicalLayer::new_server();
    assert!(matches!(phy.write(), Err(ModbusError::PortNotOpen)));
    assert_eq!(phy.open().unwrap(), "[::]:502");
    assert!(matches!(
        phy.open_failed("in use".to_string()),
        ModbusError::ConnectionError(ref s) if s == "in use"
    ));
    phy.open().unwrap();
    phy.opened(Some(peer(1)));
    assert!(matches!(
        phy.write(),
        Err(ModbusError::ConnectionError(ref s)) if s == "No remote address for server"
    ));
    // A server listens to everybody.
    assert_eq!(receive(&mut phy, peer(2), "a").unwrap(), "a");
}

#[test]
fn udp_ids_name_their_side() {
    let client = UdpPhysicalLayer::new_client("127.0.0.1:5020".to_string());
    assert_eq!(client.connection_prefix(), "udp-client");
    assert_eq!(UdpPhysicalLayer::new_server().connection_prefix(), "udp-server");
}

#[test]
fn udp_sessions_end_once() {
    let mut phy = open_server(UdpPhysicalLayerOptions::default());
    assert!(phy.receive_ended().closed);
    assert!(quiet(&phy.close()));
    assert!(quiet(&phy.receive_ended()));
    phy.open().unwrap();
    phy.opened(None);
    assert!(phy.destroy().closed);
    assert!(quiet(&phy.close()));
    assert!(matches!(phy.open(), Err(ModbusError::PortDestroyed)));
}

// ===== serial =====

fn serial(baud_rate: u32) -> SerialPhysicalLayer {
    SerialPhysicalLayer::new(SerialPhysicalLayerOptions {
        baud_rate,
        ..Default::default()
    })
}

#[test]
fn serial_ports_have_the_usual_settings() {
    let options = SerialPhysicalLayerOptions::default().clone();
    assert_eq!((options.path.as_str(), options.baud_rate), ("", 9600));
    assert_eq!((options.data_bits, options.stop_bits), (DataBits::Eight, StopBits::One));
    assert_eq!((options.parity, options.flow_control), (None, None));
    assert_eq!(options.timeout_ms, 100);
    let odd = SerialPhysicalLayerOptions {
        parity: Some(Parity::Odd),
        flow_control: Some(FlowControl::Hardware),
        ..options
    };
    let phy = SerialPhysicalLayer::new(odd);
    assert_eq!(phy.baud_rate(), 9600);
    assert_eq!(phy.options.parity, Some(Parity::Odd));
    assert_eq!(phy.options.flow_control, Some(FlowControl::Hardware));
}

#[test]
fn serial_rejects_open_after_destroy() {
    let mut phy = serial(9600);
    phy.destroy();
    assert!(matches!(phy.open(), Err(ModbusError::PortDestroyed)));
}

#[test]
fn serial_close_before_open_is_noop() {
    let mut phy = serial(9600);
    assert!(quiet(&phy.close()));
}

#[test]
fn serial_sessions_end_once() {
    let mut phy = serial(19200);
    assert_eq!(phy.baud_rate(), 19200);
    assert!(matches!(phy.write(), Err(ModbusError::PortNotOpen)));
    phy.open().unwrap();
    assert!(matches!(phy.open(), Err(ModbusError::PortAlreadyOpen)));
    phy.open_failed("busy".to_string());
    phy.open().unwrap();
    phy.opened(conn("tty"));
    assert!(phy.write().is_ok());
    let events = phy.close();
    assert!(events.closed);
    assert_eq!(names(&events), ["tty"]);
    assert!(quiet(&phy.read_ended(&conn("tty"))));
    phy.open().unwrap();
    phy.opened(conn("tty2"));
    assert_eq!(names(&phy.read_ended(&conn("tty2"))), ["tty2"]);
    assert!(!phy.is_open());
    assert!(!phy.is_destroyed());
}
