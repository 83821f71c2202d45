use rs_modbus::error::ModbusError;
use rs_modbus::layers::application::Framing;
use rs_modbus::master_session::{
    run_pre_checks, CheckResult, MasterSession, PreCheck, PreCheckOutcome, WaiterKey,
};
use rs_modbus::types::ApplicationDataUnit;
use std::sync::Arc;

type Session = MasterSession<&'static str>;

fn fake_framing(unit: u8, fc: u8, data: Vec<u8>) -> Framing<()> {
    Framing {
        adu: ApplicationDataUnit::new(unit, fc, data.clone()),
        raw: data,
        response: (),
        connection: Arc::from("test"),
    }
}

fn fake_framing_with_tid(unit: u8, fc: u8, data: Vec<u8>, tid: u16) -> Framing<()> {
    let mut f = fake_framing(unit, fc, data);
    f.adu.transaction = Some(tid);
    f
}

fn always_pass() -> PreCheck {
    PreCheck::Decided(PreCheckOutcome::Pass)
}

#[test]
fn test_fifo_waiter_resolves_on_matching_frame() {
    let mut session = Session::new();
    assert!(session.start(WaiterKey::Fifo, vec![always_pass()], "rx").is_none());
    let (to, result) = session.handle_frame(fake_framing(1, 0x03, vec![0x01])).unwrap();
    assert_eq!(to, "rx");
    assert!(result.is_ok());
    assert_eq!(result.unwrap_or_else(|_| unreachable!()).adu.unit, 1);
}

#[test]
fn test_handle_frame_with_no_waiter_is_noop() {
    let mut session = Session::new();
    assert!(session.handle_frame(fake_framing(1, 0x03, vec![])).is_none());
    session.start(WaiterKey::Fifo, vec![always_pass()], "rx");
    let (_, resolved) = session.handle_frame(fake_framing(2, 0x04, vec![])).unwrap();
    assert_eq!(resolved.ok().unwrap().adu.unit, 2);
}

#[test]
fn test_handle_error_rejects_every_waiter() {
    let mut session = Session::new();
    session.start(WaiterKey::Fifo, vec![always_pass()], "fifo");
    session.start(WaiterKey::Tid(7), vec![always_pass()], "tid");
    let rejections = session.handle_error(ModbusError::Timeout);
    let mut told: Vec<&str> = rejections.iter().map(|r| r.sender).collect();
    told.sort();
    assert_eq!(told, ["fifo", "tid"]);
    for r in &rejections {
        assert!(matches!(r.error, ModbusError::Timeout));
    }
    assert!(!session.has(WaiterKey::Fifo));
    assert!(!session.has(WaiterKey::Tid(7)));
}

#[test]
fn test_stop_drops_waiter_silently() {
    let mut session = Session::new();
    session.start(WaiterKey::Fifo, vec![always_pass()], "rx");
    assert_eq!(session.stop(WaiterKey::Fifo), Some("rx"));
    assert!(session.handle_frame(fake_framing(1, 0x03, vec![])).is_none());
    assert_eq!(session.stop(WaiterKey::Fifo), None);
}

#[test]
fn test_stop_all_rejects_each_waiter_independently() {
    let mut session = Session::new();
    session.start(WaiterKey::Tid(1), vec![always_pass()], "a");
    session.start(WaiterKey::Tid(2), vec![always_pass()], "b");
    let mut rejections = session.stop_all(ModbusError::InvalidState("Master closed".into()));
    rejections.sort_by_key(|r| r.sender);
    assert_eq!(rejections.len(), 2);
    assert_eq!((rejections[0].key, rejections[0].sender), (WaiterKey::Tid(1), "a"));
    assert_eq!((rejections[1].key, rejections[1].sender), (WaiterKey::Tid(2), "b"));
    for r in &rejections {
        assert!(matches!(r.error, ModbusError::InvalidState(ref s) if s == "Master closed"));
    }
}

#[test]
fn test_has_returns_correct_state() {
    let mut session = Session::default();
    assert!(!session.has(WaiterKey::Fifo));
    session.start(WaiterKey::Fifo, vec![always_pass()], "rx");
    assert!(session.has(WaiterKey::Fifo));
    assert!(!session.has(WaiterKey::Tid(0)));
    session.stop(WaiterKey::Fifo);
    assert!(!session.has(WaiterKey::Fifo));
}

#[test]
fn test_tid_routing_isolates_independent_waiters() {
    let mut session = Session::new();
    session.start(WaiterKey::Tid(7), vec![always_pass()], "seven");
    session.start(WaiterKey::Tid(8), vec![always_pass()], "eight");

    // Push tid=8 first — only tid8 waiter should resolve.
    let (to, resolved8) = session
        .handle_frame(fake_framing_with_tid(1, 0x03, vec![], 8))
        .unwrap();
    assert_eq!(to, "eight");
    assert_eq!(resolved8.ok().unwrap().adu.transaction, Some(8));

    // tid=7 still pending.
    assert!(session.has(WaiterKey::Tid(7)));

    let (to, resolved7) = session
        .handle_frame(fake_framing_with_tid(1, 0x03, vec![], 7))
        .unwrap();
    assert_eq!(to, "seven");
    assert_eq!(resolved7.ok().unwrap().adu.transaction, Some(7));
}

#[test]
fn test_fifo_frame_does_not_resolve_tid_waiter() {
    let mut session = Session::new();
    session.start(WaiterKey::Tid(7), vec![always_pass()], "rx");
    // RTU-style frame without TID lands on the FIFO slot — not tid=7.
    assert!(session.handle_frame(fake_framing(1, 0x03, vec![])).is_none());
    assert!(session.has(WaiterKey::Tid(7)));
    assert_eq!(session.stop(WaiterKey::Tid(7)), Some("rx"));
}

fn outcome_of(check: PreCheck, data: Vec<u8>) -> Result<Framing<()>, ModbusError> {
    let mut session = Session::new();
    session.start(WaiterKey::Fifo, vec![check], "rx");
    session.handle_frame(fake_framing(1, 0x03, data)).unwrap().1
}

#[test]
fn test_pre_check_fail_returns_error() {
    let fail = PreCheck::Decided(PreCheckOutcome::Fail(ModbusError::IllegalDataAddress));
    assert!(matches!(
        outcome_of(fail, vec![]),
        Err(ModbusError::IllegalDataAddress)
    ));
}

#[test]
fn test_pre_check_insufficient_data_returns_error() {
    let insuff = PreCheck::Decided(PreCheckOutcome::InsufficientData);
    assert!(matches!(
        outcome_of(insuff, vec![]),
        Err(ModbusError::InsufficientData)
    ));
}

#[test]
fn test_need_length_exact_passes() {
    let check = PreCheck::Decided(PreCheckOutcome::NeedLength(3));
    assert!(outcome_of(check, vec![1, 2, 3]).is_ok());
}

#[test]
fn test_need_length_too_short_rejects_insufficient() {
    let check = PreCheck::Decided(PreCheckOutcome::NeedLength(5));
    assert!(matches!(
        outcome_of(check, vec![1, 2, 3]),
        Err(ModbusError::InsufficientData)
    ));
}

#[test]
fn test_need_length_too_long_rejects_invalid_response() {
    let check = PreCheck::Decided(PreCheckOutcome::NeedLength(2));
    assert!(matches!(
        outcome_of(check, vec![1, 2, 3, 4]),
        Err(ModbusError::InvalidResponse)
    ));
}

// ===== more =====

fn verdict(checks: Vec<PreCheck>, adu: ApplicationDataUnit) -> Option<String> {
    match run_pre_checks(&adu, &checks) {
        CheckResult::Pass => None,
        CheckResult::Reject(e) => Some(e.message()),
    }
}

#[test]
fn the_first_rejection_decides() {
    let adu = ApplicationDataUnit::new(1, 0x03, vec![2, 0, 1]);
    let checks = vec![
        PreCheck::UnitFc { unit: 1, fc: 0x03 },
        PreCheck::Length(5),
        PreCheck::Decided(PreCheckOutcome::Fail(ModbusError::Timeout)),
    ];
    assert_eq!(verdict(checks, adu).unwrap(), "Insufficient data length");
    let adu = ApplicationDataUnit::new(2, 0x03, vec![2, 0, 1]);
    let checks = vec![PreCheck::UnitFc { unit: 1, fc: 0x03 }, PreCheck::Length(5)];
    assert_eq!(verdict(checks, adu).unwrap(), "Invalid response");
}

#[test]
fn checks_look_at_what_they_name() {
    let adu = || ApplicationDataUnit::new(1, 0x03, vec![2, 0, 1]).with_transaction(5);
    assert!(verdict(vec![PreCheck::Transaction(5)], adu()).is_none());
    assert!(verdict(vec![PreCheck::Transaction(6)], adu()).is_some());
    assert!(verdict(vec![PreCheck::ByteCount(2)], adu()).is_none());
    assert!(verdict(vec![PreCheck::ByteCount(3)], adu()).is_some());
    assert!(verdict(vec![PreCheck::Echo(vec![2, 0, 1])], adu()).is_none());
    assert!(verdict(vec![PreCheck::Echo(vec![2, 0])], adu()).is_some());
    assert!(verdict(vec![PreCheck::Counted], adu()).is_none());
    let empty = ApplicationDataUnit::new(1, 0x03, vec![]);
    assert!(verdict(vec![PreCheck::Transaction(5)], empty.clone()).is_some());
    assert!(verdict(vec![PreCheck::ByteCount(0)], empty.clone()).is_some());
    assert_eq!(
        verdict(vec![PreCheck::Counted], empty).unwrap(),
        "Insufficient data length"
    );
}

#[test]
fn identification_objects_have_to_fill_the_data() {
    let check = || vec![PreCheck::DeviceIdentification(1)];
    let adu = |data: &[u8]| ApplicationDataUnit::new(1, 0x2b, data.to_vec());
    assert!(verdict(check(), adu(&[0x0e, 1, 0x81, 0, 0, 1, 0, 2, 65, 66])).is_none());
    assert!(verdict(check(), adu(&[0x0e, 1, 0x81, 0, 0, 0])).is_none());
    assert_eq!(
        verdict(check(), adu(&[0x0e, 1, 0x81, 0, 0, 1, 0, 2, 65])).unwrap(),
        "Insufficient data length"
    );
    assert_eq!(
        verdict(check(), adu(&[0x0e, 1, 0x81, 0, 0, 2, 0, 1, 65, 1])).unwrap(),
        "Insufficient data length"
    );
    assert_eq!(
        verdict(check(), adu(&[0x0e, 1, 0x81, 0, 0, 1, 0, 1, 65, 66])).unwrap(),
        "Invalid response"
    );
    assert_eq!(
        verdict(check(), adu(&[0x0e, 2, 0x81, 0, 0, 0])).unwrap(),
        "Invalid response"
    );
    assert_eq!(verdict(check(), adu(&[0x0e, 1, 0x81])).unwrap(), "Invalid response");
}

#[test]
fn a_second_waiter_replaces_the_first() {
    let mut session = Session::new();
    session.start(WaiterKey::Tid(1), vec![always_pass()], "old");
    assert_eq!(session.start(WaiterKey::Tid(1), vec![], "new"), Some("old"));
    let (to, _) = session
        .handle_frame(fake_framing_with_tid(1, 3, vec![], 1))
        .unwrap();
    assert_eq!(to, "new");
}
