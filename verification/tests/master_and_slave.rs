use rs_modbus::error::ModbusError;
use rs_modbus::layers::application::{
    supports_concurrency, ApplicationProtocol, ApplicationRole, AsciiApplicationLayer, FrameEvent,
    Framing, RtuApplicationLayer, TcpApplicationLayer,
};
use rs_modbus::layers::physical::ConnectionId;
use rs_modbus::master::{
    CleanLevel, MasterRequest, ModbusMaster, ModbusMasterOptions, WaitOutcome,
};
use rs_modbus::master_session::WaiterKey;
use rs_modbus::slave::answer::{response_error, ModelReply};
use rs_modbus::slave::locks::{lock_order, LockTable};
use rs_modbus::slave::plan::{addresses_fit, plan_request, ModelCall, Plan};
use rs_modbus::slave::steps::{after_intercept, after_write, Action, NextStep, Outcome};
use rs_modbus::slave::{
    mask_register, next_single_write, Arrival, ModbusSlave, ModbusSlaveModel, ModbusSlaveOptions,
    WriteStep,
};
use rs_modbus::types::{
    AddressRange, ApplicationDataUnit, CustomFcPredict, CustomFunctionCode, DeviceIdentification,
    FramedDataUnit, ServerId,
};
use std::cell::RefCell;
use std::collections::HashMap;
use std::sync::Arc;

const UNIT: u8 = 1;

// ===== a model, and a line between a master and a slave =====

#[derive(Default)]
struct TestModel {
    unit: u8,
    range: AddressRange,
    coils: RefCell<HashMap<u16, bool>>,
    discrete_inputs: RefCell<HashMap<u16, bool>>,
    holding_registers: RefCell<HashMap<u16, u16>>,
    input_registers: RefCell<HashMap<u16, u16>>,
    server_id: Option<(Vec<u8>, bool, Vec<u8>)>,
    ident: Option<HashMap<u8, String>>,
    writes: RefCell<Vec<(u16, u16)>>,
    fail_at: Option<u16>,
}

impl TestModel {
    fn new() -> Self {
        TestModel {
            unit: UNIT,
            ..Default::default()
        }
    }
}

/// A handle on a model, so that tests can look into it.
#[derive(Clone)]
struct Handle(std::rc::Rc<TestModel>);

impl ModbusSlaveModel for Handle {
    fn unit(&self) -> u8 {
        self.0.unit
    }

    fn address_range(&self) -> AddressRange {
        self.0.range.clone()
    }

    fn intercept(&self, fc: u8, data: &[u8]) -> Result<Option<Vec<u8>>, ModbusError> {
        match fc {
            0x64 => {
                let mut response = data.to_vec();
                response.push(0xAB);
                Ok(Some(response))
            }
            0x63 => Err(ModbusError::IllegalDataValue),
            _ => Ok(None),
        }
    }

    fn read_coils(&self, address: u16, length: u16) -> Result<Vec<bool>, ModbusError> {
        let guard = self.0.coils.borrow();
        Ok((0..length)
            .map(|i| *guard.get(&(address + i)).unwrap_or(&false))
            .collect())
    }

    fn read_discrete_inputs(&self, address: u16, length: u16) -> Result<Vec<bool>, ModbusError> {
        let guard = self.0.discrete_inputs.borrow();
        Ok((0..length)
            .map(|i| *guard.get(&(address + i)).unwrap_or(&false))
            .collect())
    }

    fn read_holding_registers(&self, address: u16, length: u16) -> Result<Vec<u16>, ModbusError> {
        let guard = self.0.holding_registers.borrow();
        Ok((0..length)
            .map(|i| *guard.get(&(address + i)).unwrap_or(&0))
            .collect())
    }

    fn read_input_registers(&self, address: u16, length: u16) -> Result<Vec<u16>, ModbusError> {
        let guard = self.0.input_registers.borrow();
        Ok((0..length)
            .map(|i| *guard.get(&(address + i)).unwrap_or(&0))
            .collect())
    }

    fn write_single_coil(&self, address: u16, value: bool) -> Result<(), ModbusError> {
        if self.0.fail_at == Some(address) {
            return Err(ModbusError::ModbusErrorCode(0x06));
        }
        self.0.coils.borrow_mut().insert(address, value);
        Ok(())
    }

    fn write_single_register(&self, address: u16, value: u16) -> Result<(), ModbusError> {
        if self.0.fail_at == Some(address) {
            return Err(ModbusError::Timeout);
        }
        self.0.writes.borrow_mut().push((address, value));
        self.0.holding_registers.borrow_mut().insert(address, value);
        Ok(())
    }

    fn report_server_id(&self) -> Result<ServerId, ModbusError> {
        match &self.0.server_id {
            Some((id, run, more)) => Ok(ServerId {
                server_id: id.clone(),
                run_indicator_status: *run,
                additional_data: more.clone(),
            }),
            None => Err(ModbusError::IllegalFunction),
        }
    }

    fn read_device_identification(&self) -> Result<HashMap<u8, String>, ModbusError> {
        match &self.0.ident {
            Some(ident) => Ok(ident.clone()),
            None => Err(ModbusError::IllegalFunction),
        }
    }
}

struct Echo;

impl Echo {
    fn handle(&self, data: Vec<u8>, unit: u8) -> Result<Vec<u8>, ModbusError> {
        if data.is_empty() {
            return Err(ModbusError::IllegalDataValue);
        }
        let mut reply = data;
        reply.push(unit);
        Ok(reply)
    }
}

type SlaveOf<M> = ModbusSlave<M, CustomFcPredict, Echo, ()>;
type Slave = SlaveOf<Handle>;
type Codes = HashMap<u8, Arc<CustomFunctionCode<CustomFcPredict, Echo>>>;
type Master = ModbusMaster<&'static str>;

struct Line {
    master: Master,
    master_app: TcpApplicationLayer,
    slave: Slave,
    slave_app: TcpApplicationLayer,
    codes: Codes,
}

fn conn() -> ConnectionId {
    Arc::from("line")
}

fn line_with(models: Vec<TestModel>, concurrent: bool) -> (Line, Vec<Handle>) {
    let mut line = Line {
        master: ModbusMaster::new(
            ApplicationProtocol::Tcp,
            ModbusMasterOptions {
                timeout_ms: 1000,
                concurrent,
            },
        ),
        master_app: TcpApplicationLayer::new(),
        slave: ModbusSlave::new(ApplicationProtocol::Tcp),
        slave_app: TcpApplicationLayer::new(),
        codes: HashMap::new(),
    };
    line.master_app.set_role(ApplicationRole::Master).unwrap();
    line.slave_app.set_role(ApplicationRole::Slave).unwrap();
    line.master.open().unwrap();
    line.codes = line.slave.open();
    let handles: Vec<Handle> = models
        .into_iter()
        .map(|m| Handle(std::rc::Rc::new(m)))
        .collect();
    for h in &handles {
        line.slave.add(h.unit(), h.clone());
    }
    (line, handles)
}

fn line(model: TestModel) -> (Line, Handle) {
    let (line, mut handles) = line_with(vec![model], false);
    (line, handles.remove(0))
}

/// Have the model carry out a call.
fn perform<M: ModbusSlaveModel>(model: &M, call: ModelCall) -> ModelReply {
    match call {
        ModelCall::ReadCoils { address, length } => {
            ModelReply::Bits(model.read_coils(address, length))
        }
        ModelCall::ReadDiscreteInputs { address, length } => {
            ModelReply::Bits(model.read_discrete_inputs(address, length))
        }
        ModelCall::ReadHoldingRegisters { address, length } => {
            ModelReply::Registers(model.read_holding_registers(address, length))
        }
        ModelCall::ReadInputRegisters { address, length } => {
            ModelReply::Registers(model.read_input_registers(address, length))
        }
        ModelCall::WriteSingleCoil { address, value } => {
            ModelReply::Done(model.write_single_coil(address, value))
        }
        ModelCall::WriteSingleRegister { address, value } => {
            ModelReply::Done(model.write_single_register(address, value))
        }
        ModelCall::WriteMultipleCoils { address, values } => {
            ModelReply::Done(model.write_multiple_coils(address, &values))
        }
        ModelCall::WriteMultipleRegisters { address, values } => {
            ModelReply::Done(model.write_multiple_registers(address, &values))
        }
        ModelCall::ReportServerId => ModelReply::ServerId {
            unit: model.unit(),
            id: model.report_server_id(),
        },
        ModelCall::MaskWriteRegister {
            address,
            and_mask,
            or_mask,
        } => ModelReply::Done(model.mask_write_register(address, and_mask, or_mask)),
        ModelCall::ReadDeviceIdentification { .. } => {
            ModelReply::Identification(model.read_device_identification())
        }
    }
}

/// Carry a request out, over a line on which answers go out or do not. Gives the
/// answers, and what was done.
fn drive<M: ModbusSlaveModel>(
    slave: &SlaveOf<M>,
    codes: &Codes,
    adu: &ApplicationDataUnit,
    line_works: bool,
) -> (Vec<ApplicationDataUnit>, Vec<String>) {
    let (mut run, mut action) = slave.process_frame(codes, adu.clone());
    let (mut sent, mut log) = (vec![], vec![]);
    loop {
        let outcome = match action {
            Action::Intercept { unit } => {
                log.push(format!("see {unit}"));
                let model = &slave.models()[&unit];
                Outcome::Seen(model.intercept(adu.fc, &adu.data), model.address_range())
            }
            Action::Call { unit, call, locks } => {
                log.push(format!("{call:?} of {unit} under {locks:?}"));
                Outcome::Replied(perform(&slave.models()[&unit], call))
            }
            Action::Handle { data } => {
                log.push("handle".to_string());
                let handler = codes[&adu.fc].handle.as_ref().unwrap();
                Outcome::Handled(handler.handle(data, adu.unit))
            }
            Action::Send(reply) => {
                log.push("send".to_string());
                sent.push(reply);
                Outcome::Sent(if line_works {
                    Ok(())
                } else {
                    Err(ModbusError::Timeout)
                })
            }
            Action::Done => return (sent, log),
        };
        action = run.next(outcome);
    }
}

struct Reply {
    adu: ApplicationDataUnit,
    /// The failure to send the answer is answered with an exception.
    report_failure: bool,
}

/// The answer to a request, which the line swallows.
fn reply_to<M: ModbusSlaveModel>(
    slave: &SlaveOf<M>,
    codes: &Codes,
    adu: &ApplicationDataUnit,
) -> Option<Reply> {
    let (mut sent, _) = drive(slave, codes, adu, false);
    let report_failure = sent.len() > 1;
    if report_failure {
        let failure = sent.remove(1);
        assert_eq!((failure.fc, failure.data), (adu.fc | 0x80, vec![4]));
    }
    assert!(sent.len() <= 1);
    sent.pop().map(|adu| Reply { adu, report_failure })
}

impl Line {
    fn process(&self, adu: &ApplicationDataUnit) -> Option<Reply> {
        reply_to(&self.slave, &self.codes, adu)
    }

    fn log(&self, adu: &ApplicationDataUnit) -> Vec<String> {
        drive(&self.slave, &self.codes, adu, true).1
    }

    /// What the slave sends back for the bytes of a request.
    fn answer(&mut self, bytes: &[u8]) -> Option<Vec<u8>> {
        let mut sent = None;
        for event in self.slave_app.process_data_event(bytes, &conn()) {
            let FrameEvent::Framing(frame) = event else {
                panic!("the slave reads every request");
            };
            for adu in drive(&self.slave, &self.codes, &frame.adu, true).0 {
                assert!(sent.is_none());
                sent = Some(self.slave_app.encode(&adu));
            }
        }
        sent
    }

    /// A whole exchange. Without an answer the request times out.
    fn exchange(
        &mut self,
        request: MasterRequest,
    ) -> Result<Option<ApplicationDataUnit>, ModbusError> {
        assert!(self.master.enter()?);
        let dispatch = self.master.dispatch(&request.adu, request.checks, "rx")?;
        assert!(dispatch.flush);
        let bytes = self.master_app.encode(&dispatch.adu);
        if self.master.written(dispatch.key, dispatch.adu.unit) {
            assert!(self.answer(&bytes).is_none());
            return Ok(None);
        }
        let outcome = match self.answer(&bytes) {
            Some(reply) => {
                let mut events = self.master_app.process_data_event(&reply, &conn());
                assert_eq!(events.len(), 1);
                let FrameEvent::Framing(f) = events.remove(0) else {
                    panic!("the master reads every answer");
                };
                let framing = Framing {
                    adu: f.adu,
                    raw: f.raw,
                    response: (),
                    connection: conn(),
                };
                let (to, result) = self.master.handle_frame(framing).unwrap();
                assert_eq!(to, "rx");
                WaitOutcome::Answered(result)
            }
            None => WaitOutcome::Elapsed,
        };
        self.master
            .wait_over(dispatch.key, outcome)
            .map(|f| Some(f.adu))
    }

    fn identification(&mut self, code: u8, object_id: u8) -> Result<DeviceIdentification, ModbusError> {
        let request = self.master.read_device_identification(UNIT, code, object_id, None);
        let answer = self.exchange(request)?;
        Ok(Master::read_device_identification_result(answer).unwrap())
    }
}

// ===== function codes =====

#[test]
fn test_fc1_read_coils() {
    let (mut l, m) = line(TestModel::new());
    m.0.coils.borrow_mut().insert(0, true);
    m.0.coils.borrow_mut().insert(1, false);
    m.0.coils.borrow_mut().insert(2, true);
    let answer = l.exchange(l.master.read_coils(UNIT, 0, 3, None)).unwrap();
    assert_eq!(
        Master::read_coils_result(answer, 3).unwrap(),
        vec![true, false, true]
    );
}

#[test]
fn test_fc2_read_discrete_inputs() {
    let (mut l, m) = line(TestModel::new());
    m.0.discrete_inputs.borrow_mut().insert(10, true);
    m.0.discrete_inputs.borrow_mut().insert(11, true);
    m.0.discrete_inputs.borrow_mut().insert(12, false);
    let answer = l
        .exchange(l.master.read_discrete_inputs(UNIT, 10, 3, None))
        .unwrap();
    assert_eq!(
        Master::read_discrete_inputs_result(answer, 3).unwrap(),
        vec![true, true, false]
    );
}

#[test]
fn test_fc3_read_holding_registers() {
    let (mut l, m) = line(TestModel::new());
    m.0.holding_registers.borrow_mut().insert(20, 0x1234);
    m.0.holding_registers.borrow_mut().insert(21, 0x5678);
    let answer = l
        .exchange(l.master.read_holding_registers(UNIT, 20, 2, None))
        .unwrap();
    assert_eq!(
        Master::read_holding_registers_result(answer, 2).unwrap(),
        vec![0x1234, 0x5678]
    );
}

#[test]
fn test_fc4_read_input_registers() {
    let (mut l, m) = line(TestModel::new());
    m.0.input_registers.borrow_mut().insert(30, 0xabcd);
    m.0.input_registers.borrow_mut().insert(31, 0xef01);
    let answer = l
        .exchange(l.master.read_input_registers(UNIT, 30, 2, None))
        .unwrap();
    assert_eq!(
        Master::read_input_registers_result(answer, 2).unwrap(),
        vec![0xabcd, 0xef01]
    );
}

#[test]
fn test_fc5_write_single_coil() {
    let (mut l, m) = line(TestModel::new());
    let answer = l
        .exchange(l.master.write_single_coil(UNIT, 40, true, None))
        .unwrap();
    assert_eq!(Master::write_single_coil_result(answer, true), Some(true));
    assert!(*m.0.coils.borrow().get(&40).unwrap());
    let answer = l
        .exchange(l.master.write_single_coil(UNIT, 40, false, None))
        .unwrap();
    assert_eq!(Master::write_single_coil_result(answer, false), Some(false));
    assert!(!*m.0.coils.borrow().get(&40).unwrap());
}

#[test]
fn test_fc6_write_single_register() {
    let (mut l, m) = line(TestModel::new());
    let answer = l
        .exchange(l.master.write_single_register(UNIT, 50, 0xdead, None))
        .unwrap();
    assert_eq!(
        Master::write_single_register_result(answer, 0xdead),
        Some(0xdead)
    );
    assert_eq!(*m.0.holding_registers.borrow().get(&50).unwrap(), 0xdead);
}

#[test]
fn test_fc15_write_multiple_coils() {
    let (mut l, m) = line(TestModel::new());
    let values = [true, false, true, true];
    let answer = l
        .exchange(l.master.write_multiple_coils(UNIT, 60, &values, None))
        .unwrap();
    assert_eq!(
        Master::write_multiple_coils_result(answer, &values),
        Some(vec![true, false, true, true])
    );
    let guard = m.0.coils.borrow();
    assert!(*guard.get(&60).unwrap());
    assert!(!*guard.get(&61).unwrap());
    assert!(*guard.get(&62).unwrap());
    assert!(*guard.get(&63).unwrap());
}

#[test]
fn test_fc16_write_multiple_registers() {
    let (mut l, m) = line(TestModel::new());
    let values = [0x1111, 0x2222, 0x3333];
    let answer = l
        .exchange(l.master.write_multiple_registers(UNIT, 70, &values, None))
        .unwrap();
    assert_eq!(
        Master::write_multiple_registers_result(answer, &values),
        Some(vec![0x1111, 0x2222, 0x3333])
    );
    let guard = m.0.holding_registers.borrow();
    assert_eq!(*guard.get(&70).unwrap(), 0x1111);
    assert_eq!(*guard.get(&71).unwrap(), 0x2222);
    assert_eq!(*guard.get(&72).unwrap(), 0x3333);
}

#[test]
fn test_fc17_report_server_id() {
    let mut model = TestModel::new();
    model.server_id = Some((vec![UNIT], true, vec![1, 2, 3]));
    let (mut l, _) = line(model);
    let answer = l.exchange(l.master.report_server_id(UNIT, None)).unwrap();
    let res = Master::report_server_id_result(answer, 1).unwrap().unwrap();
    assert_eq!(res.server_id, vec![UNIT]);
    assert!(res.run_indicator_status);
    assert_eq!(res.additional_data, vec![1, 2, 3]);
}

#[test]
fn test_fc22_mask_write_register() {
    let (mut l, m) = line(TestModel::new());
    m.0.holding_registers.borrow_mut().insert(80, 0b11110000);
    let answer = l
        .exchange(
            l.master
                .mask_write_register(UNIT, 80, 0b00001111, 0b10101010, None),
        )
        .unwrap();
    assert_eq!(
        Master::mask_write_register_result(answer, 0b00001111, 0b10101010),
        Some((0b00001111, 0b10101010))
    );
    let expected = (0b11110000u16 & 0b00001111u16) | (0b10101010u16 & !0b00001111u16);
    assert_eq!(*m.0.holding_registers.borrow().get(&80).unwrap(), expected);
}

#[test]
fn test_fc23_read_and_write_multiple_registers() {
    let (mut l, m) = line(TestModel::new());
    m.0.holding_registers.borrow_mut().insert(90, 0xaaaa);
    m.0.holding_registers.borrow_mut().insert(91, 0xbbbb);
    let answer = l
        .exchange(l.master.read_and_write_multiple_registers(
            UNIT,
            90,
            2,
            92,
            &[0xcccc, 0xdddd],
            None,
        ))
        .unwrap();
    assert_eq!(
        Master::read_and_write_multiple_registers_result(answer, 2).unwrap(),
        vec![0xaaaa, 0xbbbb]
    );
    let guard = m.0.holding_registers.borrow();
    assert_eq!(*guard.get(&92).unwrap(), 0xcccc);
    assert_eq!(*guard.get(&93).unwrap(), 0xdddd);
}

fn identified(objects: &[(u8, &str)]) -> TestModel {
    let mut model = TestModel::new();
    model.ident = Some(objects.iter().map(|(k, v)| (*k, v.to_string())).collect());
    model
}

const BASIC: [(u8, &str); 3] = [
    (0x00, "VendorName"),
    (0x01, "ProductCode"),
    (0x02, "MajorMinorRevision"),
];

#[test]
fn test_fc43_14_read_device_identification() {
    let (mut l, _) = line(identified(&BASIC));
    let res = l.identification(0x01, 0x00).unwrap();
    assert_eq!(res.read_device_id_code, 0x01);
    assert_eq!(res.conformity_level, 0x81);
    assert!(!res.more_follows);
    assert_eq!(res.objects.len(), 3);
    assert_eq!(res.objects[0].id, 0x00);
    assert_eq!(res.objects[0].value, "VendorName");
    assert_eq!(res.objects[1].id, 0x01);
    assert_eq!(res.objects[1].value, "ProductCode");
    assert_eq!(res.objects[2].id, 0x02);
    assert_eq!(res.objects[2].value, "MajorMinorRevision");
}

#[test]
fn test_broadcast_write() {
    let mut other = TestModel::new();
    other.unit = 9;
    let (mut l, m) = line_with(vec![TestModel::new(), other], false);
    let answer = l
        .exchange(l.master.write_single_register(0, 100, 0x9999, None))
        .unwrap();
    assert_eq!(Master::write_single_register_result(answer, 0x9999), None);
    for model in &m {
        assert_eq!(*model.0.holding_registers.borrow().get(&100).unwrap(), 0x9999);
    }
    assert!(!l.master.has(WaiterKey::Fifo));
}

#[test]
fn test_queue_ordering() {
    let (mut l, m) = line(TestModel::new());
    for (a, v) in [(200, 0x0001), (201, 0x0002), (202, 0x0003)] {
        m.0.holding_registers.borrow_mut().insert(a, v);
    }
    for (a, v) in [(200, 0x0001), (201, 0x0002), (202, 0x0003)] {
        let answer = l
            .exchange(l.master.read_holding_registers(UNIT, a, 1, None))
            .unwrap();
        assert_eq!(
            Master::read_holding_registers_result(answer, 1).unwrap(),
            vec![v]
        );
    }
}

#[test]
fn test_illegal_data_value() {
    let (mut l, _) = line(TestModel::new());
    // length=0 is out of spec
    assert!(l.exchange(l.master.read_coils(UNIT, 0, 0, Some(200))).is_err());
}

#[test]
fn test_illegal_data_address() {
    let mut restricted = TestModel::new();
    restricted.unit = 2;
    restricted.range.coils = vec![(100, 200)];
    let (mut l, _) = line_with(vec![TestModel::new(), restricted], false);
    // Request to unit 2 with address out of range should get exception
    let res = l.exchange(l.master.read_coils(2, 0, 10, Some(200)));
    assert!(matches!(res, Err(ModbusError::InvalidResponse)));
    assert!(l.exchange(l.master.read_coils(2, 100, 10, None)).is_ok());
}

#[test]
fn test_timeout() {
    let (mut l, _) = line(TestModel::new());
    // Request to non-existent unit should timeout
    let res = l.exchange(l.master.read_coils(99, 0, 1, Some(100)));
    assert!(matches!(res, Err(ModbusError::Timeout)));
}

// ===== server id =====

fn report(model: TestModel, id_length: usize) -> Result<Option<ServerId>, ModbusError> {
    let (mut l, _) = line(model);
    let answer = l.exchange(l.master.report_server_id(1, None))?;
    Master::report_server_id_result(answer, id_length)
}

#[test]
fn accepts_multi_byte_server_id() {
    let mut model = TestModel::new();
    model.server_id = Some((vec![0x01, 0x02, 0x03], true, vec![0xab, 0xcd]));
    let sid = report(model, 3).unwrap().unwrap();
    assert_eq!(sid.server_id, vec![0x01, 0x02, 0x03]);
    assert!(sid.run_indicator_status);
    assert_eq!(sid.additional_data, vec![0xab, 0xcd]);
}

#[test]
fn rejects_bytecount_overflow() {
    // server_id(1) + run_status(1) + additional_data(254) = 256 > 255
    let mut model = TestModel::new();
    model.server_id = Some((vec![1], true, vec![0; 254]));
    let res = report(model, 1);
    assert!(
        res.is_err(),
        "expected error for byteCount overflow, got {:?}",
        res
    );
}

#[test]
fn accepts_large_additional_data_within_tcp_limit() {
    let n = 200;
    let mut model = TestModel::new();
    model.server_id = Some((vec![1], true, vec![0xab; n]));
    let sid = report(model, 1).unwrap().unwrap();
    assert_eq!(sid.additional_data.len(), n);
    assert_eq!(sid.additional_data[0], 0xab);
    assert_eq!(sid.additional_data[n - 1], 0xab);
}

#[test]
fn a_model_without_an_id_reports_its_unit() {
    let mut model = TestModel::new();
    model.server_id = Some((vec![], false, vec![]));
    let sid = report(model, 1).unwrap().unwrap();
    assert_eq!(sid.server_id, vec![UNIT]);
    assert!(!sid.run_indicator_status);
    let mut model = TestModel::new();
    model.server_id = Some((vec![], false, vec![]));
    assert!(matches!(report(model, 2), Err(ModbusError::InvalidResponse)));
}

// ===== identification =====

fn fetch_conformity_level(extra: &[(u8, &str)]) -> u8 {
    let mut objects = BASIC.to_vec();
    objects.extend_from_slice(extra);
    let (mut l, _) = line(identified(&objects));
    l.identification(0x01, 0x00).unwrap().conformity_level
}

#[test]
fn basic_only_reports_0x81() {
    assert_eq!(fetch_conformity_level(&[]), 0x81, "basic-only must report 0x81");
}

#[test]
fn basic_plus_regular_reports_0x82() {
    let level = fetch_conformity_level(&[(0x05, "ModelName")]);
    assert_eq!(level, 0x82, "basic + regular must report 0x82");
}

#[test]
fn basic_plus_extended_at_0x80_boundary_reports_0x83() {
    let level = fetch_conformity_level(&[(0x80, "VendorSpecific0x80")]);
    assert_eq!(
        level, 0x83,
        "Extended object at exactly 0x80 must promote to 0x83"
    );
}

#[test]
fn basic_plus_extended_at_0x81_reports_0x83() {
    assert_eq!(fetch_conformity_level(&[(0x81, "VendorSpecific0x81")]), 0x83);
}

#[test]
fn basic_plus_regular_plus_extended_at_0x80_and_0xff_reports_0x83() {
    let level = fetch_conformity_level(&[
        (0x05, "ModelName"),
        (0x80, "VendorSpecific0x80"),
        (0xff, "VendorSpecific0xFF"),
    ]);
    assert_eq!(level, 0x83);
}

#[test]
fn round_trip_multibyte_utf8_value() {
    let mut objects = BASIC.to_vec();
    objects[0] = (0x00, "Vend\u{e9}r"); // é = 2 UTF-8 bytes
    let (mut l, _) = line(identified(&objects));
    let device = l.identification(0x01, 0x00).unwrap();
    assert_eq!(device.objects.len(), 3);
    assert_eq!(device.objects[0].id, 0x00);
    assert_eq!(device.objects[0].value, "Vend\u{e9}r");
}

#[test]
fn objects_that_no_model_names_read_null() {
    let (mut l, _) = line(identified(&[(0x01, "code")]));
    let device = l.identification(0x01, 0x00).unwrap();
    let values: Vec<&str> = device.objects.iter().map(|o| o.value.as_str()).collect();
    assert_eq!(values, ["null", "code", "null"]);
}

#[test]
fn streams_start_where_they_are_asked_to() {
    let objects = [(0x00, "a"), (0x01, "b"), (0x02, "c"), (0x05, "m"), (0x80, "x"), (0x90, "y")];
    let (mut l, _) = line(identified(&objects));
    let mut ids = |code: u8, id: u8| -> Vec<u8> {
        let device = l.identification(code, id).unwrap();
        device.objects.iter().map(|o| o.id).collect()
    };
    assert_eq!(ids(1, 2), [0x02, 0x05, 0x80, 0x90]);
    assert_eq!(ids(1, 3), [0x00, 0x01, 0x02, 0x05, 0x80, 0x90]);
    assert_eq!(ids(2, 5), [0x05, 0x80, 0x90]);
    // An object that does not exist, or is none of the category.
    assert_eq!(ids(2, 6), [0x00, 0x01, 0x02, 0x05, 0x80, 0x90]);
    assert_eq!(ids(2, 0x80), [0x00, 0x01, 0x02, 0x05, 0x80, 0x90]);
    assert_eq!(ids(3, 0x80), [0x80, 0x90]);
    assert_eq!(ids(3, 0x7f), [0x00, 0x01, 0x02, 0x05, 0x80, 0x90]);
    assert_eq!(ids(4, 5), [0x05]);
    assert_eq!(ids(4, 0x90), [0x90]);
}

fn raw_identification(model: TestModel, data: Vec<u8>) -> ApplicationDataUnit {
    let (l, _) = line(model);
    let adu = ApplicationDataUnit::new(UNIT, 0x2b, data).with_transaction(3);
    l.process(&adu).unwrap().adu
}

#[test]
fn bad_identification_requests_are_refused() {
    let refused = |data: &[u8]| {
        let adu = raw_identification(identified(&BASIC), data.to_vec());
        assert_eq!((adu.fc, adu.transaction, adu.unit), (0xab, Some(3), UNIT));
        assert_eq!(adu.data.len(), 1);
        adu.data[0]
    };
    assert_eq!(refused(&[0x0e, 1]), 1);
    assert_eq!(refused(&[0x0d, 1, 0]), 1);
    assert_eq!(refused(&[0x0e, 5, 0]), 3);
    assert_eq!(refused(&[0x0e, 0, 0]), 3);
    assert_eq!(refused(&[0x0e, 4, 0x07]), 2);
    assert_eq!(refused(&[0x0e, 4, 0x05]), 2);
    let adu = raw_identification(TestModel::new(), vec![0x0e, 1, 0]);
    assert_eq!((adu.fc, adu.data), (0xab, vec![1]));
}

#[test]
fn long_identifications_come_in_parts() {
    let long = "v".repeat(100);
    let objects: Vec<(u8, &str)> = (0..5u8).map(|i| (i, long.as_str())).collect();
    let (mut l, _) = line(identified(&objects));
    let first = l.identification(1, 0).unwrap();
    assert_eq!(first.objects.len(), 2);
    assert!(first.more_follows);
    assert_eq!(first.next_object_id, 2);
    let second = l.identification(1, first.next_object_id).unwrap();
    assert_eq!(second.objects[0].id, 2);
    assert_eq!(second.next_object_id, 4);
    // Values that fit no answer at all spoil it.
    let too_long = "v".repeat(246);
    let adu = raw_identification(identified(&[(0x01, &too_long)]), vec![0x0e, 1, 0]);
    assert_eq!((adu.fc, adu.data), (0xab, vec![4]));
    // 242 to 245 bytes are admissible but never fit.
    let large = "v".repeat(245);
    let (mut l, _) = line(identified(&[(0x01, &large)]));
    let device = l.identification(1, 0).unwrap();
    assert_eq!(device.objects.iter().map(|o| o.id).collect::<Vec<u8>>(), [0, 2]);
    assert_eq!(device.next_object_id, 1);
}

#[test]
fn answers_that_are_no_utf8_are_read_all_the_same() {
    let adu = ApplicationDataUnit::new(UNIT, 0x2b, vec![0x0e, 1, 0x81, 0xff, 7, 1, 0, 2, 0xff, 65]);
    let device = Master::read_device_identification_result(Some(adu)).unwrap();
    assert_eq!(device.objects[0].value, "\u{fffd}A");
    assert!(device.more_follows);
    assert_eq!(device.next_object_id, 7);
    assert!(Master::read_device_identification_result(None).is_none());
}

// ===== custom function codes =====

fn custom(fc: u8, handle: Option<Echo>) -> CustomFunctionCode<CustomFcPredict, Echo> {
    CustomFunctionCode {
        fc,
        predict_request_length: CustomFcPredict::NeedMore,
        predict_response_length: CustomFcPredict::NeedMore,
        handle,
    }
}

#[test]
fn custom_codes_go_to_their_handler() {
    let (mut l, _) = line(TestModel::new());
    l.slave.add_custom_function_code(custom(0x65, Some(Echo)));
    l.slave.add_custom_function_code(custom(0x66, None));
    l.codes = l.slave.open();
    let answer = l
        .exchange(l.master.send_custom_fc(UNIT, 0x65, vec![7, 8], None))
        .unwrap();
    assert_eq!(Master::send_custom_fc_result(answer).unwrap(), vec![7, 8, UNIT]);
    // The handler refuses, there is no handler, the code is not known.
    for (fc, data, code) in [(0x65, vec![], 3), (0x66, vec![1], 1), (0x67, vec![1], 1)] {
        let adu = ApplicationDataUnit::new(UNIT, fc, data);
        let reply = l.process(&adu).unwrap();
        assert_eq!((reply.adu.fc, reply.adu.data), (fc | 0x80, vec![code]));
        assert_eq!(reply.report_failure, fc != 0x65);
    }
}

#[test]
fn custom_codes_hold_for_a_session() {
    let (mut l, _) = line(TestModel::new());
    let adu = ApplicationDataUnit::new(UNIT, 0x65, vec![9]);
    l.slave.add_custom_function_code(custom(0x65, Some(Echo)));
    assert_eq!(l.slave.custom_function_codes().len(), 1);
    assert_eq!(l.process(&adu).unwrap().adu.data, vec![1]);
    l.codes = l.slave.open();
    assert_eq!(l.process(&adu).unwrap().adu.data, vec![9, UNIT]);
    l.slave.remove_custom_function_code(0x65);
    assert_eq!(l.process(&adu).unwrap().adu.data, vec![9, UNIT]);
    l.codes = l.slave.open();
    assert_eq!(l.process(&adu).unwrap().adu.fc, 0xe5);
}

#[test]
fn models_may_intercept() {
    let (mut l, _) = line(TestModel::new());
    let answer = l
        .exchange(l.master.send_custom_fc(UNIT, 0x64, vec![1, 2], None))
        .unwrap();
    assert_eq!(Master::send_custom_fc_result(answer).unwrap(), vec![1, 2, 0xab]);
    let adu = ApplicationDataUnit::new(UNIT, 0x63, vec![]);
    let reply = l.process(&adu).unwrap();
    assert_eq!((reply.adu.fc, reply.adu.data), (0xe3, vec![3]));
    assert!(!reply.report_failure);
    assert_eq!(Master::send_custom_fc_result(None), None);
}

// ===== rules of the requests =====

fn plan(fc: u8, data: &[u8], range: &AddressRange) -> Plan {
    let adu = ApplicationDataUnit::new(UNIT, fc, data.to_vec());
    assert!(addresses_fit(&adu));
    plan_request(&adu, range)
}

fn free(fc: u8, data: &[u8]) -> Plan {
    plan(fc, data, &AddressRange::default())
}

fn rejected(plan: Plan) -> u8 {
    match plan {
        Plan::Reject(code) => code.as_u8(),
        other => panic!("unexpected {other:?}"),
    }
}

#[test]
fn requests_of_the_wrong_size_are_ignored() {
    for fc in [0x01, 0x02, 0x03, 0x04, 0x05, 0x06] {
        assert!(matches!(free(fc, &[0, 1, 0]), Plan::Ignore));
        assert!(matches!(free(fc, &[0, 1, 0, 1, 0]), Plan::Ignore));
    }
    assert!(matches!(free(0x0f, &[0, 1, 0, 1, 0]), Plan::Ignore));
    assert!(matches!(free(0x0f, &[0, 1, 0, 1, 2, 0]), Plan::Ignore));
    assert!(matches!(free(0x10, &[0, 1, 0, 1, 2, 0]), Plan::Ignore));
    assert!(matches!(free(0x11, &[0]), Plan::Ignore));
    assert!(matches!(free(0x16, &[0, 1, 0, 1, 0]), Plan::Ignore));
    assert!(matches!(free(0x17, &[0, 1, 0, 1, 0, 1, 0, 1, 0]), Plan::Ignore));
    assert!(matches!(free(0x41, &[]), Plan::Custom));
}

#[test]
fn quantities_have_limits() {
    for fc in [0x01, 0x02] {
        assert_eq!(rejected(free(fc, &[0, 0, 0, 0])), 3);
        assert_eq!(rejected(free(fc, &[0, 0, 0x07, 0xd1])), 3);
        assert!(matches!(free(fc, &[0, 0, 0x07, 0xd0]), Plan::Call(_)));
    }
    for fc in [0x03, 0x04] {
        assert_eq!(rejected(free(fc, &[0, 0, 0, 0])), 3);
        assert_eq!(rejected(free(fc, &[0, 0, 0, 126])), 3);
        assert!(matches!(free(fc, &[0, 0, 0, 125]), Plan::Call(_)));
    }
    assert_eq!(rejected(free(0x05, &[0, 0, 0xff, 1])), 3);
    assert_eq!(rejected(free(0x0f, &[0, 0, 0, 9, 1, 0])), 3);
    assert_eq!(rejected(free(0x0f, &[0, 0, 0, 0, 1, 0])), 3);
    assert_eq!(rejected(free(0x10, &[0, 0, 0, 1, 1, 0])), 3);
    assert_eq!(rejected(free(0x17, &[0, 0, 0, 126, 0, 0, 0, 1, 2, 0, 0])), 3);
    assert_eq!(rejected(free(0x17, &[0, 0, 0, 1, 0, 0, 0, 0, 1, 0])), 3);
    assert!(matches!(
        free(0x17, &[0, 0, 0, 1, 0, 0, 0, 1, 2, 0, 0]),
        Plan::WriteThenRead { .. }
    ));
}

#[test]
fn addresses_have_to_be_the_models() {
    let range = AddressRange {
        coils: vec![(10, 20)],
        discrete_inputs: vec![(30, 40)],
        input_registers: vec![(50, 60)],
        holding_registers: vec![(70, 80)],
    };
    // The address behind the last value counts too.
    assert!(matches!(plan(0x01, &[0, 10, 0, 10], &range), Plan::Call(_)));
    assert_eq!(rejected(plan(0x01, &[0, 10, 0, 11], &range)), 2);
    assert!(matches!(plan(0x02, &[0, 30, 0, 10], &range), Plan::Call(_)));
    assert_eq!(rejected(plan(0x02, &[0, 10, 0, 1], &range)), 2);
    assert!(matches!(plan(0x03, &[0, 70, 0, 10], &range), Plan::Call(_)));
    assert_eq!(rejected(plan(0x03, &[0, 50, 0, 1], &range)), 2);
    assert!(matches!(plan(0x04, &[0, 50, 0, 10], &range), Plan::Call(_)));
    assert_eq!(rejected(plan(0x04, &[0, 70, 0, 1], &range)), 2);
    assert!(matches!(plan(0x05, &[0, 20, 0, 0], &range), Plan::Call(_)));
    assert_eq!(rejected(plan(0x05, &[0, 21, 0, 0], &range)), 2);
    assert!(matches!(plan(0x06, &[0, 80, 0, 0], &range), Plan::Call(_)));
    assert_eq!(rejected(plan(0x06, &[0, 81, 0, 0], &range)), 2);
    assert_eq!(rejected(plan(0x0f, &[0, 20, 0, 1, 1, 1], &range)), 2);
    assert_eq!(rejected(plan(0x10, &[0, 80, 0, 1, 2, 0, 1], &range)), 2);
    assert_eq!(rejected(plan(0x16, &[0, 9, 0, 0, 0, 0], &range)), 2);
    assert_eq!(
        rejected(plan(0x17, &[0, 70, 0, 1, 0, 80, 0, 1, 2, 0, 0], &range)),
        2
    );
}

#[test]
fn addresses_beyond_the_last_one_do_not_fit() {
    let fits = |fc: u8, data: &[u8]| {
        addresses_fit(&ApplicationDataUnit::new(UNIT, fc, data.to_vec()))
    };
    for fc in [0x01, 0x02, 0x03, 0x04] {
        assert!(!fits(fc, &[0xff, 0xff, 0, 1]));
        assert!(fits(fc, &[0xff, 0xfe, 0, 1]));
        // Inadmissible quantities are refused before.
        assert!(fits(fc, &[0xff, 0xff, 0xff, 0xff]));
    }
    assert!(!fits(0x0f, &[0xff, 0xff, 0, 1, 1, 0]));
    assert!(fits(0x0f, &[0xff, 0xff, 0, 9, 1, 0]));
    assert!(!fits(0x10, &[0xff, 0xff, 0, 1, 2, 0, 0]));
    assert!(fits(0x10, &[0xff, 0xff, 0, 2, 2, 0, 0]));
    assert!(!fits(0x17, &[0xff, 0xff, 0, 1, 0, 0, 0, 1, 2, 0, 0]));
    assert!(!fits(0x17, &[0, 0, 0, 1, 0xff, 0xff, 0, 1, 2, 0, 0]));
    assert!(fits(0x06, &[0xff, 0xff, 0, 1]));
}

#[test]
fn errors_of_models_become_exceptions() {
    let mut model = TestModel::new();
    model.fail_at = Some(61);
    let (l, m) = line(model);
    let mut process = |fc: u8, data: &[u8]| {
        let adu = ApplicationDataUnit::new(UNIT, fc, data.to_vec()).with_transaction(9);
        let reply = l.process(&adu).unwrap();
        assert_eq!(reply.adu.transaction, Some(9));
        assert!(reply.report_failure);
        (reply.adu.fc, reply.adu.data)
    };
    // Several coils are written one by one until a write fails.
    assert_eq!(process(0x0f, &[0, 60, 0, 3, 1, 0b111]), (0x8f, vec![6]));
    assert_eq!(m.0.coils.borrow().len(), 1);
    assert_eq!(process(0x10, &[0, 60, 0, 2, 4, 0, 1, 0, 2]), (0x90, vec![4]));
    assert_eq!(*m.0.writes.borrow(), vec![(60, 1)]);
    assert_eq!(process(0x16, &[0, 61, 0, 0, 0, 1]), (0x96, vec![4]));
    assert_eq!(process(0x11, &[]), (0x91, vec![1]));
    assert_eq!(
        process(0x17, &[0, 0, 0, 1, 0, 61, 0, 1, 2, 0, 0]),
        (0x97, vec![4])
    );
}

#[test]
fn answers_repeat_the_request_where_they_should() {
    let (l, _) = line(TestModel::new());
    let adu = ApplicationDataUnit::new(UNIT, 0x06, vec![0, 5, 0x12, 0x34]).with_transaction(7);
    let reply = l.process(&adu).unwrap().adu;
    assert_eq!(
        (reply.transaction, reply.unit, reply.fc, reply.data),
        (Some(7), UNIT, 0x06, vec![0, 5, 0x12, 0x34])
    );
    let adu = ApplicationDataUnit::new(UNIT, 0x0f, vec![0, 5, 0, 9, 2, 0xff, 1]);
    let reply = l.process(&adu).unwrap().adu;
    assert_eq!(reply.data, vec![0, 5, 0, 9]);
    assert_eq!(response_error(&adu, &ModbusError::IllegalDataValue).data, vec![3]);
}

struct Silent;

impl ModbusSlaveModel for Silent {
    fn unit(&self) -> u8 {
        1
    }

    fn address_range(&self) -> AddressRange {
        AddressRange::default()
    }

    fn read_holding_registers(&self, _address: u16, _length: u16) -> Result<Vec<u16>, ModbusError> {
        Ok(vec![])
    }
}

#[test]
fn models_that_implement_nothing_refuse() {
    let mut slave: SlaveOf<Silent> =
        ModbusSlave::new(ApplicationProtocol::Rtu);
    slave.add(1, Silent);
    let codes = slave.open();
    for (fc, data) in [
        (0x01u8, vec![0u8, 0, 0, 1]),
        (0x02, vec![0, 0, 0, 1]),
        (0x04, vec![0, 0, 0, 1]),
        (0x05, vec![0, 0, 0, 0]),
        (0x06, vec![0, 0, 0, 0]),
        (0x0f, vec![0, 0, 0, 1, 1, 0]),
        (0x10, vec![0, 0, 0, 1, 2, 0, 0]),
        (0x11, vec![]),
        (0x2b, vec![0x0e, 1, 0]),
    ] {
        let adu = ApplicationDataUnit::new(1, fc, data);
        let reply = reply_to(&slave, &codes, &adu).unwrap().adu;
        assert_eq!((reply.fc, reply.data), (fc | 0x80, vec![1]));
    }
    // A register that cannot be read cannot be masked.
    let adu = ApplicationDataUnit::new(1, 0x16, vec![0, 0, 0, 0, 0, 1]);
    assert_eq!(reply_to(&slave, &codes, &adu).unwrap().adu.data, vec![4]);
    slave.remove(1);
    assert!(reply_to(&slave, &codes, &adu).is_none());
}

#[test]
fn masks_keep_and_set_bits() {
    assert_eq!(mask_register(&vec![0x12], 0xf2, 0x25).ok().unwrap(), 0x17);
    assert!(matches!(
        mask_register(&vec![], 0, 0),
        Err(ModbusError::ServerDeviceFailure)
    ));
}

#[test]
fn requests_are_carried_out_step_by_step() {
    let (l, m) = line(TestModel::new());
    let log = |fc: u8, data: &[u8]| l.log(&ApplicationDataUnit::new(UNIT, fc, data.to_vec()));
    assert_eq!(
        log(0x16, &[0, 7, 0, 1, 0, 2]),
        [
            "see 1",
            "MaskWriteRegister { address: 7, and_mask: 1, or_mask: 2 } of 1 under [7]",
            "send"
        ]
    );
    assert_eq!(
        log(0x17, &[0, 100, 0, 2, 0, 10, 0, 2, 4, 0, 1, 0, 2]),
        [
            "see 1",
            "WriteMultipleRegisters { address: 10, values: [1, 2] } of 1 under [10, 11]",
            "ReadHoldingRegisters { address: 100, length: 2 } of 1 under []",
            "send"
        ]
    );
    // What a model answers or refuses itself is not carried out, nor is what is refused.
    assert_eq!(log(0x64, &[1]), ["see 1", "send"]);
    assert_eq!(log(0x63, &[1]), ["see 1", "send"]);
    assert_eq!(log(0x03, &[0, 0, 0, 0]), ["see 1", "send"]);
    assert_eq!(log(0x41, &[]), ["see 1", "send"]);
    assert_eq!(log(0x03, &[0]), ["see 1"]);
    assert_eq!(m.0.writes.borrow().len(), 3);
}

#[test]
fn a_failed_write_is_not_followed_by_a_read() {
    let mut model = TestModel::new();
    model.fail_at = Some(11);
    let (l, m) = line(model);
    let data = vec![0, 10, 0, 2, 0, 10, 0, 2, 4, 0, 1, 0, 2];
    let log = l.log(&ApplicationDataUnit::new(UNIT, 0x17, data));
    assert_eq!(log.len(), 3);
    assert!(log[1].starts_with("WriteMultipleRegisters"));
    assert_eq!(log[2], "send");
    assert_eq!(*m.0.writes.borrow(), vec![(10, 1)]);
}

#[test]
fn registers_are_read_after_they_are_written() {
    let (mut l, m) = line(TestModel::new());
    for a in 0..6 {
        m.0.holding_registers.borrow_mut().insert(a, 0xeeee);
    }
    let request = l
        .master
        .read_and_write_multiple_registers(UNIT, 0, 4, 2, &[0x1111, 0x2222, 0x3333], None);
    let answer = l.exchange(request).unwrap();
    assert_eq!(
        Master::read_and_write_multiple_registers_result(answer, 4).unwrap(),
        vec![0xeeee, 0xeeee, 0x1111, 0x2222]
    );
}

#[test]
fn an_intercepted_write_is_not_carried_out() {
    struct Guard(RefCell<Vec<u16>>);
    impl ModbusSlaveModel for Guard {
        fn unit(&self) -> u8 {
            UNIT
        }

        fn address_range(&self) -> AddressRange {
            AddressRange::default()
        }

        fn intercept(&self, _fc: u8, data: &[u8]) -> Result<Option<Vec<u8>>, ModbusError> {
            match data[1] {
                0 => Ok(None),
                1 => Ok(Some(vec![0xaa])),
                _ => Err(ModbusError::ServerDeviceFailure),
            }
        }

        fn write_single_register(&self, address: u16, _value: u16) -> Result<(), ModbusError> {
            self.0.borrow_mut().push(address);
            Ok(())
        }
    }
    let mut slave: SlaveOf<Guard> = ModbusSlave::new(ApplicationProtocol::Tcp);
    slave.add(UNIT, Guard(RefCell::default()));
    let codes = slave.open();
    let mut replies = vec![];
    for address in 0..3 {
        let adu = ApplicationDataUnit::new(UNIT, 0x06, vec![0, address, 0, 9]);
        let reply = reply_to(&slave, &codes, &adu).unwrap().adu;
        replies.push((reply.fc, reply.data));
    }
    assert_eq!(replies[0], (0x06, vec![0, 0, 0, 9]));
    assert_eq!(replies[1], (0x06, vec![0xaa]));
    assert_eq!(replies[2], (0x86, vec![4]));
    assert_eq!(*slave.models()[&UNIT].0.borrow(), vec![0]);
    // A model sees a request for addresses that there are not, too.
    let adu = ApplicationDataUnit::new(UNIT, 0x10, vec![0xff, 0xff, 0, 1, 2, 0, 0]);
    assert_eq!(reply_to(&slave, &codes, &adu).unwrap().adu.data, vec![4]);
}

#[test]
fn requests_beyond_the_last_address_are_refused() {
    let (l, m) = line(TestModel::new());
    let adu = ApplicationDataUnit::new(UNIT, 0x10, vec![0xff, 0xff, 0, 1, 2, 0, 0]);
    let reply = l.process(&adu).unwrap();
    assert_eq!((reply.adu.fc, reply.adu.data), (0x90, vec![2]));
    assert!(reply.report_failure);
    assert!(m.0.writes.borrow().is_empty());
    // Nobody there to carry it out.
    let adu = ApplicationDataUnit::new(9, 0x10, vec![0xff, 0xff, 0, 1, 2, 0, 0]);
    assert!(l.process(&adu).is_none());
    assert!(l.log(&adu).is_empty());
}

#[test]
fn broadcasts_reach_every_model_once() {
    let models = [3u8, 1, 2]
        .into_iter()
        .map(|unit| TestModel {
            unit,
            ..Default::default()
        })
        .collect();
    let (l, handles) = line_with(models, false);
    let adu = ApplicationDataUnit::new(0, 0x06, vec![0, 5, 0, 7]);
    let call = "WriteSingleRegister { address: 5, value: 7 }";
    let expected: Vec<String> = [1, 2, 3]
        .into_iter()
        .flat_map(|u| [format!("see {u}"), format!("{call} of {u} under []")])
        .collect();
    assert_eq!(l.log(&adu), expected);
    for h in &handles {
        assert_eq!(*h.0.writes.borrow(), vec![(5, 7)]);
    }
    let single = ApplicationDataUnit::new(2, 0x06, vec![0, 5, 0, 8]);
    assert_eq!(l.log(&single).len(), 3);
    let written: Vec<usize> = handles.iter().map(|h| h.0.writes.borrow().len()).collect();
    assert_eq!(written, [1, 1, 2]);
}

#[test]
fn steps_follow_from_what_a_model_says() {
    let adu = ApplicationDataUnit::new(UNIT, 0x17, vec![]).with_transaction(4);
    match after_write(&adu, 9, 2, Ok(())) {
        NextStep::Call(ModelCall::ReadHoldingRegisters { address, length }) => {
            assert_eq!((address, length), (9, 2));
        }
        other => panic!("unexpected {other:?}"),
    }
    match after_write(&adu, 9, 2, Err(ModbusError::ServerDeviceFailure)) {
        NextStep::Reply(r) => assert_eq!((r.adu.fc, r.adu.data), (0x97, vec![4])),
        other => panic!("unexpected {other:?}"),
    }
    let range = AddressRange::default();
    match after_intercept(&adu, Ok(Some(vec![5])), &range) {
        NextStep::Reply(r) => {
            assert_eq!((r.adu.fc, r.adu.data, r.adu.transaction), (0x17, vec![5], Some(4)));
            assert!(!r.report_failure);
        }
        other => panic!("unexpected {other:?}"),
    }
    assert!(matches!(after_intercept(&adu, Ok(None), &range), NextStep::Ignore));
}

#[test]
fn single_writes_go_on_until_one_fails() {
    assert!(matches!(
        next_single_write(7, 2, 0, Ok(())),
        WriteStep::Write { address: 7 }
    ));
    assert!(matches!(
        next_single_write(7, 2, 1, Ok(())),
        WriteStep::Write { address: 8 }
    ));
    assert!(matches!(
        next_single_write(7, 2, 2, Ok(())),
        WriteStep::Finished(Ok(()))
    ));
    assert!(matches!(
        next_single_write(7, 2, 1, Err(ModbusError::Timeout)),
        WriteStep::Finished(Err(ModbusError::Timeout))
    ));
}

#[test]
fn locks_exist_while_they_are_used() {
    let mut table = LockTable::new();
    let (a, order) = table.enter(&[5, 3, 5]);
    assert_eq!(order, [3, 5]);
    let (b, order) = table.enter(&[5, 6]);
    assert_eq!(order, [5, 6]);
    assert_ne!(a, b);
    assert_eq!(table.leave(a), [3]);
    assert_eq!(table.leave(b), [5, 6]);
    assert!(table.leave(b).is_empty());
    let (a, _) = table.enter(&[1]);
    table.clear();
    let (b, _) = table.enter(&[1]);
    assert_ne!(a, b);
    assert!(table.leave(a).is_empty());
    assert_eq!(table.leave(b), [1]);
}

#[test]
fn locks_are_ascending_and_distinct() {
    assert_eq!(lock_order(&[5, 3, 5, 1, 3]), vec![1, 3, 5]);
    assert_eq!(lock_order(&[]), Vec::<u16>::new());
}

// ===== the slave's queues =====

fn frame(address: u16, tid: u16) -> FramedDataUnit {
    let mut data = address.to_be_bytes().to_vec();
    data.extend_from_slice(&1u16.to_be_bytes());
    let adu = ApplicationDataUnit::new(UNIT, 0x03, data).with_transaction(tid);
    FramedDataUnit { adu, raw: vec![] }
}

fn tid_of(item: Option<(FramedDataUnit, ())>) -> Option<u16> {
    item.and_then(|(f, _)| f.adu.transaction)
}

#[test]
fn single_connection_requests_stay_fifo() {
    let (mut l, _) = line(TestModel::new());
    let c = conn();
    assert!(matches!(
        l.slave.frame_arrived(&c, frame(10, 1), ()),
        Arrival::Queued { start: true }
    ));
    assert!(matches!(
        l.slave.frame_arrived(&c, frame(11, 2), ()),
        Arrival::Queued { start: false }
    ));
    assert_eq!(tid_of(l.slave.next_request(&c)), Some(1));
    assert!(matches!(
        l.slave.frame_arrived(&c, frame(12, 3), ()),
        Arrival::Queued { start: false }
    ));
    assert_eq!(tid_of(l.slave.next_request(&c)), Some(2));
    assert_eq!(tid_of(l.slave.next_request(&c)), Some(3));
    assert!(l.slave.next_request(&c).is_none());
    // Worked off; the next request starts anew.
    assert!(matches!(
        l.slave.frame_arrived(&c, frame(13, 4), ()),
        Arrival::Queued { start: true }
    ));
}

#[test]
fn slow_handler_on_one_connection_does_not_block_another() {
    let (mut l, _) = line(TestModel::new());
    let (a, b): (ConnectionId, ConnectionId) = (Arc::from("a"), Arc::from("b"));
    l.slave.frame_arrived(&a, frame(100, 1), ());
    assert_eq!(tid_of(l.slave.next_request(&a)), Some(1));
    assert!(matches!(
        l.slave.frame_arrived(&b, frame(200, 2), ()),
        Arrival::Queued { start: true }
    ));
    assert_eq!(tid_of(l.slave.next_request(&b)), Some(2));
}

#[test]
fn concurrent_mode_pipelines_5_in_flight_requests() {
    let mut slave: Slave = ModbusSlave::with_options(
        ApplicationProtocol::Tcp,
        ModbusSlaveOptions { concurrent: true },
    );
    assert!(slave.concurrent());
    slave.open();
    for i in 0u16..5 {
        match slave.frame_arrived(&conn(), frame(500 + i, i), ()) {
            Arrival::Process(f, ()) => assert_eq!(f.adu.transaction, Some(i)),
            _ => panic!("carried out at once"),
        }
    }
    assert!(slave.next_request(&conn()).is_none());
}

#[test]
fn queued_items_dropped_on_connection_close() {
    let (mut l, _) = line(TestModel::new());
    let c = conn();
    for (address, tid) in [(900, 1), (901, 2), (902, 3)] {
        l.slave.frame_arrived(&c, frame(address, tid), ());
    }
    assert_eq!(tid_of(l.slave.next_request(&c)), Some(1));
    l.slave.connection_closed(&c);
    assert!(l.slave.next_request(&c).is_none());
}

#[test]
fn closed_slaves_drop_requests() {
    let (mut l, m) = line(TestModel::new());
    let c = conn();
    l.slave.frame_arrived(&c, frame(1, 1), ());
    l.slave.physical_closed();
    assert!(l.slave.next_request(&c).is_none());
    l.slave.frame_arrived(&c, frame(1, 1), ());
    assert!(l.slave.close());
    assert!(l.slave.next_request(&c).is_none());
    assert!(matches!(l.slave.frame_arrived(&c, frame(1, 1), ()), Arrival::Drop));
    assert_eq!(l.slave.models().len(), 1);
    assert!(l.slave.close());
    l.slave.add_custom_function_code(custom(0x65, None));
    assert!(l.slave.destroy());
    assert!(l.slave.models().is_empty());
    assert!(l.slave.custom_function_codes().is_empty());
    assert!(!l.slave.destroy());
    assert!(!l.slave.close());
    drop(m);
}

#[test]
fn concurrent_with_rtu_application_layer_panics() {
    let mut app: RtuApplicationLayer<CustomFcPredict, ()> = RtuApplicationLayer::new(0, 0);
    app.set_role(ApplicationRole::Slave).unwrap();
    let options = ModbusSlaveOptions { concurrent: true };
    assert!(
        !supports_concurrency(options.concurrent, app.protocol()),
        "RTU + concurrent slave should panic"
    );
    assert!(supports_concurrency(ModbusSlaveOptions::default().concurrent, app.protocol()));
}

#[test]
fn concurrent_with_ascii_application_layer_panics() {
    let app = AsciiApplicationLayer::new();
    let options = ModbusSlaveOptions { concurrent: true };
    assert!(
        !supports_concurrency(options.concurrent, app.protocol()),
        "ASCII + concurrent slave should panic"
    );
}

// ===== the master =====

#[test]
fn concurrent_rejects_rtu_application_layer() {
    let app: RtuApplicationLayer<CustomFcPredict, ()> = RtuApplicationLayer::new(0, 0);
    let options = ModbusMasterOptions {
        timeout_ms: 1000,
        concurrent: true,
    };
    assert!(
        !supports_concurrency(options.concurrent, app.protocol()),
        "constructing concurrent master with RTU app layer should panic"
    );
}

#[test]
fn concurrent_rejects_ascii_application_layer() {
    let app = AsciiApplicationLayer::new();
    let options = ModbusMasterOptions {
        timeout_ms: 1000,
        concurrent: true,
    };
    assert!(
        !supports_concurrency(options.concurrent, app.protocol()),
        "constructing concurrent master with ASCII app layer should panic"
    );
}

#[test]
fn fifo_serializes_parallel_calls() {
    let (mut l, m) = line(TestModel::new());
    for i in 0u16..5 {
        m.0.holding_registers.borrow_mut().insert(i, i);
    }
    // Five reads are prepared together; each waits for its turn and gets the
    // value of its own address.
    let requests: Vec<MasterRequest> = (0u16..5)
        .map(|i| l.master.read_holding_registers(UNIT, i, 1, None))
        .collect();
    for _ in 0..5 {
        assert!(l.master.enter().unwrap());
    }
    for (i, request) in requests.into_iter().enumerate() {
        let answer = l.exchange(request).unwrap();
        let read = Master::read_holding_registers_result(answer, 1).unwrap();
        assert_eq!(read, vec![i as u16]);
    }
}

#[test]
fn concurrent_accepts_tcp_application_layer() {
    let master: Master = ModbusMaster::new(
        ApplicationProtocol::Tcp,
        ModbusMasterOptions {
            timeout_ms: 1000,
            concurrent: true,
        },
    );
    assert!(master.concurrent(), "concurrent flag should be exposed");
}

fn concurrent_master() -> Master {
    let mut master = ModbusMaster::new(
        ApplicationProtocol::Tcp,
        ModbusMasterOptions {
            timeout_ms: 5000,
            concurrent: true,
        },
    );
    master.open().unwrap();
    master
}

fn answer_to(tid: u16, value: u16) -> Framing<()> {
    let mut data = vec![2];
    data.extend_from_slice(&value.to_be_bytes());
    Framing {
        adu: ApplicationDataUnit::new(UNIT, 0x03, data).with_transaction(tid),
        raw: vec![],
        response: (),
        connection: conn(),
    }
}

#[test]
fn concurrent_mode_dispatches_10_parallel_reads() {
    let mut master = concurrent_master();
    let names = ["0", "1", "2", "3", "4", "5", "6", "7", "8", "9"];
    let mut tids = Vec::new();
    for (i, name) in names.iter().enumerate() {
        assert_eq!(master.enter().ok(), Some(false));
        let request = master.read_holding_registers(UNIT, 100 + i as u16, 1, None);
        assert_eq!(request.timeout_ms, 5000);
        let d = master.dispatch(&request.adu, request.checks, name).ok().unwrap();
        assert!(!d.flush);
        assert!(d.replaced.is_none());
        assert!(!master.written(d.key, UNIT));
        tids.push(d.adu.transaction.unwrap());
    }
    assert_eq!(tids, (1..=10).collect::<Vec<u16>>());
    for i in (0..10usize).rev() {
        let (to, result) = master.handle_frame(answer_to(tids[i], 100 + i as u16)).unwrap();
        assert_eq!(to, names[i]);
        let adu = master
            .wait_over(WaiterKey::Tid(tids[i]), WaitOutcome::Answered(result))
            .ok()
            .unwrap()
            .adu;
        assert_eq!(
            Master::read_holding_registers_result(Some(adu), 1).unwrap(),
            vec![100 + i as u16]
        );
    }
}

#[test]
fn fifo_tid_validation_drops_stale_response() {
    let (mut l, _) = line(TestModel::new());
    let first = l.master.read_holding_registers(UNIT, 7, 1, None);
    let d = l.master.dispatch(&first.adu, first.checks, "first").ok().unwrap();
    assert_eq!(d.key, WaiterKey::Tid(1));
    let timed_out = l.master.wait_over::<()>(d.key, WaitOutcome::Elapsed);
    assert!(matches!(timed_out, Err(ModbusError::Timeout)));

    let second = l.master.read_holding_registers(UNIT, 42, 1, Some(500));
    assert_eq!(second.timeout_ms, 500);
    let d = l.master.dispatch(&second.adu, second.checks, "second").ok().unwrap();
    assert_eq!(d.key, WaiterKey::Tid(2));
    // The late answer to the first request resolves nobody.
    assert!(l.master.handle_frame(answer_to(1, 7)).is_none());
    let (to, result) = l.master.handle_frame(answer_to(2, 42)).unwrap();
    assert_eq!(to, "second");
    let adu = result.ok().unwrap().adu;
    assert_eq!(
        Master::read_holding_registers_result(Some(adu), 1).unwrap(),
        vec![42u16],
        "second request must return its own value, not the stale 7"
    );
}

#[test]
fn close_rejects_inflight_requests() {
    let mut master = concurrent_master();
    for (address, name) in [(0, "a"), (1, "b")] {
        let r = master.read_holding_registers(UNIT, address, 1, None);
        master.dispatch(&r.adu, r.checks, name).ok().unwrap();
    }
    let shutdown = master.close();
    assert!(shutdown.proceed);
    let mut told: Vec<&str> = shutdown.rejections.iter().map(|r| r.sender).collect();
    told.sort();
    assert_eq!(told, ["a", "b"]);
    for r in &shutdown.rejections {
        assert!(matches!(r.error, ModbusError::InvalidState(ref s) if s == "Master closed"));
    }
    assert!(master.close().rejections.is_empty());
}

#[test]
fn fifo_close_rejects_queued_requests() {
    let (mut l, _) = line(TestModel::new());
    let first = l.master.read_holding_registers(UNIT, 0, 1, None);
    assert_eq!(l.master.enter().ok(), Some(true));
    l.master.dispatch(&first.adu, first.checks, "first").ok().unwrap();
    // Two more requests wait for their turn.
    assert_eq!(l.master.enter().ok(), Some(true));
    let shutdown = l.master.close();
    assert_eq!(shutdown.rejections.len(), 1);
    assert_eq!(shutdown.rejections[0].sender, "first");
    let queued = l.master.read_holding_registers(UNIT, 1, 1, None);
    assert!(matches!(
        l.master.dispatch(&queued.adu, queued.checks, "second"),
        Err(ModbusError::InvalidState(ref s)) if s == "Master closed"
    ));
    assert!(matches!(
        l.master.enter(),
        Err(ModbusError::InvalidState(ref s)) if s == "Master closed"
    ));
}

#[test]
fn reopen_after_close_allows_new_requests() {
    let (mut l, m) = line(TestModel::new());
    m.0.holding_registers.borrow_mut().insert(7, 7);
    l.exchange(l.master.read_holding_registers(UNIT, 0, 1, None)).unwrap();
    l.master.close();
    l.master.open().unwrap();
    let answer = l
        .exchange(l.master.read_holding_registers(UNIT, 7, 1, None))
        .unwrap();
    assert_eq!(
        Master::read_holding_registers_result(answer, 1).unwrap(),
        vec![7u16],
        "post-reopen read should return its own value"
    );
}

#[test]
fn destroyed_masters_stay_destroyed() {
    let mut master = concurrent_master();
    let r = master.read_holding_registers(UNIT, 0, 1, None);
    master.dispatch(&r.adu, r.checks, "a").ok().unwrap();
    let shutdown = master.destroy();
    assert!(shutdown.proceed);
    assert!(matches!(
        shutdown.rejections[0].error,
        ModbusError::InvalidState(ref s) if s == "Master destroyed"
    ));
    assert!(matches!(master.open(), Err(ModbusError::PortDestroyed)));
    assert!(!master.destroy().proceed);
    assert!(!master.close().proceed);
    assert!(master.enter().is_err());
    assert_ne!(CleanLevel::Closed, CleanLevel::Destroyed);
}

#[test]
fn transaction_ids_cycle_without_zero() {
    let mut master = concurrent_master();
    let mut last = 0u16;
    for i in 0..65537u32 {
        let r = master.send_custom_fc(UNIT, 0x41, vec![], None);
        let d = master.dispatch(&r.adu, r.checks, "x").ok().unwrap();
        last = d.adu.transaction.unwrap();
        assert_ne!(last, 0);
        master.write_failed(d.key, ModbusError::PortNotOpen);
        if i == 65534 {
            assert_eq!(last, 65535);
        }
    }
    assert_eq!(last, 2);
    master.open().unwrap();
    let r = master.send_custom_fc(UNIT, 0x41, vec![], None);
    let d = master.dispatch(&r.adu, r.checks, "x").ok().unwrap();
    assert_eq!(d.adu.transaction, Some(1));
}

#[test]
fn layers_without_transactions_share_one_slot() {
    let mut master: Master =
        ModbusMaster::new(ApplicationProtocol::Rtu, ModbusMasterOptions::default());
    assert_eq!(master.timeout_ms(), 1000);
    master.open().unwrap();
    let r = master.read_coils(UNIT, 0, 1, None);
    assert_eq!(r.timeout_ms, 1000);
    let d = master.dispatch(&r.adu, r.checks, "a").ok().unwrap();
    assert_eq!(d.key, WaiterKey::Fifo);
    assert_eq!(d.adu.transaction, None);
    assert!(master.has(WaiterKey::Fifo));
    let failed = master.write_failed(d.key, ModbusError::PortNotOpen);
    assert!(matches!(failed, ModbusError::PortNotOpen));
    assert!(!master.has(WaiterKey::Fifo));
    let dropped = master.wait_over::<()>(d.key, WaitOutcome::Dropped);
    assert!(matches!(
        dropped,
        Err(ModbusError::InvalidState(ref s)) if s == "master session was cleared while waiting"
    ));
}

#[test]
fn framing_errors_fail_all_requests() {
    let mut master = concurrent_master();
    let r = master.read_coils(UNIT, 0, 1, None);
    master.dispatch(&r.adu, r.checks, "a").ok().unwrap();
    let rejections = master.handle_error(ModbusError::CrcCheckFailed);
    assert_eq!(rejections.len(), 1);
    assert!(matches!(rejections[0].error, ModbusError::CrcCheckFailed));
    assert!(master.handle_error(ModbusError::CrcCheckFailed).is_empty());
}

#[test]
fn request_bytes_are_as_on_the_wire() {
    let master = concurrent_master();
    assert_eq!(master.read_coils(1, 0x0102, 0x0304, None).adu.data, [1, 2, 3, 4]);
    assert_eq!(master.write_single_coil(1, 5, true, None).adu.data, [0, 5, 0xff, 0]);
    assert_eq!(master.write_single_coil(1, 5, false, None).adu.data, [0, 5, 0, 0]);
    assert_eq!(
        master.write_multiple_coils(1, 5, &[true; 9], None).adu.data,
        [0, 5, 0, 9, 2, 0xff, 1]
    );
    assert_eq!(
        master.write_multiple_registers(1, 5, &[0x1234], None).adu.data,
        [0, 5, 0, 1, 2, 0x12, 0x34]
    );
    assert_eq!(
        master.mask_write_register(1, 5, 0x1122, 0x3344, None).adu.data,
        [0, 5, 0x11, 0x22, 0x33, 0x44]
    );
    assert_eq!(
        master
            .read_and_write_multiple_registers(1, 5, 6, 7, &[0xabcd], None)
            .adu
            .data,
        [0, 5, 0, 6, 0, 7, 0, 1, 2, 0xab, 0xcd]
    );
    assert_eq!(master.read_device_identification(1, 4, 9, None).adu.data, [0x0e, 4, 9]);
    assert!(master.report_server_id(1, None).adu.data.is_empty());
    assert_eq!(master.send_custom_fc(1, 0x41, vec![9], None).adu.fc, 0x41);
}

// ===== the same over RTU =====

#[test]
fn rtu_frames_of_an_exchange_are_told_apart() {
    let (mut l, m) = line(TestModel::new());
    m.0.holding_registers.borrow_mut().insert(3, 0xbeef);
    let mut slave_app: RtuApplicationLayer<CustomFcPredict, ()> = RtuApplicationLayer::new(0, 0);
    slave_app.set_role(ApplicationRole::Slave).unwrap();
    let mut master_app: RtuApplicationLayer<CustomFcPredict, ()> = RtuApplicationLayer::new(0, 0);
    master_app.set_role(ApplicationRole::Master).unwrap();
    let requests = vec![
        l.master.read_holding_registers(UNIT, 3, 1, None),
        l.master.read_coils(UNIT, 3, 11, None),
        l.master.write_single_register(UNIT, 3, 0x1234, None),
        l.master.write_multiple_coils(UNIT, 3, &[true; 11], None),
        l.master.write_multiple_registers(UNIT, 3, &[1, 2], None),
        l.master.mask_write_register(UNIT, 3, 1, 2, None),
        l.master.read_and_write_multiple_registers(UNIT, 3, 2, 9, &[1, 2, 3], None),
        l.master.read_coils(UNIT, 3, 0, None),
    ];
    for request in requests {
        let bytes = slave_app.encode(&request.adu);
        let mut events = slave_app.process_data_event(&bytes, &conn()).events;
        assert_eq!(events.len(), 1);
        let FrameEvent::Framing(f) = events.remove(0) else {
            panic!("request of {:?}", request.adu);
        };
        let reply = l.process(&f.adu).unwrap().adu;
        let bytes = slave_app.encode(&reply);
        let events = master_app.process_data_event(&bytes, &conn()).events;
        assert!(matches!(&events[..], [FrameEvent::Framing(f)] if f.adu.data == reply.data));
    }
    assert!(l.master.close().proceed);
}
