//! What a request asks of a model.
//!
//! A request is ignored when its data has the wrong size, rejected with an
//! exception when it asks for too much or for addresses that the model does not
//! have, and else turned into a call of the model.
use vstd::prelude::*;

use crate::error::ErrorCode;
use crate::types::{Adu, AddressRange, ApplicationDataUnit, Ranges};
use crate::utils::{
    be_word_at, check_range, coil_bytes, copy_values, from_bytes, in_some_range, read_coil_bits,
    read_registers, unpacked_coils, unpacked_registers,
};
use crate::vars::limits::{
    READ_COILS_MAX, READ_REGISTERS_MAX, RW_REGISTERS_WRITE_MAX, WRITE_COILS_MAX,
    WRITE_REGISTERS_MAX,
};
use crate::vars::{COIL_OFF, COIL_ON, MEI_READ_DEVICE_ID};

verus! {

/// What a model is asked to do.
#[allow(inconsistent_fields)]
#[derive(Debug)]
pub enum ModelCall {
    ReadCoils { address: u16, length: u16 },
    ReadDiscreteInputs { address: u16, length: u16 },
    ReadHoldingRegisters { address: u16, length: u16 },
    ReadInputRegisters { address: u16, length: u16 },
    WriteSingleCoil { address: u16, value: bool },
    WriteSingleRegister { address: u16, value: u16 },
    WriteMultipleCoils { address: u16, values: Vec<bool> },
    WriteMultipleRegisters { address: u16, values: Vec<u16> },
    ReportServerId,
    MaskWriteRegister { address: u16, and_mask: u16, or_mask: u16 },
    ReadDeviceIdentification { read_device_id_code: u8, object_id: u8 },
}

/// The contents of a [`ModelCall`].
#[allow(inconsistent_fields)]
pub enum Call {
    ReadCoils { address: u16, length: u16 },
    ReadDiscreteInputs { address: u16, length: u16 },
    ReadHoldingRegisters { address: u16, length: u16 },
    ReadInputRegisters { address: u16, length: u16 },
    WriteSingleCoil { address: u16, value: bool },
    WriteSingleRegister { address: u16, value: u16 },
    WriteMultipleCoils { address: u16, values: Seq<bool> },
    WriteMultipleRegisters { address: u16, values: Seq<u16> },
    ReportServerId,
    MaskWriteRegister { address: u16, and_mask: u16, or_mask: u16 },
    ReadDeviceIdentification { read_device_id_code: u8, object_id: u8 },
}

impl View for ModelCall {
    type V = Call;

    open spec fn view(&self) -> Call {
        match *self {
            ModelCall::ReadCoils { address, length } => Call::ReadCoils { address, length },
            ModelCall::ReadDiscreteInputs { address, length } => Call::ReadDiscreteInputs {
                address,
                length,
            },
            ModelCall::ReadHoldingRegisters { address, length } => Call::ReadHoldingRegisters {
                address,
                length,
            },
            ModelCall::ReadInputRegisters { address, length } => Call::ReadInputRegisters {
                address,
                length,
            },
            ModelCall::WriteSingleCoil { address, value } => Call::WriteSingleCoil {
                address,
                value,
            },
            ModelCall::WriteSingleRegister { address, value } => Call::WriteSingleRegister {
                address,
                value,
            },
            ModelCall::WriteMultipleCoils { address, values } => Call::WriteMultipleCoils {
                address,
                values: values@,
            },
            ModelCall::WriteMultipleRegisters { address, values } => Call::WriteMultipleRegisters {
                address,
                values: values@,
            },
            ModelCall::ReportServerId => Call::ReportServerId,
            ModelCall::MaskWriteRegister { address, and_mask, or_mask } => Call::MaskWriteRegister {
                address,
                and_mask,
                or_mask,
            },
            ModelCall::ReadDeviceIdentification { read_device_id_code, object_id } =>
            Call::ReadDeviceIdentification { read_device_id_code, object_id },
        }
    }
}

impl Clone for ModelCall {
    fn clone(&self) -> (r: Self)
        ensures
            r@ == self@,
    {
        match self {
            ModelCall::ReadCoils { address, length } => ModelCall::ReadCoils {
                address: *address,
                length: *length,
            },
            ModelCall::ReadDiscreteInputs { address, length } => ModelCall::ReadDiscreteInputs {
                address: *address,
                length: *length,
            },
            ModelCall::ReadHoldingRegisters { address, length } => ModelCall::ReadHoldingRegisters {
                address: *address,
                length: *length,
            },
            ModelCall::ReadInputRegisters { address, length } => ModelCall::ReadInputRegisters {
                address: *address,
                length: *length,
            },
            ModelCall::WriteSingleCoil { address, value } => ModelCall::WriteSingleCoil {
                address: *address,
                value: *value,
            },
            ModelCall::WriteSingleRegister { address, value } => ModelCall::WriteSingleRegister {
                address: *address,
                value: *value,
            },
            ModelCall::WriteMultipleCoils { address, values } => ModelCall::WriteMultipleCoils {
                address: *address,
                values: copy_values(values),
            },
            ModelCall::WriteMultipleRegisters { address, values } =>
            ModelCall::WriteMultipleRegisters {
                address: *address,
                values: copy_values(values),
            },
            ModelCall::ReportServerId => ModelCall::ReportServerId,
            ModelCall::MaskWriteRegister { address, and_mask, or_mask } =>
            ModelCall::MaskWriteRegister {
                address: *address,
                and_mask: *and_mask,
                or_mask: *or_mask,
            },
            ModelCall::ReadDeviceIdentification { read_device_id_code, object_id } =>
            ModelCall::ReadDeviceIdentification {
                read_device_id_code: *read_device_id_code,
                object_id: *object_id,
            },
        }
    }
}

/// What is to be done about a request.
#[derive(Debug)]
pub enum Plan {
    /// Nothing, not even an answer.
    Ignore,
    /// Answer with an exception.
    Reject(ErrorCode),
    /// Call the model.
    Call(ModelCall),
    /// Have the model write holding registers, and then, if it did, read some.
    WriteThenRead {
        write_address: u16,
        values: Vec<u16>,
        read_address: u16,
        read_length: u16,
    },
    /// The function code is no standard one.
    Custom,
}

/// The contents of a [`Plan`].
pub enum Planned {
    Ignore,
    Reject(ErrorCode),
    Call(Call),
    WriteThenRead { write_address: u16, values: Seq<u16>, read_address: u16, read_length: u16 },
    Custom,
}

impl View for Plan {
    type V = Planned;

    open spec fn view(&self) -> Planned {
        match *self {
            Plan::Ignore => Planned::Ignore,
            Plan::Reject(code) => Planned::Reject(code),
            Plan::Call(call) => Planned::Call(call@),
            Plan::WriteThenRead { write_address, values, read_address, read_length } =>
            Planned::WriteThenRead { write_address, values: values@, read_address, read_length },
            Plan::Custom => Planned::Custom,
        }
    }
}

// ----- plans, function code by function code -----
/// The addresses that count for `length` values from `address` on: the first
/// one and the one behind the last.
pub open spec fn span(address: u16, length: u16) -> Seq<u16> {
    seq![address, (address + length) as u16]
}

/// A request that reads up to `max` values in `ranges`.
pub open spec fn planned_read(
    data: Seq<u8>,
    max: u16,
    ranges: Seq<(u16, u16)>,
    call: spec_fn(u16, u16) -> Call,
) -> Planned {
    if data.len() != 4 {
        Planned::Ignore
    } else {
        let (address, length) = (be_word_at(data, 0), be_word_at(data, 2));
        if length < 1 || length > max {
            Planned::Reject(ErrorCode::IllegalDataValue)
        } else if !in_some_range(span(address, length), ranges) {
            Planned::Reject(ErrorCode::IllegalDataAddress)
        } else {
            Planned::Call(call(address, length))
        }
    }
}

pub open spec fn planned_fc5(data: Seq<u8>, ranges: Ranges) -> Planned {
    if data.len() != 4 {
        Planned::Ignore
    } else {
        let (address, value) = (be_word_at(data, 0), be_word_at(data, 2));
        if value != COIL_OFF && value != COIL_ON {
            Planned::Reject(ErrorCode::IllegalDataValue)
        } else if !in_some_range(seq![address], ranges.coils) {
            Planned::Reject(ErrorCode::IllegalDataAddress)
        } else {
            Planned::Call(Call::WriteSingleCoil { address, value: value == COIL_ON })
        }
    }
}

pub open spec fn planned_fc6(data: Seq<u8>, ranges: Ranges) -> Planned {
    if data.len() != 4 {
        Planned::Ignore
    } else {
        let (address, value) = (be_word_at(data, 0), be_word_at(data, 2));
        if !in_some_range(seq![address], ranges.holding_registers) {
            Planned::Reject(ErrorCode::IllegalDataAddress)
        } else {
            Planned::Call(Call::WriteSingleRegister { address, value })
        }
    }
}

/// `at` holds a byte count, and so many bytes follow it, at least one, up to
/// the end.
pub open spec fn counted_to_end(data: Seq<u8>, at: int) -> bool {
    data.len() > at + 1 && data.len() == at + 1 + data[at]
}

pub open spec fn planned_fc15(data: Seq<u8>, ranges: Ranges) -> Planned {
    if !counted_to_end(data, 4) {
        Planned::Ignore
    } else {
        let (address, length) = (be_word_at(data, 0), be_word_at(data, 2));
        if length < 1 || length > WRITE_COILS_MAX || data[4] != coil_bytes(length as nat) {
            Planned::Reject(ErrorCode::IllegalDataValue)
        } else if !in_some_range(span(address, length), ranges.coils) {
            Planned::Reject(ErrorCode::IllegalDataAddress)
        } else {
            Planned::Call(
                Call::WriteMultipleCoils {
                    address,
                    values: unpacked_coils(data.skip(5), length as nat),
                },
            )
        }
    }
}

pub open spec fn planned_fc16(data: Seq<u8>, ranges: Ranges) -> Planned {
    if !counted_to_end(data, 4) {
        Planned::Ignore
    } else {
        let (address, length) = (be_word_at(data, 0), be_word_at(data, 2));
        if length < 1 || length > WRITE_REGISTERS_MAX || data[4] != 2 * length {
            Planned::Reject(ErrorCode::IllegalDataValue)
        } else if !in_some_range(span(address, length), ranges.holding_registers) {
            Planned::Reject(ErrorCode::IllegalDataAddress)
        } else {
            Planned::Call(
                Call::WriteMultipleRegisters {
                    address,
                    values: unpacked_registers(data.skip(5), length as nat),
                },
            )
        }
    }
}

pub open spec fn planned_fc17(data: Seq<u8>) -> Planned {
    if data.len() != 0 {
        Planned::Ignore
    } else {
        Planned::Call(Call::ReportServerId)
    }
}

pub open spec fn planned_fc22(data: Seq<u8>, ranges: Ranges) -> Planned {
    if data.len() != 6 {
        Planned::Ignore
    } else {
        let address = be_word_at(data, 0);
        if !in_some_range(seq![address], ranges.holding_registers) {
            Planned::Reject(ErrorCode::IllegalDataAddress)
        } else {
            Planned::Call(
                Call::MaskWriteRegister {
                    address,
                    and_mask: be_word_at(data, 2),
                    or_mask: be_word_at(data, 4),
                },
            )
        }
    }
}

pub open spec fn planned_fc23(data: Seq<u8>, ranges: Ranges) -> Planned {
    if !counted_to_end(data, 8) {
        Planned::Ignore
    } else {
        let (read_address, read_length) = (be_word_at(data, 0), be_word_at(data, 2));
        let (write_address, write_length) = (be_word_at(data, 4), be_word_at(data, 6));
        if read_length < 1 || read_length > READ_REGISTERS_MAX || write_length < 1 || write_length
            > RW_REGISTERS_WRITE_MAX || data[8] != 2 * write_length {
            Planned::Reject(ErrorCode::IllegalDataValue)
        } else if !in_some_range(
            span(read_address, read_length) + span(write_address, write_length),
            ranges.holding_registers,
        ) {
            Planned::Reject(ErrorCode::IllegalDataAddress)
        } else {
            Planned::WriteThenRead {
                write_address,
                values: unpacked_registers(data.skip(9), write_length as nat),
                read_address,
                read_length,
            }
        }
    }
}

/// Read Device Identification. A stream that is asked to start at an object
/// outside its category starts at the first object.
pub open spec fn planned_fc43_14(data: Seq<u8>) -> Planned {
    if data.len() != 3 || data[0] != MEI_READ_DEVICE_ID {
        Planned::Reject(ErrorCode::IllegalFunction)
    } else {
        let (code, object_id) = (data[1], data[2]);
        let reserved = 0x06 < object_id < 0x80;
        if code == 0x01 {
            Planned::Call(
                Call::ReadDeviceIdentification {
                    read_device_id_code: code,
                    object_id: if object_id > 0x02 {
                        0
                    } else {
                        object_id
                    },
                },
            )
        } else if code == 0x02 {
            Planned::Call(
                Call::ReadDeviceIdentification {
                    read_device_id_code: code,
                    object_id: if object_id > 0x06 {
                        0
                    } else {
                        object_id
                    },
                },
            )
        } else if code == 0x03 {
            Planned::Call(
                Call::ReadDeviceIdentification {
                    read_device_id_code: code,
                    object_id: if reserved {
                        0
                    } else {
                        object_id
                    },
                },
            )
        } else if code == 0x04 {
            if reserved {
                Planned::Reject(ErrorCode::IllegalDataAddress)
            } else {
                Planned::Call(
                    Call::ReadDeviceIdentification { read_device_id_code: code, object_id },
                )
            }
        } else {
            Planned::Reject(ErrorCode::IllegalDataValue)
        }
    }
}

/// What is to be done about the request `adu` to a model with the addresses
/// `ranges`.
pub open spec fn planned(adu: Adu, ranges: Ranges) -> Planned {
    let data = adu.data;
    match adu.fc {
        0x01 => planned_read(
            data,
            READ_COILS_MAX,
            ranges.coils,
            |address: u16, length: u16| Call::ReadCoils { address, length },
        ),
        0x02 => planned_read(
            data,
            READ_COILS_MAX,
            ranges.discrete_inputs,
            |address: u16, length: u16| Call::ReadDiscreteInputs { address, length },
        ),
        0x03 => planned_read(
            data,
            READ_REGISTERS_MAX,
            ranges.holding_registers,
            |address: u16, length: u16| Call::ReadHoldingRegisters { address, length },
        ),
        0x04 => planned_read(
            data,
            READ_REGISTERS_MAX,
            ranges.input_registers,
            |address: u16, length: u16| Call::ReadInputRegisters { address, length },
        ),
        0x05 => planned_fc5(data, ranges),
        0x06 => planned_fc6(data, ranges),
        0x0f => planned_fc15(data, ranges),
        0x10 => planned_fc16(data, ranges),
        0x11 => planned_fc17(data),
        0x16 => planned_fc22(data, ranges),
        0x17 => planned_fc23(data, ranges),
        0x2b => planned_fc43_14(data),
        _ => Planned::Custom,
    }
}

/// The address behind the last one that a request names is an address too, where
/// the quantity of values it names is an admissible one.
pub open spec fn spans_fit(adu: Adu) -> bool {
    let data = adu.data;
    match adu.fc {
        0x01 | 0x02 => data.len() == 4 ==> span_fits(data, 0, READ_COILS_MAX),
        0x03 | 0x04 => data.len() == 4 ==> span_fits(data, 0, READ_REGISTERS_MAX),
        0x0f => counted_to_end(data, 4) && data[4] == coil_bytes(be_word_at(data, 2) as nat)
            ==> span_fits(data, 0, WRITE_COILS_MAX),
        0x10 => counted_to_end(data, 4) && data[4] == 2 * be_word_at(data, 2) ==> span_fits(
            data,
            0,
            WRITE_REGISTERS_MAX,
        ),
        0x17 => counted_to_end(data, 8) && data[8] == 2 * be_word_at(data, 6) && in_limits(
            be_word_at(data, 2),
            READ_REGISTERS_MAX,
        ) && in_limits(be_word_at(data, 6), RW_REGISTERS_WRITE_MAX) ==> span_fits(
            data,
            0,
            READ_REGISTERS_MAX,
        ) && span_fits(data, 4, RW_REGISTERS_WRITE_MAX),
        _ => true,
    }
}

/// `length` is an admissible quantity.
pub open spec fn in_limits(length: u16, max: u16) -> bool {
    1 <= length <= max
}

/// The address and the quantity at `at` do not reach beyond the last address,
/// if the quantity is admissible.
pub open spec fn span_fits(data: Seq<u8>, at: int, max: u16) -> bool {
    in_limits(be_word_at(data, at + 2), max) ==> be_word_at(data, at) + be_word_at(data, at + 2)
        <= u16::MAX
}

fn word_at(data: &Vec<u8>, at: usize) -> (r: u16)
    requires
        at <= 8,
        at + 1 < data@.len(),
    ensures
        r == be_word_at(data@, at as int),
{
    from_bytes(data[at], data[at + 1])
}

fn check_span_fits(data: &Vec<u8>, at: usize, max: u16) -> (r: bool)
    requires
        at <= 4,
        at + 3 < data@.len(),
    ensures
        r == span_fits(data@, at as int, max),
{
    let address: u16 = word_at(data, at);
    let length: u16 = word_at(data, at + 2);
    length < 1 || length > max || address as u32 + length as u32 <= 0xffff
}

fn check_counted(data: &Vec<u8>, at: usize) -> (r: bool)
    requires
        at <= 8,
    ensures
        r == counted_to_end(data@, at as int),
{
    data.len() > at + 1 && data.len() == at + 1 + data[at] as usize
}

/// Whether the addresses that a request names can be computed: the address
/// behind its last value must not lie beyond the last address, 65535.
pub fn addresses_fit(adu: &ApplicationDataUnit) -> (r: bool)
    ensures
        r == spans_fit(adu@),
{
    let data: &Vec<u8> = &adu.data;
    match adu.fc {
        0x01 | 0x02 => data.len() != 4 || check_span_fits(data, 0, READ_COILS_MAX),
        0x03 | 0x04 => data.len() != 4 || check_span_fits(data, 0, READ_REGISTERS_MAX),
        0x0f => {
            if check_counted(data, 4) {
                let length: u32 = word_at(data, 2) as u32;
                data[4] as u32 != (length + 7) / 8 || check_span_fits(data, 0, WRITE_COILS_MAX)
            } else {
                true
            }
        },
        0x10 => {
            if check_counted(data, 4) {
                let length: u32 = word_at(data, 2) as u32;
                data[4] as u32 != length * 2 || check_span_fits(data, 0, WRITE_REGISTERS_MAX)
            } else {
                true
            }
        },
        0x17 => {
            if check_counted(data, 8) {
                let read_length: u16 = word_at(data, 2);
                let write_length: u16 = word_at(data, 6);
                if data[8] as u32 == write_length as u32 * 2 && read_length >= 1 && read_length
                    <= READ_REGISTERS_MAX && write_length >= 1 && write_length
                    <= RW_REGISTERS_WRITE_MAX {
                    check_span_fits(data, 0, READ_REGISTERS_MAX) && check_span_fits(
                        data,
                        4,
                        RW_REGISTERS_WRITE_MAX,
                    )
                } else {
                    true
                }
            } else {
                true
            }
        },
        _ => true,
    }
}

/// Whether the span from `address` on is admitted by `ranges`.
fn span_admitted(address: u16, length: u16, ranges: &Vec<(u16, u16)>) -> (r: bool)
    requires
        address + length <= u16::MAX,
    ensures
        r == in_some_range(span(address, length), ranges@),
{
    let mut values: Vec<u16> = Vec::new();
    values.push(address);
    values.push(address + length);
    assert(values@ =~= span(address, length));
    check_range(&values, ranges)
}

fn address_admitted(address: u16, ranges: &Vec<(u16, u16)>) -> (r: bool)
    ensures
        r == in_some_range(seq![address], ranges@),
{
    let mut values: Vec<u16> = Vec::new();
    values.push(address);
    assert(values@ =~= seq![address]);
    check_range(&values, ranges)
}

/// What a request that reads values amounts to.
enum ReadPlan {
    Ignore,
    Reject(ErrorCode),
    Read { address: u16, length: u16 },
}

fn plan_read(data: &Vec<u8>, max: u16, ranges: &Vec<(u16, u16)>) -> (r: ReadPlan)
    requires
        data@.len() == 4 ==> span_fits(data@, 0, max),
    ensures
        forall|call: spec_fn(u16, u16) -> Call| #[trigger]
            planned_read(data@, max, ranges@, call) == match r {
                ReadPlan::Ignore => Planned::Ignore,
                ReadPlan::Reject(code) => Planned::Reject(code),
                ReadPlan::Read { address, length } => Planned::Call(call(address, length)),
            },
{
    if data.len() != 4 {
        return ReadPlan::Ignore;
    }
    let address: u16 = word_at(data, 0);
    let length: u16 = word_at(data, 2);
    if length < 1 || length > max {
        return ReadPlan::Reject(ErrorCode::IllegalDataValue);
    }
    if !span_admitted(address, length, ranges) {
        return ReadPlan::Reject(ErrorCode::IllegalDataAddress);
    }
    ReadPlan::Read { address, length }
}

fn plan_fc1(data: &Vec<u8>, range: &AddressRange) -> (r: Plan)
    requires
        data@.len() == 4 ==> span_fits(data@, 0, READ_COILS_MAX),
    ensures
        r@ == planned_read(
            data@,
            READ_COILS_MAX,
            range@.coils,
            |address: u16, length: u16| Call::ReadCoils { address, length },
        ),
{
    match plan_read(data, READ_COILS_MAX, &range.coils) {
        ReadPlan::Ignore => Plan::Ignore,
        ReadPlan::Reject(code) => Plan::Reject(code),
        ReadPlan::Read { address, length } => Plan::Call(ModelCall::ReadCoils { address, length }),
    }
}

fn plan_fc2(data: &Vec<u8>, range: &AddressRange) -> (r: Plan)
    requires
        data@.len() == 4 ==> span_fits(data@, 0, READ_COILS_MAX),
    ensures
        r@ == planned_read(
            data@,
            READ_COILS_MAX,
            range@.discrete_inputs,
            |address: u16, length: u16| Call::ReadDiscreteInputs { address, length },
        ),
{
    match plan_read(data, READ_COILS_MAX, &range.discrete_inputs) {
        ReadPlan::Ignore => Plan::Ignore,
        ReadPlan::Reject(code) => Plan::Reject(code),
        ReadPlan::Read { address, length } => Plan::Call(
            ModelCall::ReadDiscreteInputs { address, length },
        ),
    }
}

fn plan_fc3(data: &Vec<u8>, range: &AddressRange) -> (r: Plan)
    requires
        data@.len() == 4 ==> span_fits(data@, 0, READ_REGISTERS_MAX),
    ensures
        r@ == planned_read(
            data@,
            READ_REGISTERS_MAX,
            range@.holding_registers,
            |address: u16, length: u16| Call::ReadHoldingRegisters { address, length },
        ),
{
    match plan_read(data, READ_REGISTERS_MAX, &range.holding_registers) {
        ReadPlan::Ignore => Plan::Ignore,
        ReadPlan::Reject(code) => Plan::Reject(code),
        ReadPlan::Read { address, length } => Plan::Call(
            ModelCall::ReadHoldingRegisters { address, length },
        ),
    }
}

fn plan_fc4(data: &Vec<u8>, range: &AddressRange) -> (r: Plan)
    requires
        data@.len() == 4 ==> span_fits(data@, 0, READ_REGISTERS_MAX),
    ensures
        r@ == planned_read(
            data@,
            READ_REGISTERS_MAX,
            range@.input_registers,
            |address: u16, length: u16| Call::ReadInputRegisters { address, length },
        ),
{
    match plan_read(data, READ_REGISTERS_MAX, &range.input_registers) {
        ReadPlan::Ignore => Plan::Ignore,
        ReadPlan::Reject(code) => Plan::Reject(code),
        ReadPlan::Read { address, length } => Plan::Call(
            ModelCall::ReadInputRegisters { address, length },
        ),
    }
}

fn plan_fc5(data: &Vec<u8>, range: &AddressRange) -> (r: Plan)
    ensures
        r@ == planned_fc5(data@, range@),
{
    if data.len() != 4 {
        return Plan::Ignore;
    }
    let address: u16 = word_at(data, 0);
    let value: u16 = word_at(data, 2);
    if value != COIL_OFF && value != COIL_ON {
        return Plan::Reject(ErrorCode::IllegalDataValue);
    }
    if !address_admitted(address, &range.coils) {
        return Plan::Reject(ErrorCode::IllegalDataAddress);
    }
    Plan::Call(ModelCall::WriteSingleCoil { address, value: value == COIL_ON })
}

fn plan_fc6(data: &Vec<u8>, range: &AddressRange) -> (r: Plan)
    ensures
        r@ == planned_fc6(data@, range@),
{
    if data.len() != 4 {
        return Plan::Ignore;
    }
    let address: u16 = word_at(data, 0);
    if !address_admitted(address, &range.holding_registers) {
        return Plan::Reject(ErrorCode::IllegalDataAddress);
    }
    Plan::Call(ModelCall::WriteSingleRegister { address, value: word_at(data, 2) })
}

fn plan_fc15(data: &Vec<u8>, range: &AddressRange) -> (r: Plan)
    requires
        counted_to_end(data@, 4) && data@[4] == coil_bytes(be_word_at(data@, 2) as nat)
            ==> span_fits(data@, 0, WRITE_COILS_MAX),
    ensures
        r@ == planned_fc15(data@, range@),
{
    if !check_counted(data, 4) {
        return Plan::Ignore;
    }
    let address: u16 = word_at(data, 0);
    let length: u16 = word_at(data, 2);
    if length < 1 || length > WRITE_COILS_MAX || data[4] as u16 != (length + 7) / 8 {
        return Plan::Reject(ErrorCode::IllegalDataValue);
    }
    if !span_admitted(address, length, &range.coils) {
        return Plan::Reject(ErrorCode::IllegalDataAddress);
    }
    Plan::Call(
        ModelCall::WriteMultipleCoils { address, values: read_coil_bits(data, 5, length as usize) },
    )
}

fn plan_fc16(data: &Vec<u8>, range: &AddressRange) -> (r: Plan)
    requires
        counted_to_end(data@, 4) && data@[4] == 2 * be_word_at(data@, 2) ==> span_fits(
            data@,
            0,
            WRITE_REGISTERS_MAX,
        ),
    ensures
        r@ == planned_fc16(data@, range@),
{
    if !check_counted(data, 4) {
        return Plan::Ignore;
    }
    let address: u16 = word_at(data, 0);
    let length: u16 = word_at(data, 2);
    if length < 1 || length > WRITE_REGISTERS_MAX || data[4] as u16 != length * 2 {
        return Plan::Reject(ErrorCode::IllegalDataValue);
    }
    if !span_admitted(address, length, &range.holding_registers) {
        return Plan::Reject(ErrorCode::IllegalDataAddress);
    }
    Plan::Call(
        ModelCall::WriteMultipleRegisters {
            address,
            values: read_registers(data, 5, length as usize),
        },
    )
}

fn plan_fc17(data: &Vec<u8>) -> (r: Plan)
    ensures
        r@ == planned_fc17(data@),
{
    if data.len() != 0 {
        return Plan::Ignore;
    }
    Plan::Call(ModelCall::ReportServerId)
}

fn plan_fc22(data: &Vec<u8>, range: &AddressRange) -> (r: Plan)
    ensures
        r@ == planned_fc22(data@, range@),
{
    if data.len() != 6 {
        return Plan::Ignore;
    }
    let address: u16 = word_at(data, 0);
    if !address_admitted(address, &range.holding_registers) {
        return Plan::Reject(ErrorCode::IllegalDataAddress);
    }
    Plan::Call(
        ModelCall::MaskWriteRegister {
            address,
            and_mask: word_at(data, 2),
            or_mask: word_at(data, 4),
        },
    )
}

fn plan_fc23(data: &Vec<u8>, range: &AddressRange) -> (r: Plan)
    requires
        counted_to_end(data@, 8) && data@[8] == 2 * be_word_at(data@, 6) && in_limits(
            be_word_at(data@, 2),
            READ_REGISTERS_MAX,
        ) && in_limits(be_word_at(data@, 6), RW_REGISTERS_WRITE_MAX) ==> span_fits(
            data@,
            0,
            READ_REGISTERS_MAX,
        ) && span_fits(data@, 4, RW_REGISTERS_WRITE_MAX),
    ensures
        r@ == planned_fc23(data@, range@),
{
    if !check_counted(data, 8) {
        return Plan::Ignore;
    }
    let read_address: u16 = word_at(data, 0);
    let read_length: u16 = word_at(data, 2);
    let write_address: u16 = word_at(data, 4);
    let write_length: u16 = word_at(data, 6);
    if read_length < 1 || read_length > READ_REGISTERS_MAX || write_length < 1 || write_length
        > RW_REGISTERS_WRITE_MAX || data[8] as u16 != write_length * 2 {
        return Plan::Reject(ErrorCode::IllegalDataValue);
    }
    let mut values: Vec<u16> = Vec::new();
    values.push(read_address);
    values.push(read_address + read_length);
    values.push(write_address);
    values.push(write_address + write_length);
    assert(values@ =~= span(read_address, read_length) + span(write_address, write_length));
    if !check_range(&values, &range.holding_registers) {
        return Plan::Reject(ErrorCode::IllegalDataAddress);
    }
    Plan::WriteThenRead {
        write_address,
        values: read_registers(data, 9, write_length as usize),
        read_address,
        read_length,
    }
}

fn plan_fc43_14(data: &Vec<u8>) -> (r: Plan)
    ensures
        r@ == planned_fc43_14(data@),
{
    if data.len() != 3 || data[0] != MEI_READ_DEVICE_ID {
        return Plan::Reject(ErrorCode::IllegalFunction);
    }
    let read_device_id_code: u8 = data[1];
    let mut object_id: u8 = data[2];
    match read_device_id_code {
        0x01 => {
            if object_id > 0x02 {
                object_id = 0x00;
            }
        },
        0x02 => {
            if object_id > 0x06 {
                object_id = 0x00;
            }
        },
        0x03 => {
            if object_id > 0x06 && object_id < 0x80 {
                object_id = 0x00;
            }
        },
        0x04 => {
            if object_id > 0x06 && object_id < 0x80 {
                return Plan::Reject(ErrorCode::IllegalDataAddress);
            }
        },
        _ => {
            return Plan::Reject(ErrorCode::IllegalDataValue);
        },
    }
    Plan::Call(ModelCall::ReadDeviceIdentification { read_device_id_code, object_id })
}

/// What is to be done about a request to a model with the given addresses.
pub fn plan_request(adu: &ApplicationDataUnit, range: &AddressRange) -> (r: Plan)
    requires
        spans_fit(adu@),
    ensures
        r@ == planned(adu@, range@),
{
    let data: &Vec<u8> = &adu.data;
    match adu.fc {
        0x01 => plan_fc1(data, range),
        0x02 => plan_fc2(data, range),
        0x03 => plan_fc3(data, range),
        0x04 => plan_fc4(data, range),
        0x05 => plan_fc5(data, range),
        0x06 => plan_fc6(data, range),
        0x0f => plan_fc15(data, range),
        0x10 => plan_fc16(data, range),
        0x11 => plan_fc17(data),
        0x16 => plan_fc22(data, range),
        0x17 => plan_fc23(data, range),
        0x2b => plan_fc43_14(data),
        _ => Plan::Custom,
    }
}

} // verus!
