//! What a slave answers.
use std::collections::HashMap;
use vstd::prelude::*;

use crate::error::{
    code_of_error, error_of_code, get_code_by_error, get_error_by_code, ErrorCode, ModbusError,
};
use crate::master::two_words;
use crate::slave::identification::{identification_answer, identification_response};
use crate::slave::plan::{Call, ModelCall};
use crate::types::{Adu, ApplicationDataUnit, ServerId, ServerIdentity};
use crate::utils::{
    append_bytes, coil_bytes, pack_coils, pack_registers, packed_coils, packed_registers, push_word,
};
use crate::vars::EXCEPTION_OFFSET;

verus! {

/// What a model says to a [`ModelCall`].
#[derive(Debug)]
pub enum ModelReply {
    /// Coils or discrete inputs.
    Bits(Result<Vec<bool>, ModbusError>),
    /// Holding or input registers.
    Registers(Result<Vec<u16>, ModbusError>),
    /// The outcome of a write.
    Done(Result<(), ModbusError>),
    /// The server id, and the unit of the model.
    ServerId { unit: u8, id: Result<ServerId, ModbusError> },
    /// The identification objects by their ids.
    Identification(Result<HashMap<u8, String>, ModbusError>),
}

/// The contents of a [`ModelReply`].
pub enum Reply {
    Bits(Result<Seq<bool>, ModbusError>),
    Registers(Result<Seq<u16>, ModbusError>),
    Done(Result<(), ModbusError>),
    ServerId { unit: u8, id: Result<ServerIdentity, ModbusError> },
    Identification(Result<Map<u8, String>, ModbusError>),
}

impl View for ModelReply {
    type V = Reply;

    open spec fn view(&self) -> Reply {
        match *self {
            ModelReply::Bits(r) => Reply::Bits(
                match r {
                    Ok(v) => Ok(v@),
                    Err(e) => Err(e),
                },
            ),
            ModelReply::Registers(r) => Reply::Registers(
                match r {
                    Ok(v) => Ok(v@),
                    Err(e) => Err(e),
                },
            ),
            ModelReply::Done(r) => Reply::Done(r),
            ModelReply::ServerId { unit, id } => Reply::ServerId {
                unit,
                id: match id {
                    Ok(v) => Ok(v@),
                    Err(e) => Err(e),
                },
            },
            ModelReply::Identification(r) => Reply::Identification(
                match r {
                    Ok(m) => Ok(m@),
                    Err(e) => Err(e),
                },
            ),
        }
    }
}

/// The reply is of the kind that the call asks for.
pub open spec fn reply_fits(call: Call, reply: Reply) -> bool {
    match call {
        Call::ReadCoils { .. } | Call::ReadDiscreteInputs { .. } => reply is Bits,
        Call::ReadHoldingRegisters { .. } | Call::ReadInputRegisters { .. } => reply is Registers,
        Call::WriteSingleCoil { .. }
        | Call::WriteSingleRegister { .. }
        | Call::WriteMultipleCoils { .. }
        | Call::WriteMultipleRegisters { .. }
        | Call::MaskWriteRegister { .. } => reply is Done,
        Call::ReportServerId => reply is ServerId,
        Call::ReadDeviceIdentification { .. } => reply is Identification,
    }
}

/// The function code of an exception: that of the request, with the highest bit
/// set.
pub open spec fn exception_fc(fc: u8) -> u8 {
    if fc < EXCEPTION_OFFSET {
        (fc + EXCEPTION_OFFSET) as u8
    } else {
        fc
    }
}

/// The regular answer to `adu`, with the given data.
pub open spec fn answer(adu: Adu, data: Seq<u8>) -> Adu {
    Adu { data, ..adu }
}

/// The exception that answers `adu` after the error `err`.
pub open spec fn exception(adu: Adu, err: ModbusError) -> Adu {
    Adu { fc: exception_fc(adu.fc), data: seq![code_of_error(err).value()], ..adu }
}

/// Bytes of the server id: those that the model tells, or else its unit.
pub open spec fn id_bytes(unit: u8, id: ServerIdentity) -> Seq<u8> {
    if id.server_id.len() == 0 {
        seq![unit]
    } else {
        id.server_id
    }
}

/// The data that reports a server id: a byte count, the id, the run indicator
/// and whatever else the device tells. `None` if that is more than one byte can
/// count.
pub open spec fn server_id_data(unit: u8, id: ServerIdentity) -> Option<Seq<u8>> {
    let count = id_bytes(unit, id).len() + 1 + id.additional_data.len();
    if count > 255 {
        None
    } else {
        Some(
            seq![count as u8] + id_bytes(unit, id) + seq![
                if id.run_indicator_status {
                    0xff
                } else {
                    0x00
                },
            ] + id.additional_data,
        )
    }
}

/// The answer to `adu` that reports coils.
pub open spec fn bits_answer(adu: Adu, length: u16, r: Result<Seq<bool>, ModbusError>) -> Adu {
    match r {
        Ok(v) => answer(adu, seq![(coil_bytes(length as nat) % 256) as u8] + packed_coils(v)),
        Err(e) => exception(adu, e),
    }
}

/// The answer to `adu` that reports registers.
pub open spec fn registers_answer(adu: Adu, length: u16, r: Result<Seq<u16>, ModbusError>) -> Adu {
    match r {
        Ok(v) => answer(adu, seq![(2 * length % 256) as u8] + packed_registers(v)),
        Err(e) => exception(adu, e),
    }
}

/// The answer to `adu` that confirms a write by `data`.
pub open spec fn done_answer(adu: Adu, data: Seq<u8>, r: Result<(), ModbusError>) -> Adu {
    match r {
        Ok(_) => answer(adu, data),
        Err(e) => exception(adu, e),
    }
}

/// The answer to the request `adu` that asked for `call`, after the model said
/// `reply`.
pub open spec fn finished(adu: Adu, call: Call, reply: Reply) -> Adu {
    match call {
        Call::ReadCoils { address, length } => bits_answer(adu, length, reply->Bits_0),
        Call::ReadDiscreteInputs { address, length } => bits_answer(adu, length, reply->Bits_0),
        Call::ReadHoldingRegisters { address, length } => registers_answer(
            adu,
            length,
            reply->Registers_0,
        ),
        Call::ReadInputRegisters { address, length } => registers_answer(
            adu,
            length,
            reply->Registers_0,
        ),
        Call::WriteSingleCoil { address, value } => done_answer(adu, adu.data, reply->Done_0),
        Call::WriteSingleRegister { address, value } => done_answer(adu, adu.data, reply->Done_0),
        Call::MaskWriteRegister { address, and_mask, or_mask } => done_answer(
            adu,
            adu.data,
            reply->Done_0,
        ),
        Call::WriteMultipleCoils { address, values } => done_answer(
            adu,
            two_words(address, values.len() as u16),
            reply->Done_0,
        ),
        Call::WriteMultipleRegisters { address, values } => done_answer(
            adu,
            two_words(address, values.len() as u16),
            reply->Done_0,
        ),
        Call::ReportServerId => match reply->id {
            Ok(id) => match server_id_data(reply->unit, id) {
                Some(data) => answer(adu, data),
                None => exception(adu, ModbusError::ServerDeviceFailure),
            },
            Err(e) => exception(adu, e),
        },
        Call::ReadDeviceIdentification { read_device_id_code, object_id } => match reply->Identification_0 {
            Ok(ident) => match identification_answer(ident, read_device_id_code, object_id) {
                Ok(data) => answer(adu, data),
                Err(code) => exception(adu, error_of_code(code)),
            },
            Err(e) => exception(adu, e),
        },
    }
}

/// The regular answer to `adu`, with the given data.
pub fn response(adu: &ApplicationDataUnit, data: Vec<u8>) -> (r: ApplicationDataUnit)
    ensures
        r@ == answer(adu@, data@),
{
    ApplicationDataUnit { transaction: adu.transaction, unit: adu.unit, fc: adu.fc, data }
}

/// The exception that answers `adu` after an error.
pub fn response_error(adu: &ApplicationDataUnit, error: &ModbusError) -> (r: ApplicationDataUnit)
    ensures
        r@ == exception(adu@, *error),
{
    let fc: u8 = adu.fc;
    proof {
        assert(fc < 0x80 ==> (fc | 0x80) == fc + 0x80) by (bit_vector);
        assert(fc >= 0x80 ==> (fc | 0x80) == fc) by (bit_vector);
    }
    let mut data: Vec<u8> = Vec::new();
    data.push(get_code_by_error(error).as_u8());
    let r = ApplicationDataUnit {
        transaction: adu.transaction,
        unit: adu.unit,
        fc: fc | EXCEPTION_OFFSET,
        data,
    };
    assert(r@.data =~= exception(adu@, *error).data);
    r
}

/// The exception that answers `adu` with the given code.
pub fn response_code(adu: &ApplicationDataUnit, code: ErrorCode) -> (r: ApplicationDataUnit)
    ensures
        r@ == exception(adu@, error_of_code(code)),
{
    response_error(adu, &get_error_by_code(code))
}

fn finish_bits(
    adu: &ApplicationDataUnit,
    length: u16,
    reply: Result<Vec<bool>, ModbusError>,
) -> (r: ApplicationDataUnit)
    requires
        length + 7 <= u16::MAX,
    ensures
        r@ == bits_answer(
            adu@,
            length,
            match reply {
                Ok(v) => Ok(v@),
                Err(e) => Err(e),
            },
        ),
{
    match reply {
        Ok(v) => response(adu, pack_coils(&v, length)),
        Err(e) => response_error(adu, &e),
    }
}

fn finish_registers(
    adu: &ApplicationDataUnit,
    length: u16,
    reply: Result<Vec<u16>, ModbusError>,
) -> (r: ApplicationDataUnit)
    requires
        length * 2 <= u16::MAX,
    ensures
        r@ == registers_answer(
            adu@,
            length,
            match reply {
                Ok(v) => Ok(v@),
                Err(e) => Err(e),
            },
        ),
{
    match reply {
        Ok(v) => response(adu, pack_registers(&v, length)),
        Err(e) => response_error(adu, &e),
    }
}

/// Confirm a write by repeating the request.
fn finish_echo(adu: &ApplicationDataUnit, reply: Result<(), ModbusError>) -> (r: ApplicationDataUnit)
    ensures
        r@ == done_answer(adu@, adu@.data, reply),
{
    match reply {
        Ok(_) => adu.clone(),
        Err(e) => response_error(adu, &e),
    }
}

/// Confirm a write of several values by their address and number.
fn finish_write(
    adu: &ApplicationDataUnit,
    address: u16,
    length: u16,
    reply: Result<(), ModbusError>,
) -> (r: ApplicationDataUnit)
    ensures
        r@ == done_answer(adu@, two_words(address, length), reply),
{
    match reply {
        Ok(_) => {
            let mut data: Vec<u8> = Vec::new();
            push_word(&mut data, address);
            push_word(&mut data, length);
            assert(data@ =~= two_words(address, length));
            response(adu, data)
        },
        Err(e) => response_error(adu, &e),
    }
}

fn finish_fc17(
    adu: &ApplicationDataUnit,
    unit: u8,
    reply: Result<ServerId, ModbusError>,
) -> (r: ApplicationDataUnit)
    ensures
        r@ == match reply {
            Ok(id) => match server_id_data(unit, id@) {
                Some(data) => answer(adu@, data),
                None => exception(adu@, ModbusError::ServerDeviceFailure),
            },
            Err(e) => exception(adu@, e),
        },
{
    match reply {
        Ok(server_id) => {
            let mut id: Vec<u8> = Vec::new();
            if server_id.server_id.len() == 0 {
                id.push(unit);
            } else {
                append_bytes(&mut id, &server_id.server_id);
            }
            assert(id@ =~= id_bytes(unit, server_id@));
            if id.len() > 254 || server_id.additional_data.len() > 254 - id.len() {
                return response_code(adu, ErrorCode::ServerDeviceFailure);
            }
            let count: usize = id.len() + 1 + server_id.additional_data.len();
            let mut data: Vec<u8> = Vec::new();
            data.push(count as u8);
            append_bytes(&mut data, &id);
            data.push(
                if server_id.run_indicator_status {
                    0xff
                } else {
                    0x00
                },
            );
            append_bytes(&mut data, &server_id.additional_data);
            assert(data@ =~= server_id_data(unit, server_id@)->Some_0);
            response(adu, data)
        },
        Err(e) => response_error(adu, &e),
    }
}

fn finish_fc43_14(
    adu: &ApplicationDataUnit,
    read_device_id_code: u8,
    object_id: u8,
    reply: Result<HashMap<u8, String>, ModbusError>,
) -> (r: ApplicationDataUnit)
    ensures
        r@ == match reply {
            Ok(ident) => match identification_answer(ident@, read_device_id_code, object_id) {
                Ok(data) => answer(adu@, data),
                Err(code) => exception(adu@, error_of_code(code)),
            },
            Err(e) => exception(adu@, e),
        },
{
    match reply {
        Ok(ident) => match identification_response(&ident, read_device_id_code, object_id) {
            Ok(data) => response(adu, data),
            Err(code) => response_code(adu, code),
        },
        Err(e) => response_error(adu, &e),
    }
}

/// The quantities in a call are small enough for an answer to name them.
pub open spec fn quantities_fit(call: Call) -> bool {
    match call {
        Call::ReadCoils { address, length } => length + 7 <= u16::MAX,
        Call::ReadDiscreteInputs { address, length } => length + 7 <= u16::MAX,
        Call::ReadHoldingRegisters { address, length } => length * 2 <= u16::MAX,
        Call::ReadInputRegisters { address, length } => length * 2 <= u16::MAX,
        Call::WriteMultipleCoils { address, values } => values.len() <= u16::MAX,
        Call::WriteMultipleRegisters { address, values } => values.len() <= u16::MAX,
        _ => true,
    }
}

/// The answer to the request `adu` that asked for `call`, after the model said
/// `reply`. A reply is of the kind that its call asks for, so no other call gets
/// as far as the last arms.
pub fn finish_request(adu: &ApplicationDataUnit, call: &ModelCall, reply: ModelReply) -> (r:
    ApplicationDataUnit)
    requires
        reply_fits(call@, reply@),
        quantities_fit(call@),
    ensures
        r@ == finished(adu@, call@, reply@),
{
    match reply {
        ModelReply::Bits(bits) => match call {
            ModelCall::ReadCoils { address: _, length } => finish_bits(adu, *length, bits),
            ModelCall::ReadDiscreteInputs { address: _, length } => finish_bits(adu, *length, bits),
            _ => adu.clone(),
        },
        ModelReply::Registers(registers) => match call {
            ModelCall::ReadHoldingRegisters { address: _, length } => finish_registers(
                adu,
                *length,
                registers,
            ),
            ModelCall::ReadInputRegisters { address: _, length } => finish_registers(
                adu,
                *length,
                registers,
            ),
            _ => adu.clone(),
        },
        ModelReply::Done(done) => match call {
            ModelCall::WriteMultipleCoils { address, values } => finish_write(
                adu,
                *address,
                values.len() as u16,
                done,
            ),
            ModelCall::WriteMultipleRegisters { address, values } => finish_write(
                adu,
                *address,
                values.len() as u16,
                done,
            ),
            _ => finish_echo(adu, done),
        },
        ModelReply::ServerId { unit, id } => finish_fc17(adu, unit, id),
        ModelReply::Identification(ident) => match call {
            ModelCall::ReadDeviceIdentification { read_device_id_code, object_id } =>
            finish_fc43_14(adu, *read_device_id_code, *object_id, ident),
            _ => adu.clone(),
        },
    }
}

/// An exception keeps the transaction and the unit of the request, carries its
/// function code with the highest bit set, and tells the code of the error in
/// one byte.
pub proof fn law_exceptions(adu: Adu, err: ModbusError)
    ensures
        exception(adu, err).transaction == adu.transaction,
        exception(adu, err).unit == adu.unit,
        exception(adu, err).fc >= 0x80,
        exception(adu, err).fc % 0x80 == adu.fc % 0x80,
        exception(adu, err).data == seq![code_of_error(err).value()],
{
}

} // verus!
