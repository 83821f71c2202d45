//! What a slave makes of a request, and what it answers.
use std::collections::HashMap;
use std::sync::Arc;
use vstd::prelude::*;

use crate::error::{code_of_error, error_of_code, ErrorCode, ModbusError};
use crate::master::CleanLevel;
use crate::slave::answer::{answer, exception, finished, ModelReply, Reply};
use crate::slave::identification::identification_answer;
use crate::slave::locks::{consecutive, is_lock_order};
use crate::slave::plan::{planned, spans_fit, Call, ModelCall, Plan, Planned};
use crate::slave::queue::{next_of, queue_step, under_way, Queue, QueueStep};
use crate::slave::steps::{
    advanced, begun, call_locks, next_after_intercept, next_after_write, stepped, Act, Action,
    Course, Heard, Next, NextStep, Outcome, SlaveReply, Waiting,
};
use crate::slave::{addressed, codes_of, has_handler, masked, shut_down, SlaveState};
use crate::types::{
    AddressRange, Adu, ApplicationDataUnit, CustomFunctionCode, FramedDataUnit, Ranges, ServerId,
    ServerIdentity,
};
use crate::utils::{
    in_some_range, packed_coils, packed_registers, unpacked_coils, unpacked_registers,
};

verus! {

// ----- masks -----
/// A masked write keeps the bits of the register where the first mask has a bit, and takes
/// those of the second mask elsewhere.
pub proof fn law_masks(current: u16, and_mask: u16, or_mask: u16, k: u16)
    requires
        k < 16,
    ensures
        (masked(current, and_mask, or_mask) >> k) & 1 == if (and_mask >> k) & 1 == 1 {
            (current >> k) & 1
        } else {
            (or_mask >> k) & 1
        },
{
    let m = masked(current, and_mask, or_mask);
    assert((((current & and_mask) | (or_mask & !and_mask)) >> k) & 1 == if (and_mask >> k) & 1 == 1 {
        (current >> k) & 1
    } else {
        (or_mask >> k) & 1
    }) by (bit_vector)
        requires
            k < 16,
    ;
}

// ----- what a request asks for -----
/// The addresses from `first` to `last` are admitted: there is no restriction, or one of
/// the ranges holds both.
pub open spec fn admits(ranges: Seq<(u16, u16)>, first: int, last: int) -> bool {
    ranges.len() == 0 || exists|k: int|
        0 <= k < ranges.len() && (#[trigger] ranges[k]).0 <= first && last <= ranges[k].1
}

proof fn lemma_admits(ranges: Seq<(u16, u16)>, values: Seq<u16>, first: u16, last: u16)
    requires
        first <= last,
        values.contains(first),
        values.contains(last),
        forall|i: int| 0 <= i < values.len() ==> first <= #[trigger] values[i] <= last,
    ensures
        in_some_range(values, ranges) <==> admits(ranges, first as int, last as int),
{
    let i = choose|i: int| 0 <= i < values.len() && values[i] == first;
    let j = choose|j: int| 0 <= j < values.len() && values[j] == last;
    if in_some_range(values, ranges) && ranges.len() > 0 {
        let k = choose|k: int|
            0 <= k < ranges.len() && (#[trigger] ranges[k]).0 <= ranges[k].1
                && crate::utils::all_within(values, ranges[k]);
        assert(ranges[k].0 <= values[i] && values[j] <= ranges[k].1);
    }
    if admits(ranges, first as int, last as int) && ranges.len() > 0 {
        let k = choose|k: int|
            0 <= k < ranges.len() && (#[trigger] ranges[k]).0 <= first && last <= ranges[k].1;
        assert(crate::utils::all_within(values, ranges[k]));
    }
}

/// What is to be done about a request that has an admissible quantity or needs none: what
/// it asks for, if the model has the addresses.
pub open spec fn if_admitted(admitted: bool, plan: Planned) -> Planned {
    if admitted {
        plan
    } else {
        Planned::Reject(ErrorCode::IllegalDataAddress)
    }
}

proof fn lemma_span(ranges: Seq<(u16, u16)>, address: u16, length: u16)
    requires
        address + length <= 65535,
    ensures
        in_some_range(seq![address, (address + length) as u16], ranges) <==> admits(
            ranges,
            address as int,
            address + length,
        ),
{
    let values = seq![address, (address + length) as u16];
    assert(values[0] == address && values[1] == address + length);
    lemma_admits(ranges, values, address, (address + length) as u16);
}

proof fn lemma_one(ranges: Seq<(u16, u16)>, address: u16)
    ensures
        in_some_range(seq![address], ranges) <==> admits(ranges, address as int, address as int),
{
    let values = seq![address];
    assert(values[0] == address);
    lemma_admits(ranges, values, address, address);
}

/// Requests to read say in two words where to begin and how much to read: at most 2000
/// coils or inputs, or 125 registers, and not none. The address behind the last one counts
/// among those that the model has to have.
pub proof fn law_reading_plans(adu: Adu, ranges: Ranges)
    requires
        1 <= adu.fc <= 4,
        spans_fit(adu),
    ensures
        ({
            let d = adu.data;
            let address = (256 * d[0] + d[1]) as u16;
            let length = (256 * d[2] + d[3]) as u16;
            let max = if adu.fc <= 2 {
                2000int
            } else {
                125
            };
            let (own, call) = if adu.fc == 1 {
                (ranges.coils, Call::ReadCoils { address, length })
            } else if adu.fc == 2 {
                (ranges.discrete_inputs, Call::ReadDiscreteInputs { address, length })
            } else if adu.fc == 3 {
                (ranges.holding_registers, Call::ReadHoldingRegisters { address, length })
            } else {
                (ranges.input_registers, Call::ReadInputRegisters { address, length })
            };
            planned(adu, ranges) == if d.len() != 4 {
                Planned::Ignore
            } else if length == 0 || length > max {
                Planned::Reject(ErrorCode::IllegalDataValue)
            } else {
                if_admitted(
                    admits(own, address as int, address + length),
                    Planned::Call(call),
                )
            }
        }),
{
    let d = adu.data;
    let address = (256 * d[0] + d[1]) as u16;
    let length = (256 * d[2] + d[3]) as u16;
    if d.len() == 4 && address + length <= 65535 {
        lemma_span(ranges.coils, address, length);
        lemma_span(ranges.discrete_inputs, address, length);
        lemma_span(ranges.holding_registers, address, length);
        lemma_span(ranges.input_registers, address, length);
    }
}

/// Requests to write one value say in two words where and what. A coil is switched on by
/// 0xff00 and off by 0, and by nothing else. Requests to change bits have three words.
pub proof fn law_single_write_plans(adu: Adu, ranges: Ranges)
    ensures
        ({
            let d = adu.data;
            let address = (256 * d[0] + d[1]) as u16;
            let second = (256 * d[2] + d[3]) as u16;
            let third = (256 * d[4] + d[5]) as u16;
            &&& adu.fc == 5 ==> planned(adu, ranges) == if d.len() != 4 {
                Planned::Ignore
            } else if second != 0 && second != 0xff00 {
                Planned::Reject(ErrorCode::IllegalDataValue)
            } else {
                if_admitted(
                    admits(ranges.coils, address as int, address as int),
                    Planned::Call(Call::WriteSingleCoil { address, value: second != 0 }),
                )
            }
            &&& adu.fc == 6 ==> planned(adu, ranges) == if d.len() != 4 {
                Planned::Ignore
            } else {
                if_admitted(
                    admits(ranges.holding_registers, address as int, address as int),
                    Planned::Call(Call::WriteSingleRegister { address, value: second }),
                )
            }
            &&& adu.fc == 22 ==> planned(adu, ranges) == if d.len() != 6 {
                Planned::Ignore
            } else {
                if_admitted(
                    admits(ranges.holding_registers, address as int, address as int),
                    Planned::Call(
                        Call::MaskWriteRegister { address, and_mask: second, or_mask: third },
                    ),
                )
            }
        }),
{
    let d = adu.data;
    let address = (256 * d[0] + d[1]) as u16;
    lemma_one(ranges.coils, address);
    lemma_one(ranges.holding_registers, address);
}

/// Requests to write several values say in two words where to begin and how many values
/// there are, then how many bytes these take, which has to be right and to fill the
/// request. At most 1968 coils or 123 registers are written, and not none. The address
/// behind the last one counts among those that the model has to have.
pub proof fn law_multiple_write_plans(adu: Adu, ranges: Ranges)
    requires
        spans_fit(adu),
    ensures
        ({
            let d = adu.data;
            let address = (256 * d[0] + d[1]) as u16;
            let n = 256 * d[2] + d[3];
            let filled = d.len() >= 6 && d.len() == 5 + d[4];
            &&& adu.fc == 15 ==> planned(adu, ranges) == if !filled {
                Planned::Ignore
            } else if n == 0 || n > 1968 || d[4] != (n + 7) / 8 {
                Planned::Reject(ErrorCode::IllegalDataValue)
            } else {
                if_admitted(
                    admits(ranges.coils, address as int, address + n),
                    Planned::Call(
                        Call::WriteMultipleCoils {
                            address,
                            values: unpacked_coils(d.skip(5), n as nat),
                        },
                    ),
                )
            }
            &&& adu.fc == 16 ==> planned(adu, ranges) == if !filled {
                Planned::Ignore
            } else if n == 0 || n > 123 || d[4] != 2 * n {
                Planned::Reject(ErrorCode::IllegalDataValue)
            } else {
                if_admitted(
                    admits(ranges.holding_registers, address as int, address + n),
                    Planned::Call(
                        Call::WriteMultipleRegisters {
                            address,
                            values: unpacked_registers(d.skip(5), n as nat),
                        },
                    ),
                )
            }
        }),
{
    let d = adu.data;
    let address = (256 * d[0] + d[1]) as u16;
    let n = (256 * d[2] + d[3]) as u16;
    if address + n <= 65535 {
        lemma_span(ranges.coils, address, n);
        lemma_span(ranges.holding_registers, address, n);
    }
}

/// A request that writes and reads registers names what to read, at most 125, and what to
/// write, at most 121. One range has to hold all of it.
#[verifier::rlimit(40)]
pub proof fn law_write_then_read_plans(adu: Adu, ranges: Ranges)
    requires
        adu.fc == 23,
        spans_fit(adu),
    ensures
        ({
            let d = adu.data;
            let read_address = (256 * d[0] + d[1]) as u16;
            let read_length = (256 * d[2] + d[3]) as u16;
            let write_address = (256 * d[4] + d[5]) as u16;
            let n = 256 * d[6] + d[7];
            let first = if read_address <= write_address {
                read_address as int
            } else {
                write_address as int
            };
            let last = if read_address + read_length >= write_address + n {
                read_address + read_length
            } else {
                write_address + n
            };
            planned(adu, ranges) == if d.len() < 10 || d.len() != 9 + d[8] {
                Planned::Ignore
            } else if read_length == 0 || read_length > 125 || n == 0 || n > 121 || d[8] != 2 * n {
                Planned::Reject(ErrorCode::IllegalDataValue)
            } else {
                if_admitted(
                    admits(ranges.holding_registers, first, last),
                    Planned::WriteThenRead {
                        write_address,
                        values: unpacked_registers(d.skip(9), n as nat),
                        read_address,
                        read_length,
                    },
                )
            }
        }),
{
    let d = adu.data;
    let read_address = (256 * d[0] + d[1]) as u16;
    let read_length = (256 * d[2] + d[3]) as u16;
    let write_address = (256 * d[4] + d[5]) as u16;
    let n = (256 * d[6] + d[7]) as u16;
    if read_address + read_length <= 65535 && write_address + n <= 65535 {
        let values = seq![read_address, (read_address + read_length) as u16] + seq![
            write_address,
            (write_address + n) as u16,
        ];
        let first = if read_address <= write_address {
            read_address
        } else {
            write_address
        };
        let last = if read_address + read_length >= write_address + n {
            (read_address + read_length) as u16
        } else {
            (write_address + n) as u16
        };
        assert(values[0] == read_address && values[1] == read_address + read_length);
        assert(values[2] == write_address && values[3] == write_address + n);
        lemma_admits(ranges.holding_registers, values, first, last);
    }
}

/// Requests for the server id have no data; those for identification objects have the sub
/// function 14, a code and an object. The code is 1 for basic, 2 for regular and 3 for all
/// objects, which begin at the first one unless they can begin at the object, and 4 for
/// that object alone, which must not be a reserved one. All other function codes are custom
/// ones.
pub proof fn law_other_plans(adu: Adu, ranges: Ranges)
    ensures
        ({
            let d = adu.data;
            let (code, id) = (d[1], d[2]);
            let from = |id: u8|
                Planned::Call(
                    Call::ReadDeviceIdentification { read_device_id_code: code, object_id: id },
                );
            &&& adu.fc == 17 ==> planned(adu, ranges) == if d.len() == 0 {
                Planned::Call(Call::ReportServerId)
            } else {
                Planned::Ignore
            }
            &&& adu.fc == 43 ==> planned(adu, ranges) == if d.len() != 3 || d[0] != 14 {
                Planned::Reject(ErrorCode::IllegalFunction)
            } else if code == 0 || code > 4 {
                Planned::Reject(ErrorCode::IllegalDataValue)
            } else if code == 1 {
                from(
                    if id <= 2 {
                        id
                    } else {
                        0
                    },
                )
            } else if code == 2 {
                from(
                    if id <= 6 {
                        id
                    } else {
                        0
                    },
                )
            } else if id <= 6 || id >= 128 {
                from(id)
            } else if code == 3 {
                from(0)
            } else {
                Planned::Reject(ErrorCode::IllegalDataAddress)
            }
            &&& planned(adu, ranges) == Planned::Custom <==> adu.fc == 0 || (7 <= adu.fc <= 14) || (
            18 <= adu.fc <= 21) || (24 <= adu.fc <= 42) || adu.fc >= 44
        }),
{
}

/// A request reaches beyond the last address if the address behind the last one it names is
/// no address any more, and nothing else is wrong with its size and its quantities.
pub proof fn law_spans(adu: Adu)
    ensures
        ({
            let d = adu.data;
            let first = 256 * d[0] + d[1];
            let n = 256 * d[2] + d[3];
            let second = 256 * d[4] + d[5];
            let m = 256 * d[6] + d[7];
            &&& adu.fc == 1 || adu.fc == 2 ==> (!spans_fit(adu) <==> d.len() == 4 && 1 <= n <= 2000
                && first + n > 65535)
            &&& adu.fc == 3 || adu.fc == 4 ==> (!spans_fit(adu) <==> d.len() == 4 && 1 <= n <= 125
                && first + n > 65535)
            &&& adu.fc == 15 ==> (!spans_fit(adu) <==> d.len() >= 6 && d.len() == 5 + d[4] && 1 <= n
                <= 1968 && d[4] == (n + 7) / 8 && first + n > 65535)
            &&& adu.fc == 16 ==> (!spans_fit(adu) <==> d.len() >= 6 && d.len() == 5 + d[4] && 1 <= n
                <= 123 && d[4] == 2 * n && first + n > 65535)
            &&& adu.fc == 23 ==> (!spans_fit(adu) <==> d.len() >= 10 && d.len() == 9 + d[8] && 1 <= n
                <= 125 && 1 <= m <= 121 && d[8] == 2 * m && (first + n > 65535 || second + m
                > 65535))
            &&& adu.fc == 0 || (5 <= adu.fc <= 14) || (17 <= adu.fc <= 22) || adu.fc >= 24
                ==> spans_fit(adu)
        }),
{
}

/// What a plan or a call holds is what it was made of.
pub proof fn law_plan_contents(
    address: u16,
    length: u16,
    on: bool,
    coils: Vec<bool>,
    registers: Vec<u16>,
    second: u16,
    third: u16,
    code: u8,
    id: u8,
    call: ModelCall,
    err: ErrorCode,
)
    ensures
        (ModelCall::ReadCoils { address, length })@ == (Call::ReadCoils { address, length }),
        (ModelCall::ReadDiscreteInputs { address, length })@ == (Call::ReadDiscreteInputs {
            address,
            length,
        }),
        (ModelCall::ReadHoldingRegisters { address, length })@ == (Call::ReadHoldingRegisters {
            address,
            length,
        }),
        (ModelCall::ReadInputRegisters { address, length })@ == (Call::ReadInputRegisters {
            address,
            length,
        }),
        (ModelCall::WriteSingleCoil { address, value: on })@ == (Call::WriteSingleCoil {
            address,
            value: on,
        }),
        (ModelCall::WriteSingleRegister { address, value: second })@ == (
        Call::WriteSingleRegister { address, value: second }),
        (ModelCall::WriteMultipleCoils { address, values: coils })@ == (Call::WriteMultipleCoils {
            address,
            values: coils@,
        }),
        (ModelCall::WriteMultipleRegisters { address, values: registers })@ == (
        Call::WriteMultipleRegisters { address, values: registers@ }),
        ModelCall::ReportServerId@ == Call::ReportServerId,
        (ModelCall::MaskWriteRegister { address, and_mask: second, or_mask: third })@ == (
        Call::MaskWriteRegister { address, and_mask: second, or_mask: third }),
        (ModelCall::ReadDeviceIdentification { read_device_id_code: code, object_id: id })@ == (
        Call::ReadDeviceIdentification { read_device_id_code: code, object_id: id }),
        Plan::Ignore@ == Planned::Ignore,
        Plan::Reject(err)@ == Planned::Reject(err),
        Plan::Call(call)@ == Planned::Call(call@),
        Plan::Custom@ == Planned::Custom,
        (Plan::WriteThenRead {
            write_address: address,
            values: registers,
            read_address: second,
            read_length: third,
        })@ == (Planned::WriteThenRead {
            write_address: address,
            values: registers@,
            read_address: second,
            read_length: third,
        }),
        (Action::Intercept { unit: id })@ == (Act::Intercept { unit: id }),
        (Action::Call { unit: id, call, locks: registers })@ == (Act::Call {
            unit: id,
            call: call@,
            locks: registers@,
        }),
        Action::Done@ == Act::Done,
{
}

// ----- answers -----
/// Answers and exceptions go to where the request came from: they keep its transaction id
/// and its unit. An exception has the function code of the request with the bit 128 and the
/// one byte of its code.
pub proof fn law_answers_return(adu: Adu, data: Seq<u8>, err: ModbusError)
    ensures
        answer(adu, data).transaction == adu.transaction,
        answer(adu, data).unit == adu.unit,
        answer(adu, data).fc == adu.fc,
        answer(adu, data).data == data,
        exception(adu, err).transaction == adu.transaction,
        exception(adu, err).unit == adu.unit,
        exception(adu, err).fc >= 128,
        exception(adu, err).fc % 128 == adu.fc % 128,
        exception(adu, err).data.len() == 1,
        exception(adu, err).data[0] == code_of_error(err).value(),
{
}

/// A model's error is answered as an exception, whatever it was asked for.
pub proof fn law_failures_are_answered(adu: Adu, call: Call, err: ModbusError, unit: u8)
    ensures
        ({
            let reply = match call {
                Call::ReadCoils { .. } | Call::ReadDiscreteInputs { .. } => Reply::Bits(Err(err)),
                Call::ReadHoldingRegisters { .. } | Call::ReadInputRegisters { .. } => Reply::Registers(
                    Err(err),
                ),
                Call::ReportServerId => Reply::ServerId { unit, id: Err(err) },
                Call::ReadDeviceIdentification { .. } => Reply::Identification(Err(err)),
                _ => Reply::Done(Err(err)),
            };
            finished(adu, call, reply) == exception(adu, err)
        }),
{
}

/// Values are answered behind the number of their bytes.
pub proof fn law_values_are_answered(
    adu: Adu,
    address: u16,
    length: u16,
    bits: Seq<bool>,
    registers: Seq<u16>,
)
    requires
        length <= 2000,
    ensures
        ({
            let a = finished(adu, Call::ReadCoils { address, length }, Reply::Bits(Ok(bits)));
            let b = finished(adu, Call::ReadDiscreteInputs { address, length }, Reply::Bits(Ok(bits)));
            &&& a == b
            &&& a == answer(adu, a.data)
            &&& a.data.len() == 1 + packed_coils(bits).len()
            &&& a.data[0] == (length + 7) / 8
            &&& a.data.skip(1) == packed_coils(bits)
        }),
        length <= 125 ==> ({
            let a = finished(
                adu,
                Call::ReadHoldingRegisters { address, length },
                Reply::Registers(Ok(registers)),
            );
            let b = finished(
                adu,
                Call::ReadInputRegisters { address, length },
                Reply::Registers(Ok(registers)),
            );
            &&& a == b
            &&& a == answer(adu, a.data)
            &&& a.data.len() == 1 + 2 * registers.len()
            &&& a.data[0] == 2 * length
            &&& a.data.skip(1) == packed_registers(registers)
        }),
{
    let a = finished(adu, Call::ReadCoils { address, length }, Reply::Bits(Ok(bits)));
    assert(a.data.skip(1) =~= packed_coils(bits));
    let c = finished(
        adu,
        Call::ReadHoldingRegisters { address, length },
        Reply::Registers(Ok(registers)),
    );
    assert(c.data.skip(1) =~= packed_registers(registers));
}

/// A write of one value or of some bits is confirmed by the request itself, a write of
/// several values by its first two words: where it began and how many there were.
pub proof fn law_writes_are_confirmed(
    adu: Adu,
    address: u16,
    on: bool,
    a: u16,
    b: u16,
    coils: Seq<bool>,
    registers: Seq<u16>,
)
    requires
        coils.len() <= 65535,
        registers.len() <= 65535,
    ensures
        finished(adu, Call::WriteSingleCoil { address, value: on }, Reply::Done(Ok(()))) == adu,
        finished(adu, Call::WriteSingleRegister { address, value: a }, Reply::Done(Ok(()))) == adu,
        finished(
            adu,
            Call::MaskWriteRegister { address, and_mask: a, or_mask: b },
            Reply::Done(Ok(())),
        ) == adu,
        ({
            let c = finished(
                adu,
                Call::WriteMultipleCoils { address, values: coils },
                Reply::Done(Ok(())),
            );
            &&& c == answer(adu, c.data)
            &&& c.data.len() == 4
            &&& 256 * c.data[0] + c.data[1] == address
            &&& 256 * c.data[2] + c.data[3] == coils.len()
        }),
        ({
            let r = finished(
                adu,
                Call::WriteMultipleRegisters { address, values: registers },
                Reply::Done(Ok(())),
            );
            &&& r == answer(adu, r.data)
            &&& r.data.len() == 4
            &&& 256 * r.data[0] + r.data[1] == address
            &&& 256 * r.data[2] + r.data[3] == registers.len()
        }),
{
}

/// A server id is answered behind the number of bytes: the id, or the unit of a model that
/// has none, then 255 if the device runs and 0 if not, then the rest. More than 255 bytes
/// are a failure of the device.
pub proof fn law_server_ids_are_answered(adu: Adu, unit: u8, id: ServerIdentity)
    ensures
        ({
            let r = finished(adu, Call::ReportServerId, Reply::ServerId { unit, id: Ok(id) });
            let bytes = if id.server_id.len() == 0 {
                seq![unit]
            } else {
                id.server_id
            };
            let n = bytes.len() as int;
            let count = n + 1 + id.additional_data.len();
            if count > 255 {
                r == exception(adu, ModbusError::ServerDeviceFailure)
            } else {
                &&& r == answer(adu, r.data)
                &&& r.data.len() == 1 + count
                &&& r.data[0] == count
                &&& r.data.subrange(1, 1 + n) == bytes
                &&& r.data[1 + n] == if id.run_indicator_status {
                    255int
                } else {
                    0
                }
                &&& r.data.skip(2 + n) == id.additional_data
            }
        }),
{
    let r = finished(adu, Call::ReportServerId, Reply::ServerId { unit, id: Ok(id) });
    let bytes = if id.server_id.len() == 0 {
        seq![unit]
    } else {
        id.server_id
    };
    let n = bytes.len() as int;
    if n + 1 + id.additional_data.len() <= 255 {
        assert(r.data.subrange(1, 1 + n) =~= bytes);
        assert(r.data.skip(2 + n) =~= id.additional_data);
    }
}

/// Identification objects are answered, or refused with the code that stands against it.
pub proof fn law_identifications_are_answered(
    adu: Adu,
    code: u8,
    object_id: u8,
    ident: Map<u8, String>,
)
    ensures
        ({
            let r = finished(
                adu,
                Call::ReadDeviceIdentification { read_device_id_code: code, object_id },
                Reply::Identification(Ok(ident)),
            );
            match identification_answer(ident, code, object_id) {
                Ok(data) => r == answer(adu, data),
                Err(e) => r == exception(adu, error_of_code(e)),
            }
        }),
{
}

// ----- step by step -----
/// A request begins with the first model that it is for, and goes on with the next one when
/// a model is done, until none is left.
pub proof fn law_one_model_after_the_other(adu: Adu, has: bool, units: Seq<u8>, course: Course)
    ensures
        units.len() == 0 ==> begun(adu, has, units).1 is Done,
        units.len() > 0 ==> begun(adu, has, units).1 == (Act::Intercept { unit: units[0] }),
        units.len() > 0 ==> begun(adu, has, units).0 == (Course {
            adu,
            has_handler: has,
            unit: units[0],
            left: units.skip(1),
            stage: Waiting::Asking,
        }),
        course.left.len() == 0 ==> advanced(course).1 is Done,
        course.left.len() > 0 ==> advanced(course).1 == (Act::Intercept { unit: course.left[0] }),
        course.left.len() > 0 ==> advanced(course).0 == (Course {
            adu: course.adu,
            has_handler: course.has_handler,
            unit: course.left[0],
            left: course.left.skip(1),
            stage: Waiting::Asking,
        }),
{
    if units.len() > 0 {
        assert(units.drop_first() =~= units.skip(1));
    }
    if course.left.len() > 0 {
        assert(course.left.drop_first() =~= course.left.skip(1));
    }
}

/// What a model that has seen a request and left it alone is asked to do next is what the
/// request demands, whether it is for one unit or a broadcast. Only what is said in answer
/// depends on that: to a broadcast nothing, and the next model has it.
pub proof fn law_requests_are_carried_out(course: Course, ranges: Ranges)
    requires
        course.stage is Asking,
    ensures
        ({
            let adu = course.adu;
            let (after, act) = stepped(course, Heard::Seen(Ok(None), ranges));
            let says = |a: Adu, report: bool|
                if adu.unit == 0 {
                    (after, act) == advanced(course)
                } else {
                    act == Act::Send(a) && after == (Course {
                        stage: Waiting::Sending { report_failure: report },
                        ..course
                    })
                };
            if !spans_fit(adu) {
                says(exception(adu, ModbusError::IllegalDataAddress), true)
            } else {
                match planned(adu, ranges) {
                    Planned::Ignore => (after, act) == advanced(course),
                    Planned::Reject(code) => says(exception(adu, error_of_code(code)), true),
                    Planned::Call(call) => {
                        &&& after == (Course { stage: Waiting::Calling(call), ..course })
                        &&& act matches Act::Call { unit, call: c, locks } && unit == course.unit
                            && c == call && (match call {
                            Call::MaskWriteRegister { address, and_mask, or_mask } => locks
                                == seq![address],
                            _ => locks.len() == 0,
                        })
                    },
                    Planned::WriteThenRead { write_address, values, read_address, read_length } => {
                        &&& after == (Course {
                            stage: Waiting::Writing { read_address, read_length },
                            ..course
                        })
                        &&& act matches Act::Call { unit, call: c, locks } && unit == course.unit
                            && c == (Call::WriteMultipleRegisters {
                            address: write_address,
                            values,
                        }) && locks.len() == values.len() && forall|i: int|
                            0 <= i < locks.len() ==> #[trigger] locks[i] == (write_address
                                + i) as u16
                    },
                    Planned::Custom => if course.has_handler {
                        act == (Act::Handle { data: adu.data }) && after == (Course {
                            stage: Waiting::Handling,
                            ..course
                        })
                    } else {
                        says(exception(adu, ModbusError::IllegalFunction), true)
                    },
                }
            }
        }),
{
}

/// What a model is asked next follows from what it said: nothing more, if it answered or
/// refused the request itself, or if the request is to be refused or ignored; and after the
/// write of a request that writes and reads, to read.
pub proof fn law_next_steps(
    adu: Adu,
    ranges: Ranges,
    data: Seq<u8>,
    err: ModbusError,
    address: u16,
    length: u16,
)
    ensures
        next_after_intercept(adu, Ok(Some(data)), ranges) == (Next::Reply {
            adu: answer(adu, data),
            report_failure: false,
        }),
        next_after_intercept(adu, Err(err), ranges) == (Next::Reply {
            adu: exception(adu, err),
            report_failure: false,
        }),
        !spans_fit(adu) ==> next_after_intercept(adu, Ok(None), ranges) == (Next::Reply {
            adu: exception(adu, ModbusError::IllegalDataAddress),
            report_failure: true,
        }),
        spans_fit(adu) ==> next_after_intercept(adu, Ok(None), ranges) == match planned(adu, ranges) {
            Planned::Ignore => Next::Ignore,
            Planned::Reject(code) => Next::Reply {
                adu: exception(adu, error_of_code(code)),
                report_failure: true,
            },
            Planned::Call(call) => Next::Call(call),
            Planned::WriteThenRead { write_address, values, read_address, read_length } =>
            Next::WriteThenRead { write_address, values, read_address, read_length },
            Planned::Custom => Next::Custom,
        },
        next_after_write(adu, address, length, Ok(())) == Next::Call(
            Call::ReadHoldingRegisters { address, length },
        ),
        next_after_write(adu, address, length, Err(err)) == (Next::Reply {
            adu: exception(adu, err),
            report_failure: true,
        }),
{
}

/// What a step holds is what it was made of.
pub proof fn law_step_contents(
    reply: SlaveReply,
    call: ModelCall,
    values: Vec<u16>,
    data: Vec<u8>,
    adu: ApplicationDataUnit,
    a: u16,
    b: u16,
    c: u16,
)
    ensures
        NextStep::Ignore@ == Next::Ignore,
        NextStep::Custom@ == Next::Custom,
        NextStep::Call(call)@ == Next::Call(call@),
        NextStep::Reply(reply)@ == (Next::Reply {
            adu: reply.adu@,
            report_failure: reply.report_failure,
        }),
        (NextStep::WriteThenRead { write_address: a, values, read_address: b, read_length: c })@ == (
        Next::WriteThenRead { write_address: a, values: values@, read_address: b, read_length: c }),
        (Action::Handle { data })@ == (Act::Handle { data: data@ }),
        Action::Send(adu)@ == Act::Send(adu@),
        adu@.transaction == adu.transaction,
        adu@.unit == adu.unit,
        adu@.fc == adu.fc,
        adu@.data == adu.data@,
{
}

/// A request that arrives waits behind the others. The first one that waits is taken off
/// next; when there is none, the queue is given up. When the connection goes down, nothing
/// waits any more, and a queue that nobody works off is given up.
pub proof fn law_queue_steps<R>(queue: Option<Queue<R>>, frame: FramedDataUnit, handle: R)
    ensures
        ({
            let items = if queue is Some {
                queue->0.items
            } else {
                Seq::empty()
            };
            let busy = queue is Some && queue->0.processing;
            let arrived = queue_step(queue, QueueStep::Arrival(frame, handle));
            let taken = queue_step(queue, QueueStep::Next);
            let closed = queue_step(queue, QueueStep::ConnectionClosed);
            &&& arrived is Some && arrived->0.processing
            &&& arrived->0.items.len() == items.len() + 1
            &&& arrived->0.items[items.len() as int] == (frame, handle)
            &&& forall|i: int| 0 <= i < items.len() ==> #[trigger] arrived->0.items[i] == items[i]
            &&& under_way(queue) <==> busy
            &&& items.len() == 0 ==> next_of(queue) is None && taken is None
            &&& items.len() > 0 ==> next_of(queue) == Some(items[0]) && taken is Some
                && taken->0.processing == busy && taken->0.items.len() == items.len() - 1
                && forall|i: int|
                0 <= i < items.len() - 1 ==> #[trigger] taken->0.items[i] == items[i + 1]
            &&& busy ==> closed is Some && closed->0.processing && closed->0.items.len() == 0
            &&& !busy ==> closed is None
        }),
{
}

/// What a model or a handler says is answered, and so is what a model says when it sees a
/// request. A broadcast is not answered. An answer that cannot be sent is followed by an
/// exception, once, if the model was called or the request refused.
pub proof fn law_replies_are_sent(course: Course, heard: Heard)
    ensures
        ({
            let adu = course.adu;
            let (after, act) = stepped(course, heard);
            let says = |a: Adu, report: bool|
                if adu.unit == 0 {
                    (after, act) == advanced(course)
                } else {
                    act == Act::Send(a) && after == (Course {
                        stage: Waiting::Sending { report_failure: report },
                        ..course
                    })
                };
            match course.stage {
                Waiting::Asking => match heard->Seen_0 {
                    Ok(Some(data)) => says(answer(adu, data), false),
                    Err(e) => says(exception(adu, e), false),
                    Ok(None) => true,
                },
                Waiting::Calling(call) => says(finished(adu, call, heard->Replied_0), true),
                Waiting::Writing { read_address, read_length } => match heard->Replied_0->Done_0 {
                    Ok(_) => {
                        let read = Call::ReadHoldingRegisters {
                            address: read_address,
                            length: read_length,
                        };
                        &&& act == (Act::Call { unit: course.unit, call: read, locks: Seq::empty() })
                        &&& after == (Course { stage: Waiting::Calling(read), ..course })
                    },
                    Err(e) => says(exception(adu, e), true),
                },
                Waiting::Handling => match heard->Handled_0 {
                    Ok(data) => says(answer(adu, data), false),
                    Err(e) => says(exception(adu, e), false),
                },
                Waiting::Sending { report_failure } => match heard->Sent_0 {
                    Err(e) if report_failure => act == Act::Send(exception(adu, e)) && after == (
                    Course { stage: Waiting::Sending { report_failure: false }, ..course }),
                    _ => (after, act) == advanced(course),
                },
                Waiting::Over => act is Done && after == course,
            }
        }),
{
}

/// Whom a request is for, and who handles its function code.
pub proof fn law_targets<P, H>(
    units: Set<u8>,
    unit: u8,
    customs: Map<u8, CustomFunctionCode<P, H>>,
    fc: u8,
)
    ensures
        unit != 0 && units.contains(unit) ==> addressed(units, unit) == seq![unit],
        unit != 0 && !units.contains(unit) ==> addressed(units, unit).len() == 0,
        forall|i: int, j: int|
            0 <= i < j < addressed(units, 0).len() ==> (#[trigger] addressed(units, 0)[i]) < (
            #[trigger] addressed(units, 0)[j]),
        forall|u: u8| #[trigger] addressed(units, 0).contains(u) <==> units.contains(u),
        has_handler(customs, fc) <==> customs.dom().contains(fc) && customs[fc].handle is Some,
{
    crate::slave::law_addressed_units(units, 0);
    lemma_ascending_units(units, 0);
}

proof fn lemma_ascending_units(units: Set<u8>, from: int)
    requires
        0 <= from,
    ensures
        forall|i: int, j: int|
            0 <= i < j < crate::slave::units_from(units, from).len() ==> (
            #[trigger] crate::slave::units_from(units, from)[i]) < (
            #[trigger] crate::slave::units_from(units, from)[j]),
        forall|i: int|
            0 <= i < crate::slave::units_from(units, from).len() ==> from
                <= #[trigger] crate::slave::units_from(units, from)[i],
    decreases 256 - from,
{
    if from < 256 {
        lemma_ascending_units(units, from + 1);
        let all = crate::slave::units_from(units, from);
        let rest = crate::slave::units_from(units, from + 1);
        if units.contains(from as u8) {
            assert(all =~= seq![from as u8] + rest);
            assert forall|i: int| 0 < i < all.len() implies #[trigger] all[i] == rest[i - 1] by {}
        }
    }
}

/// The addresses of a write that needs locks follow one another.
pub proof fn law_consecutive_addresses(from: u16, n: nat, order: Seq<u16>, addresses: Seq<u16>)
    requires
        from + n <= 65536,
    ensures
        consecutive(from, n).len() == n,
        forall|i: int| 0 <= i < n ==> #[trigger] consecutive(from, n)[i] == from + i,
        is_lock_order(order, addresses) ==> (forall|a: u16| #[trigger]
            order.contains(a) <==> addresses.contains(a)) && forall|i: int, j: int|
            0 <= i < j < order.len() ==> (#[trigger] order[i]) < (#[trigger] order[j]),
        forall|address: u16, a: u16, b: u16| #[trigger]
            call_locks(Call::MaskWriteRegister { address, and_mask: a, or_mask: b }) == seq![address],
{
}

/// What was heard is what the outcome of an action holds.
pub proof fn law_outcome_contents(
    seen: Result<Option<Vec<u8>>, ModbusError>,
    range: AddressRange,
    handled: Result<Vec<u8>, ModbusError>,
    sent: Result<(), ModbusError>,
    bits: Result<Vec<bool>, ModbusError>,
    registers: Result<Vec<u16>, ModbusError>,
    unit: u8,
    id: Result<ServerId, ModbusError>,
    ident: Result<HashMap<u8, String>, ModbusError>,
)
    ensures
        Outcome::Sent(sent)@ == Heard::Sent(sent),
        Outcome::Seen(seen, range)@ matches Heard::Seen(s, r) && r.coils == range.coils@
            && r.discrete_inputs == range.discrete_inputs@ && r.input_registers
            == range.input_registers@ && r.holding_registers == range.holding_registers@ && (
        seen matches Ok(Some(d)) ==> s == Ok::<Option<Seq<u8>>, ModbusError>(Some(d@))) && (
        seen matches Ok(None) ==> s == Ok::<Option<Seq<u8>>, ModbusError>(None)) && (
        seen matches Err(e) ==> s == Err::<Option<Seq<u8>>, ModbusError>(e)),
        Outcome::Handled(handled)@ matches Heard::Handled(h) && (handled matches Ok(d) ==> h == Ok::<
            Seq<u8>,
            ModbusError,
        >(d@)) && (handled matches Err(e) ==> h == Err::<Seq<u8>, ModbusError>(e)),
        Outcome::Replied(ModelReply::Done(sent))@ == Heard::Replied(Reply::Done(sent)),
        bits matches Ok(v) ==> ModelReply::Bits(bits)@ == Reply::Bits(Ok(v@)),
        bits matches Err(e) ==> ModelReply::Bits(bits)@ == Reply::Bits(Err(e)),
        registers matches Ok(v) ==> ModelReply::Registers(registers)@ == Reply::Registers(Ok(v@)),
        registers matches Err(e) ==> ModelReply::Registers(registers)@ == Reply::Registers(Err(e)),
        id matches Ok(v) ==> (ModelReply::ServerId { unit, id })@ == (Reply::ServerId {
            unit,
            id: Ok(
                ServerIdentity {
                    server_id: v.server_id@,
                    run_indicator_status: v.run_indicator_status,
                    additional_data: v.additional_data@,
                },
            ),
        }),
        id matches Err(e) ==> (ModelReply::ServerId { unit, id })@ == (Reply::ServerId {
            unit,
            id: Err(e),
        }),
        ident matches Ok(m) ==> ModelReply::Identification(ident)@ == Reply::Identification(Ok(m@)),
        ident matches Err(e) ==> ModelReply::Identification(ident)@ == Reply::Identification(Err(e)),
{
}

/// Shared custom function codes are what they point to.
pub proof fn law_shared_codes<P, H>(codes: Map<u8, Arc<CustomFunctionCode<P, H>>>, fc: u8)
    ensures
        codes_of(codes).dom().contains(fc) <==> codes.dom().contains(fc),
        codes.dom().contains(fc) ==> codes_of(codes)[fc] == *codes[fc],
{
}

// ----- the end of a session -----
/// A slave that is closed takes no more requests and keeps its models and codes; one that
/// is destroyed keeps neither. Neither happens twice, and closing is nothing to a destroyed
/// slave.
pub proof fn law_slave_shutdown<M, P, H>(before: SlaveState<M, P, H>, level: CleanLevel)
    requires
        level != CleanLevel::Active,
    ensures
        before.clean_level == CleanLevel::Destroyed || before.clean_level == level ==> shut_down(
            before,
            level,
        ) == before,
        before.clean_level == CleanLevel::Active || (before.clean_level == CleanLevel::Closed
            && level == CleanLevel::Destroyed) ==> ({
            let after = shut_down(before, level);
            &&& !after.is_open
            &&& after.clean_level == level
            &&& after.concurrent == before.concurrent
            &&& level == CleanLevel::Closed ==> after.models == before.models && after.customs
                == before.customs
            &&& level == CleanLevel::Destroyed ==> forall|k: u8|
                !#[trigger] after.models.dom().contains(k)
            &&& level == CleanLevel::Destroyed ==> forall|k: u8|
                !#[trigger] after.customs.dom().contains(k)
        }),
{
}

} // verus!
