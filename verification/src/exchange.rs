//! How master and slave understand each other: what a master asks for is what a
//! slave does, and what a slave answers is what the master reads.
use vstd::prelude::*;

use crate::error::{ErrorCode, ModbusError};
use crate::layers::application::rtu::stream::rtu_frame;
use crate::master::{
    coil_word, counted_checks, echo_checks, ident_objects, identity, mask_write_data,
    read_write_data, request, server_identity, two_words, write_coils_data, write_registers_data,
};
use crate::master_session::{law_verdict_splits, objects_end, outcome, rejection, verdict, Check};
use crate::slave::answer::{
    answer, bits_answer, done_answer, exception, exception_fc, finished, id_bytes, registers_answer,
    reply_fits, server_id_data, Reply,
};
use crate::slave::identification::{
    conformity, first_object, has_object, identification_selection, object_bytes, object_list,
    objects_from, selection, Object, MAX_ANSWER_LENGTH, MAX_OBJECT_LENGTH,
};
use crate::slave::plan::{planned, span, Call, Planned};
use crate::types::{Adu, IdentObject, Identity, Ranges, ServerIdentity};
use crate::utils::{
    be_word_at, coil_bytes, in_some_range, law_coils_round_trip, law_registers_round_trip,
    law_text_round_trip, law_word_round_trip, packed_coils, packed_registers, prediction, text_of,
    unpacked_coils, unpacked_registers, PredictResult,
};
use crate::vars::limits::{
    READ_COILS_MAX, READ_REGISTERS_MAX, RW_REGISTERS_WRITE_MAX, WRITE_COILS_MAX,
    WRITE_REGISTERS_MAX,
};
use crate::vars::MEI_READ_DEVICE_ID;

verus! {

// ----- checks -----
/// The checks for an answer with values let exactly those answers pass that come
/// from the right unit, have the right function code, and carry as many bytes as
/// they say and as are expected.
pub proof fn law_counted_checks(unit: u8, fc: u8, byte_count: nat, adu: Adu)
    requires
        byte_count < usize::MAX,
    ensures
        verdict(counted_checks(unit, fc, byte_count), adu) is None <==> adu.unit == unit && adu.fc
            == fc && adu.data.len() == 1 + byte_count && adu.data[0] == byte_count,
{
    let checks = counted_checks(unit, fc, byte_count);
    assert(checks.drop_first().drop_first().drop_first() =~= Seq::<Check>::empty());
    reveal_with_fuel(verdict, 4);
    assert(checks.drop_first()[0] == checks[1]);
    assert(checks.drop_first().drop_first()[0] == checks[2]);
}

/// The checks for a confirmation let exactly those answers pass that come from
/// the right unit, have the right function code and repeat the data.
pub proof fn law_echo_checks(unit: u8, fc: u8, data: Seq<u8>, adu: Adu)
    requires
        data.len() <= usize::MAX,
    ensures
        verdict(echo_checks(unit, fc, data), adu) is None <==> adu.unit == unit && adu.fc == fc
            && adu.data == data,
{
    let checks = echo_checks(unit, fc, data);
    assert(checks.drop_first().drop_first().drop_first() =~= Seq::<Check>::empty());
    reveal_with_fuel(verdict, 4);
    assert(checks.drop_first()[0] == checks[1]);
    assert(checks.drop_first().drop_first()[0] == checks[2]);
}

/// Checks for the answer to Report Server ID.
pub open spec fn server_id_checks(unit: u8) -> Seq<Check> {
    seq![Check::UnitFc { unit, fc: 0x11 }, Check::Counted]
}

/// Checks for the answer to Read Device Identification.
pub open spec fn identification_checks(unit: u8, code: u8) -> Seq<Check> {
    seq![Check::UnitFc { unit, fc: 0x2b }, Check::DeviceIdentification(code)]
}

proof fn lemma_two_checks(a: Check, b: Check, adu: Adu)
    ensures
        verdict(seq![a, b], adu) == match rejection(outcome(a, adu), adu.data.len()) {
            Some(e) => Some(e),
            None => rejection(outcome(b, adu), adu.data.len()),
        },
{
    let checks = seq![a, b];
    assert(checks.drop_first().drop_first() =~= Seq::<Check>::empty());
    reveal_with_fuel(verdict, 3);
    assert(checks.drop_first()[0] == b);
}

/// An answer that passed the checks for Read Device Identification is made up of
/// exactly the objects that it says it has.
pub proof fn law_identification_checks(unit: u8, code: u8, adu: Adu)
    requires
        adu.data.len() <= usize::MAX,
        verdict(identification_checks(unit, code), adu) is None,
    ensures
        adu.unit == unit,
        adu.fc == 0x2b,
        adu.data.len() >= 6,
        objects_end(adu.data, 6, adu.data[5] as nat) == Some(adu.data.len() as int),
{
    lemma_two_checks(
        Check::UnitFc { unit, fc: 0x2b },
        Check::DeviceIdentification(code),
        adu,
    );
    if let Some(end) = objects_end(adu.data, 6, adu.data[5] as nat) {
        lemma_objects_end_bounds(adu.data, 6, adu.data[5] as nat);
    }
}

proof fn lemma_objects_end_bounds(data: Seq<u8>, at: int, n: nat)
    requires
        0 <= at <= data.len(),
    ensures
        objects_end(data, at, n) matches Some(end) ==> at <= end <= data.len(),
    decreases n,
{
    if n > 0 && at + 2 <= data.len() && at + 2 + data[at + 1] <= data.len() {
        lemma_objects_end_bounds(data, at + 2 + data[at + 1], (n - 1) as nat);
    }
}

/// A frame with another transaction id than the request's is rejected before
/// anything else is looked at, so the answer to an earlier request is never taken
/// for that to a later one. With the right one the other checks decide.
pub proof fn law_stale_answers_are_rejected(tid: u16, checks: Seq<Check>, adu: Adu)
    ensures
        verdict(seq![Check::Transaction(tid)] + checks, adu) == if adu.transaction == Some(tid) {
            verdict(checks, adu)
        } else {
            Some(ModbusError::InvalidResponse)
        },
{
    let first = seq![Check::Transaction(tid)];
    law_verdict_splits(first, checks, adu);
    assert(first.drop_first() =~= Seq::<Check>::empty());
    reveal_with_fuel(verdict, 2);
}

/// An exception is no answer to a request with a standard function code: it is
/// rejected, whatever the other checks are.
pub proof fn law_exceptions_are_rejected(
    unit: u8,
    adu: Adu,
    err: ModbusError,
    checks: Seq<Check>,
)
    requires
        adu.fc < 0x80,
    ensures
        verdict(seq![Check::UnitFc { unit, fc: adu.fc }] + checks, exception(adu, err)) == Some(
            ModbusError::InvalidResponse,
        ),
{
    let first = seq![Check::UnitFc { unit, fc: adu.fc }];
    law_verdict_splits(first, checks, exception(adu, err));
    assert(first.drop_first() =~= Seq::<Check>::empty());
    reveal_with_fuel(verdict, 2);
}

// ----- requests -----
/// `adu` under some transaction id.
pub open spec fn under(transaction: Option<u16>, adu: Adu) -> Adu {
    Adu { transaction, ..adu }
}

proof fn lemma_two_words(a: u16, b: u16)
    ensures
        two_words(a, b).len() == 4,
        be_word_at(two_words(a, b), 0) == a,
        be_word_at(two_words(a, b), 2) == b,
{
    law_word_round_trip(a, 0, 0);
    law_word_round_trip(b, 0, 0);
}

/// The request is made into `plan` if the model has the addresses; else it is
/// refused.
pub open spec fn if_has_addresses(has_addresses: bool, plan: Planned) -> Planned {
    if has_addresses {
        plan
    } else {
        Planned::Reject(ErrorCode::IllegalDataAddress)
    }
}

/// The model is asked for `call` if it has the addresses; else the request is
/// refused.
pub open spec fn call_or_refuse(has_addresses: bool, call: Call) -> Planned {
    if_has_addresses(has_addresses, Planned::Call(call))
}

/// A request to read `length` values is made into `plan` if it keeps to the limit
/// of the protocol, and is refused otherwise.
pub open spec fn limited(length: nat, max: u16, plan: Planned) -> Planned {
    if 1 <= length <= max {
        plan
    } else {
        Planned::Reject(ErrorCode::IllegalDataValue)
    }
}

/// A request to read is carried out as it was made, if the model has the addresses.
/// One that goes beyond the limits of the protocol is refused.
pub proof fn law_read_requests(
    t: Option<u16>,
    unit: u8,
    address: u16,
    length: u16,
    ranges: Ranges,
)
    ensures
        planned(under(t, request(unit, 0x01, two_words(address, length))), ranges) == limited(
            length as nat,
            READ_COILS_MAX,
            call_or_refuse(
                in_some_range(span(address, length), ranges.coils),
                Call::ReadCoils { address, length },
            ),
        ),
        planned(under(t, request(unit, 0x02, two_words(address, length))), ranges) == limited(
            length as nat,
            READ_COILS_MAX,
            call_or_refuse(
                in_some_range(span(address, length), ranges.discrete_inputs),
                Call::ReadDiscreteInputs { address, length },
            ),
        ),
        planned(under(t, request(unit, 0x03, two_words(address, length))), ranges) == limited(
            length as nat,
            READ_REGISTERS_MAX,
            call_or_refuse(
                in_some_range(span(address, length), ranges.holding_registers),
                Call::ReadHoldingRegisters { address, length },
            ),
        ),
        planned(under(t, request(unit, 0x04, two_words(address, length))), ranges) == limited(
            length as nat,
            READ_REGISTERS_MAX,
            call_or_refuse(
                in_some_range(span(address, length), ranges.input_registers),
                Call::ReadInputRegisters { address, length },
            ),
        ),
{
    lemma_two_words(address, length);
}

/// A request to write one value is carried out as it was made, if the model has
/// the address.
pub proof fn law_write_single_requests(
    t: Option<u16>,
    unit: u8,
    address: u16,
    coil: bool,
    register: u16,
    ranges: Ranges,
)
    ensures
        planned(under(t, request(unit, 0x05, two_words(address, coil_word(coil)))), ranges)
            == call_or_refuse(
            in_some_range(seq![address], ranges.coils),
            Call::WriteSingleCoil { address, value: coil },
        ),
        planned(under(t, request(unit, 0x06, two_words(address, register))), ranges)
            == call_or_refuse(
            in_some_range(seq![address], ranges.holding_registers),
            Call::WriteSingleRegister { address, value: register },
        ),
{
    lemma_two_words(address, coil_word(coil));
    lemma_two_words(address, register);
}

/// A request to write several coils, as many as a request can hold, is carried out
/// as it was made, if the model has the addresses. One that goes beyond the limits
/// of the protocol is refused, and one without a coil is ignored.
pub proof fn law_write_coils_request(
    t: Option<u16>,
    unit: u8,
    address: u16,
    values: Seq<bool>,
    ranges: Ranges,
)
    requires
        values.len() <= 2040,
    ensures
        planned(under(t, request(unit, 0x0f, write_coils_data(address, values))), ranges)
            == if values.len() == 0 {
            Planned::Ignore
        } else {
            limited(
                values.len(),
                WRITE_COILS_MAX,
                call_or_refuse(
                    in_some_range(span(address, values.len() as u16), ranges.coils),
                    Call::WriteMultipleCoils { address, values },
                ),
            )
        },
{
    let data = write_coils_data(address, values);
    let n = values.len() as u16;
    lemma_two_words(address, n);
    assert(data.take(4) =~= two_words(address, n));
    assert(be_word_at(data, 0) == be_word_at(data.take(4), 0));
    assert(be_word_at(data, 2) == be_word_at(data.take(4), 2));
    assert(data.skip(5) =~= packed_coils(values) + Seq::<u8>::empty());
    law_coils_round_trip(values, Seq::empty());
}

proof fn lemma_write_registers_data(address: u16, values: Seq<u16>)
    requires
        values.len() <= 127,
    ensures
        ({
            let data = write_registers_data(address, values);
            &&& data.len() == 5 + 2 * values.len()
            &&& be_word_at(data, 0) == address
            &&& be_word_at(data, 2) == values.len()
            &&& data[4] == 2 * values.len()
            &&& unpacked_registers(data.skip(5), values.len()) == values
        }),
{
    let data = write_registers_data(address, values);
    let n = values.len() as u16;
    lemma_two_words(address, n);
    assert(data.take(4) =~= two_words(address, n));
    assert(be_word_at(data, 0) == be_word_at(data.take(4), 0));
    assert(be_word_at(data, 2) == be_word_at(data.take(4), 2));
    assert(data.skip(5) =~= packed_registers(values) + Seq::<u8>::empty());
    law_registers_round_trip(values, Seq::empty());
}

/// A request to write several registers, as many as a request can hold, is carried
/// out as it was made, if the model has the addresses. One that goes beyond the
/// limits of the protocol is refused, and one without a register is ignored.
pub proof fn law_write_registers_request(
    t: Option<u16>,
    unit: u8,
    address: u16,
    values: Seq<u16>,
    ranges: Ranges,
)
    requires
        values.len() <= 127,
    ensures
        planned(under(t, request(unit, 0x10, write_registers_data(address, values))), ranges)
            == if values.len() == 0 {
            Planned::Ignore
        } else {
            limited(
                values.len(),
                WRITE_REGISTERS_MAX,
                call_or_refuse(
                    in_some_range(span(address, values.len() as u16), ranges.holding_registers),
                    Call::WriteMultipleRegisters { address, values },
                ),
            )
        },
{
    lemma_write_registers_data(address, values);
}

/// A request to change some bits of a register is carried out as it was made, if
/// the model has the address.
pub proof fn law_mask_write_request(
    t: Option<u16>,
    unit: u8,
    address: u16,
    and_mask: u16,
    or_mask: u16,
    ranges: Ranges,
)
    ensures
        planned(under(t, request(unit, 0x16, mask_write_data(address, and_mask, or_mask))), ranges)
            == call_or_refuse(
            in_some_range(seq![address], ranges.holding_registers),
            Call::MaskWriteRegister { address, and_mask, or_mask },
        ),
{
    law_word_round_trip(address, 0, 0);
    law_word_round_trip(and_mask, 0, 0);
    law_word_round_trip(or_mask, 0, 0);
}

/// A request to write several registers and read several is carried out as it was
/// made, if the model has the addresses. One that goes beyond the limits of the
/// protocol is refused, and one without a register to write is ignored.
pub proof fn law_read_write_request(
    t: Option<u16>,
    unit: u8,
    read_address: u16,
    read_length: u16,
    write_address: u16,
    values: Seq<u16>,
    ranges: Ranges,
)
    requires
        values.len() <= 127,
    ensures
        planned(
            under(
                t,
                request(
                    unit,
                    0x17,
                    read_write_data(read_address, read_length, write_address, values),
                ),
            ),
            ranges,
        ) == if values.len() == 0 {
            Planned::Ignore
        } else {
            limited(
                read_length as nat,
                READ_REGISTERS_MAX,
                limited(
                    values.len(),
                    RW_REGISTERS_WRITE_MAX,
                    if_has_addresses(
                        in_some_range(
                            span(read_address, read_length) + span(
                                write_address,
                                values.len() as u16,
                            ),
                            ranges.holding_registers,
                        ),
                        Planned::WriteThenRead {
                            write_address,
                            values,
                            read_address,
                            read_length,
                        },
                    ),
                ),
            )
        },
{
    let data = read_write_data(read_address, read_length, write_address, values);
    let tail = write_registers_data(write_address, values);
    lemma_two_words(read_address, read_length);
    lemma_write_registers_data(write_address, values);
    assert(data.take(4) =~= two_words(read_address, read_length));
    assert(be_word_at(data, 0) == be_word_at(data.take(4), 0));
    assert(be_word_at(data, 2) == be_word_at(data.take(4), 2));
    assert(data.skip(4) =~= tail);
    assert(be_word_at(data, 4) == be_word_at(tail, 0));
    assert(be_word_at(data, 6) == be_word_at(tail, 2));
    assert(data[8] == tail[4]);
    assert(data.skip(9) =~= tail.skip(5));
}

/// The object `id` belongs to what the code of a request for identification
/// objects covers: the basic, the regular or all objects, or any single one.
pub open spec fn in_category(code: u8, id: u8) -> bool {
    if code == 0x01 {
        id <= 0x02
    } else if code == 0x02 {
        id <= 0x06
    } else {
        id <= 0x06 || id >= 0x80
    }
}

/// A request for the server id is carried out as it was made, and so is one for
/// identification objects from an object on that its code covers. From any other
/// object a stream starts at the first object, and a single one is refused, as is
/// a code that there is not.
pub proof fn law_identity_requests(t: Option<u16>, unit: u8, code: u8, id: u8, ranges: Ranges)
    ensures
        planned(under(t, request(unit, 0x11, Seq::empty())), ranges) == Planned::Call(
            Call::ReportServerId,
        ),
        planned(under(t, request(unit, 0x2b, seq![MEI_READ_DEVICE_ID, code, id])), ranges)
            == if !(1 <= code <= 4) {
            Planned::Reject(ErrorCode::IllegalDataValue)
        } else if in_category(code, id) {
            Planned::Call(
                Call::ReadDeviceIdentification { read_device_id_code: code, object_id: id },
            )
        } else if code == 4 {
            Planned::Reject(ErrorCode::IllegalDataAddress)
        } else {
            Planned::Call(
                Call::ReadDeviceIdentification { read_device_id_code: code, object_id: 0 },
            )
        },
{
}

// ----- answers -----
/// What a slave answers to a request for coils or discrete inputs passes the
/// master's checks, and the master reads the values that the model gave.
pub proof fn law_bits_are_read_back(
    t: Option<u16>,
    unit: u8,
    fc: u8,
    data: Seq<u8>,
    call: Call,
    length: u16,
    values: Seq<bool>,
)
    requires
        1 <= length <= READ_COILS_MAX,
        values.len() == length,
        match call {
            Call::ReadCoils { address, length: n } => n == length,
            Call::ReadDiscreteInputs { address, length: n } => n == length,
            _ => false,
        },
    ensures
        ({
            let adu = finished(under(t, request(unit, fc, data)), call, Reply::Bits(Ok(values)));
            &&& verdict(counted_checks(unit, fc, coil_bytes(length as nat)), adu) is None
            &&& unpacked_coils(adu.data.skip(1), length as nat) == values
            &&& adu.transaction == t
        }),
{
    let adu = finished(under(t, request(unit, fc, data)), call, Reply::Bits(Ok(values)));
    law_counted_checks(unit, fc, coil_bytes(length as nat), adu);
    assert(adu.data.skip(1) =~= packed_coils(values) + Seq::<u8>::empty());
    law_coils_round_trip(values, Seq::empty());
}

/// What a slave answers to a request that reads registers passes the master's
/// checks, and the master reads the values that the model gave.
pub proof fn law_registers_are_read_back(
    t: Option<u16>,
    unit: u8,
    fc: u8,
    data: Seq<u8>,
    call: Call,
    length: u16,
    values: Seq<u16>,
)
    requires
        1 <= length <= READ_REGISTERS_MAX,
        values.len() == length,
        match call {
            Call::ReadHoldingRegisters { address, length: n } => n == length,
            Call::ReadInputRegisters { address, length: n } => n == length,
            _ => false,
        },
    ensures
        ({
            let adu = finished(
                under(t, request(unit, fc, data)),
                call,
                Reply::Registers(Ok(values)),
            );
            &&& verdict(counted_checks(unit, fc, 2 * length as nat), adu) is None
            &&& unpacked_registers(adu.data.skip(1), length as nat) == values
            &&& adu.transaction == t
        }),
{
    let adu = finished(under(t, request(unit, fc, data)), call, Reply::Registers(Ok(values)));
    law_counted_checks(unit, fc, 2 * length as nat, adu);
    assert(adu.data.skip(1) =~= packed_registers(values) + Seq::<u8>::empty());
    law_registers_round_trip(values, Seq::empty());
}

/// What a slave answers to a successful write of one value or of some bits passes
/// the master's checks.
pub proof fn law_single_writes_are_confirmed(
    t: Option<u16>,
    unit: u8,
    fc: u8,
    data: Seq<u8>,
    call: Call,
)
    requires
        data.len() <= usize::MAX,
        call is WriteSingleCoil || call is WriteSingleRegister || call is MaskWriteRegister,
    ensures
        verdict(
            echo_checks(unit, fc, data),
            finished(under(t, request(unit, fc, data)), call, Reply::Done(Ok(()))),
        ) is None,
{
    law_echo_checks(
        unit,
        fc,
        data,
        finished(under(t, request(unit, fc, data)), call, Reply::Done(Ok(()))),
    );
}

/// What a slave answers to a successful write of several values passes the
/// master's checks.
pub proof fn law_multiple_writes_are_confirmed(
    t: Option<u16>,
    unit: u8,
    address: u16,
    coils: Seq<bool>,
    registers: Seq<u16>,
)
    ensures
        verdict(
            echo_checks(unit, 0x0f, two_words(address, coils.len() as u16)),
            finished(
                under(t, request(unit, 0x0f, write_coils_data(address, coils))),
                Call::WriteMultipleCoils { address, values: coils },
                Reply::Done(Ok(())),
            ),
        ) is None,
        verdict(
            echo_checks(unit, 0x10, two_words(address, registers.len() as u16)),
            finished(
                under(t, request(unit, 0x10, write_registers_data(address, registers))),
                Call::WriteMultipleRegisters { address, values: registers },
                Reply::Done(Ok(())),
            ),
        ) is None,
{
    law_echo_checks(
        unit,
        0x0f,
        two_words(address, coils.len() as u16),
        finished(
            under(t, request(unit, 0x0f, write_coils_data(address, coils))),
            Call::WriteMultipleCoils { address, values: coils },
            Reply::Done(Ok(())),
        ),
    );
    law_echo_checks(
        unit,
        0x10,
        two_words(address, registers.len() as u16),
        finished(
            under(t, request(unit, 0x10, write_registers_data(address, registers))),
            Call::WriteMultipleRegisters { address, values: registers },
            Reply::Done(Ok(())),
        ),
    );
}

/// A server id that fits an answer passes the master's checks, and a master that
/// knows its length reads it. A model that tells no id is known by its unit.
pub proof fn law_server_id_is_read_back(
    t: Option<u16>,
    unit: u8,
    model_unit: u8,
    id: ServerIdentity,
)
    requires
        id_bytes(model_unit, id).len() + 1 + id.additional_data.len() <= 255,
    ensures
        ({
            let adu = finished(
                under(t, request(unit, 0x11, Seq::empty())),
                Call::ReportServerId,
                Reply::ServerId { unit: model_unit, id: Ok(id) },
            );
            let len = id_bytes(model_unit, id).len();
            &&& verdict(server_id_checks(unit), adu) is None
            &&& adu.data.len() >= len + 2
            &&& server_identity(adu.data, len) == (ServerIdentity {
                server_id: id_bytes(model_unit, id),
                ..id
            })
        }),
{
    let adu = finished(
        under(t, request(unit, 0x11, Seq::empty())),
        Call::ReportServerId,
        Reply::ServerId { unit: model_unit, id: Ok(id) },
    );
    let bytes = id_bytes(model_unit, id);
    let data = server_id_data(model_unit, id)->Some_0;
    lemma_two_checks(Check::UnitFc { unit, fc: 0x11 }, Check::Counted, adu);
    assert(data.len() == bytes.len() + 2 + id.additional_data.len());
    assert(data.subrange(1, 1 + bytes.len() as int) =~= bytes);
    assert(data.skip(2 + bytes.len() as int) =~= id.additional_data);
    let status: u8 = if id.run_indicator_status {
        0xff
    } else {
        0x00
    };
    assert(data[1 + bytes.len() as int] == status);
}

// ----- identification objects -----
proof fn lemma_selection_bounds(objects: Seq<Object>, total: int, next: u8, specific: bool)
    requires
        0 <= total <= MAX_ANSWER_LENGTH,
    ensures
        selection(objects, total, next, specific) matches Some(s) ==> {
            &&& total + 2 * s.chosen.len() <= MAX_ANSWER_LENGTH
            &&& forall|i: int|
                0 <= i < s.chosen.len() ==> (#[trigger] s.chosen[i]).bytes.len()
                    <= MAX_OBJECT_LENGTH
        },
    decreases objects.len(),
{
    if objects.len() > 0 {
        let o = objects[0];
        let len = o.bytes.len();
        if len <= MAX_OBJECT_LENGTH {
            if total + 2 + len > MAX_ANSWER_LENGTH {
                lemma_selection_bounds(
                    objects.drop_first(),
                    total,
                    if next == 0 {
                        o.id
                    } else {
                        next
                    },
                    specific,
                );
            } else if !specific {
                lemma_selection_bounds(objects.drop_first(), total + 2 + len, next, specific);
            }
        }
    }
}

/// Objects that were written as bytes are read as the same objects.
proof fn lemma_objects_read_back(before: Seq<u8>, objects: Seq<Object>)
    requires
        forall|i: int|
            0 <= i < objects.len() ==> (#[trigger] objects[i]).bytes.len() <= MAX_OBJECT_LENGTH,
    ensures
        ({
            let data = before + object_list(objects);
            let at = before.len() as int;
            &&& objects_end(data, at, objects.len()) == Some(data.len() as int)
            &&& ident_objects(data, at, objects.len()) == objects.map_values(
                |o: Object| IdentObject { id: o.id, value: text_of(o.bytes) },
            )
        }),
    decreases objects.len(),
{
    let data = before + object_list(objects);
    let at = before.len() as int;
    let read = |o: Object| IdentObject { id: o.id, value: text_of(o.bytes) };
    if objects.len() == 0 {
        assert(data =~= before);
        assert(ident_objects(data, at, 0) =~= objects.map_values(read));
    } else {
        let o = objects[0];
        let rest = objects.drop_first();
        let head = seq![o.id, o.bytes.len() as u8] + o.bytes;
        let n = o.bytes.len() as int;
        assert(data =~= before + head + object_list(rest));
        assert(data[at] == o.id);
        assert(data[at + 1] == n);
        assert(data.subrange(at + 2, at + 2 + n) =~= o.bytes);
        assert((before + head).len() == at + 2 + n);
        lemma_objects_read_back(before + head, rest);
        assert(ident_objects(data, at, objects.len()) =~= seq![read(o)] + rest.map_values(read));
        assert(objects.map_values(read) =~= seq![read(o)] + rest.map_values(read));
    }
}

/// What a slave answers to a request for its identification passes the master's
/// checks, and the master reads the objects that were chosen, and whether and
/// where more follow.
pub proof fn law_identification_is_read_back(
    t: Option<u16>,
    unit: u8,
    data: Seq<u8>,
    code: u8,
    object_id: u8,
    ident: Map<u8, String>,
)
    requires
        identification_selection(ident, code, object_id) is Ok,
    ensures
        ({
            let s = identification_selection(ident, code, object_id)->Ok_0;
            let adu = finished(
                under(t, request(unit, 0x2b, data)),
                Call::ReadDeviceIdentification { read_device_id_code: code, object_id },
                Reply::Identification(Ok(ident)),
            );
            &&& verdict(identification_checks(unit, code), adu) is None
            &&& identity(adu.data) == (Identity {
                read_device_id_code: code,
                conformity_level: conformity(ident).value(),
                more_follows: s.next != 0,
                next_object_id: s.next,
                objects: s.chosen.map_values(
                    |o: Object| IdentObject { id: o.id, value: text_of(o.bytes) },
                ),
            })
        }),
{
    let s = identification_selection(ident, code, object_id)->Ok_0;
    let adu = finished(
        under(t, request(unit, 0x2b, data)),
        Call::ReadDeviceIdentification { read_device_id_code: code, object_id },
        Reply::Identification(Ok(ident)),
    );
    lemma_selection_bounds(
        objects_from(ident, first_object(ident, object_id)),
        10,
        0,
        code == 0x04,
    );
    let more: u8 = if s.next == 0 {
        0x00
    } else {
        0xff
    };
    let header = seq![
        MEI_READ_DEVICE_ID,
        code,
        conformity(ident).value(),
        more,
        s.next,
        s.chosen.len() as u8,
    ];
    assert(adu.data == header + object_list(s.chosen));
    lemma_objects_read_back(header, s.chosen);
    lemma_two_checks(
        Check::UnitFc { unit, fc: 0x2b },
        Check::DeviceIdentification(code),
        adu,
    );
    lemma_list_bound(s.chosen);
    assert(adu.data[0] == MEI_READ_DEVICE_ID && adu.data[1] == code && adu.data[5]
        == s.chosen.len());
}

proof fn lemma_list_bound(objects: Seq<Object>)
    requires
        objects.len() <= 255,
        forall|i: int|
            0 <= i < objects.len() ==> (#[trigger] objects[i]).bytes.len() <= MAX_OBJECT_LENGTH,
    ensures
        object_list(objects).len() <= 247 * objects.len(),
    decreases objects.len(),
{
    if objects.len() > 0 {
        lemma_list_bound(objects.drop_first());
    }
}

/// Every object in an answer is one of the device's, and the master reads its text
/// as the model gave it. Basic objects that the model does not name read "null".
pub proof fn law_chosen_objects_are_the_devices(
    ident: Map<u8, String>,
    code: u8,
    object_id: u8,
    i: int,
)
    requires
        identification_selection(ident, code, object_id) is Ok,
        0 <= i < identification_selection(ident, code, object_id)->Ok_0.chosen.len(),
    ensures
        ({
            let o = identification_selection(ident, code, object_id)->Ok_0.chosen[i];
            &&& has_object(ident, o.id as int)
            &&& text_of(o.bytes) == if ident.dom().contains(o.id) {
                ident[o.id]@
            } else {
                "null"@
            }
        }),
{
    let all = objects_from(ident, first_object(ident, object_id));
    let s = identification_selection(ident, code, object_id)->Ok_0;
    lemma_selection_is_chosen(all, 10, 0, code == 0x04);
    let k = choose|k: int| 0 <= k < all.len() && #[trigger] all[k] == s.chosen[i];
    lemma_objects_from(ident, first_object(ident, object_id), k);
    let o = s.chosen[i];
    if ident.dom().contains(o.id) {
        law_text_round_trip(ident[o.id]@);
    } else {
        law_text_round_trip("null"@);
    }
}

proof fn lemma_selection_is_chosen(objects: Seq<Object>, total: int, next: u8, specific: bool)
    ensures
        selection(objects, total, next, specific) matches Some(s) ==> forall|i: int|
            0 <= i < s.chosen.len() ==> exists|k: int|
                0 <= k < objects.len() && #[trigger] objects[k] == #[trigger] s.chosen[i],
    decreases objects.len(),
{
    if objects.len() > 0 {
        let o = objects[0];
        let rest = objects.drop_first();
        let len = o.bytes.len();
        let skipped = if next == 0 {
            o.id
        } else {
            next
        };
        lemma_selection_is_chosen(rest, total, skipped, specific);
        lemma_selection_is_chosen(rest, total + 2 + len, next, specific);
        if let Some(s) = selection(objects, total, next, specific) {
            assert forall|i: int| 0 <= i < s.chosen.len() implies exists|k: int|
                0 <= k < objects.len() && #[trigger] objects[k] == #[trigger] s.chosen[i] by {
                if total + 2 + len > MAX_ANSWER_LENGTH {
                    let k = choose|k: int|
                        0 <= k < rest.len() && #[trigger] rest[k] == s.chosen[i];
                    assert(objects[k + 1] == s.chosen[i]);
                } else if specific || i == 0 {
                    assert(objects[0] == s.chosen[i]);
                } else {
                    let inner = selection(rest, total + 2 + len, next, specific)->Some_0;
                    assert(inner.chosen[i - 1] == s.chosen[i]);
                    let k = choose|k: int|
                        0 <= k < rest.len() && #[trigger] rest[k] == inner.chosen[i - 1];
                    assert(objects[k + 1] == s.chosen[i]);
                }
            }
        }
    }
}

proof fn lemma_objects_from(ident: Map<u8, String>, from: int, k: int)
    requires
        0 <= from <= 256,
        0 <= k < objects_from(ident, from).len(),
    ensures
        ({
            let o = objects_from(ident, from)[k];
            &&& from <= o.id
            &&& has_object(ident, o.id as int)
            &&& o.bytes == object_bytes(ident, o.id as int)
        }),
    decreases 256 - from,
{
    if from < 256 {
        if has_object(ident, from) {
            if k > 0 {
                assert(objects_from(ident, from)[k] == objects_from(ident, from + 1)[k - 1]);
                lemma_objects_from(ident, from + 1, k - 1);
            }
        } else {
            lemma_objects_from(ident, from + 1, k);
        }
    }
}

// ----- RTU -----
/// The leading bytes of a request that a slave carries out tell the length of its
/// RTU frame.
pub proof fn law_rtu_requests_are_predicted(adu: Adu, ranges: Ranges)
    requires
        planned(adu, ranges) is Call || planned(adu, ranges) is WriteThenRead,
    ensures
        prediction(rtu_frame(adu), false) == PredictResult::Length((adu.data.len() + 4) as usize),
{
    let frame = rtu_frame(adu);
    assert(frame.len() == adu.data.len() + 4);
    assert(frame[1] == adu.fc);
    assert(frame.subrange(2, 2 + adu.data.len() as int) =~= adu.data);
    if adu.fc == 0x0f || adu.fc == 0x10 {
        assert(frame[6] == adu.data[4]);
    } else if adu.fc == 0x17 {
        assert(frame[10] == adu.data[8]);
    }
}

/// The values that a model gives to `call` are as many as were asked for.
pub open spec fn reply_complete(call: Call, reply: Reply) -> bool {
    match call {
        Call::ReadCoils { address, length } => reply matches Reply::Bits(Ok(v)) ==> v.len()
            == length,
        Call::ReadDiscreteInputs { address, length } => reply matches Reply::Bits(Ok(v)) ==> v.len()
            == length,
        Call::ReadHoldingRegisters { address, length } => reply matches Reply::Registers(Ok(v))
            ==> v.len() == length,
        Call::ReadInputRegisters { address, length } => reply matches Reply::Registers(Ok(v))
            ==> v.len() == length,
        _ => true,
    }
}

/// What is answered to a request with this plan is what the model says to `call`.
pub open spec fn decides_answer(plan: Planned, call: Call) -> bool {
    match plan {
        Planned::Call(c) => c == call,
        Planned::WriteThenRead { write_address, values, read_address, read_length } => call
            == Call::ReadHoldingRegisters { address: read_address, length: read_length },
        _ => false,
    }
}

/// The function code and the limits that go with a call.
spec fn call_fits(adu: Adu, call: Call) -> bool {
    match call {
        Call::ReadCoils { address, length } => adu.fc == 0x01 && length <= READ_COILS_MAX,
        Call::ReadDiscreteInputs { address, length } => adu.fc == 0x02 && length <= READ_COILS_MAX,
        Call::ReadHoldingRegisters { address, length } => (adu.fc == 0x03 || adu.fc == 0x17)
            && length <= READ_REGISTERS_MAX,
        Call::ReadInputRegisters { address, length } => adu.fc == 0x04 && length
            <= READ_REGISTERS_MAX,
        Call::WriteSingleCoil { address, value } => adu.fc == 0x05 && adu.data.len() == 4,
        Call::WriteSingleRegister { address, value } => adu.fc == 0x06 && adu.data.len() == 4,
        Call::WriteMultipleCoils { address, values } => adu.fc == 0x0f,
        Call::WriteMultipleRegisters { address, values } => adu.fc == 0x10,
        Call::ReportServerId => adu.fc == 0x11,
        Call::MaskWriteRegister { address, and_mask, or_mask } => adu.fc == 0x16 && adu.data.len()
            == 6,
        Call::ReadDeviceIdentification { read_device_id_code, object_id } => adu.fc == 0x2b,
    }
}

proof fn lemma_call_fits(adu: Adu, ranges: Ranges, call: Call)
    requires
        decides_answer(planned(adu, ranges), call),
    ensures
        call_fits(adu, call),
{
}

proof fn lemma_predicted(r: Adu)
    requires
        ({
            ||| r.fc >= 0x80 && r.data.len() == 1
            ||| (r.fc == 0x05 || r.fc == 0x06 || r.fc == 0x0f || r.fc == 0x10) && r.data.len() == 4
            ||| r.fc == 0x16 && r.data.len() == 6
            ||| (0x01 <= r.fc <= 0x04 || r.fc == 0x11 || r.fc == 0x17) && r.data.len() > 0
                && r.data.len() == 1 + r.data[0]
        }),
    ensures
        prediction(rtu_frame(r), true) == PredictResult::Length((r.data.len() + 4) as usize),
{
    let frame = rtu_frame(r);
    assert(frame.len() == r.data.len() + 4);
    assert(frame[1] == r.fc);
    if r.data.len() > 0 {
        assert(frame[2] == r.data[0]);
    }
}

/// The leading bytes of an answer tell the length of its RTU frame, except for the
/// answer to Read Device Identification.
pub proof fn law_rtu_answers_are_predicted(adu: Adu, ranges: Ranges, call: Call, reply: Reply)
    requires
        decides_answer(planned(adu, ranges), call),
        reply_fits(call, reply),
        reply_complete(call, reply),
        !(call is ReadDeviceIdentification),
    ensures
        ({
            let r = finished(adu, call, reply);
            prediction(rtu_frame(r), true) == PredictResult::Length((r.data.len() + 4) as usize)
        }),
{
    lemma_call_fits(adu, ranges, call);
    lemma_answer_predicted(adu, call, reply);
}

proof fn lemma_answer_predicted(adu: Adu, call: Call, reply: Reply)
    requires
        call_fits(adu, call),
        reply_fits(call, reply),
        reply_complete(call, reply),
        !(call is ReadDeviceIdentification),
    ensures
        ({
            let r = finished(adu, call, reply);
            prediction(rtu_frame(r), true) == PredictResult::Length((r.data.len() + 4) as usize)
        }),
{
    match call {
        Call::ReadCoils { address, length } => lemma_bits_predicted(adu, length, reply->Bits_0),
        Call::ReadDiscreteInputs { address, length } => lemma_bits_predicted(
            adu,
            length,
            reply->Bits_0,
        ),
        Call::ReadHoldingRegisters { address, length } => lemma_registers_predicted(
            adu,
            length,
            reply->Registers_0,
        ),
        Call::ReadInputRegisters { address, length } => lemma_registers_predicted(
            adu,
            length,
            reply->Registers_0,
        ),
        Call::WriteMultipleCoils { address, values } => lemma_done_predicted(
            adu,
            two_words(address, values.len() as u16),
            reply->Done_0,
        ),
        Call::WriteMultipleRegisters { address, values } => lemma_done_predicted(
            adu,
            two_words(address, values.len() as u16),
            reply->Done_0,
        ),
        Call::ReportServerId => lemma_predicted(finished(adu, call, reply)),
        _ => lemma_done_predicted(adu, adu.data, reply->Done_0),
    }
}

proof fn lemma_bits_predicted(adu: Adu, length: u16, reply: Result<Seq<bool>, ModbusError>)
    requires
        adu.fc == 0x01 || adu.fc == 0x02,
        length <= READ_COILS_MAX,
        reply matches Ok(v) ==> v.len() == length,
    ensures
        ({
            let r = bits_answer(adu, length, reply);
            prediction(rtu_frame(r), true) == PredictResult::Length((r.data.len() + 4) as usize)
        }),
{
    lemma_predicted(bits_answer(adu, length, reply));
}

proof fn lemma_registers_predicted(adu: Adu, length: u16, reply: Result<Seq<u16>, ModbusError>)
    requires
        adu.fc == 0x03 || adu.fc == 0x04 || adu.fc == 0x17,
        length <= READ_REGISTERS_MAX,
        reply matches Ok(v) ==> v.len() == length,
    ensures
        ({
            let r = registers_answer(adu, length, reply);
            prediction(rtu_frame(r), true) == PredictResult::Length((r.data.len() + 4) as usize)
        }),
{
    lemma_predicted(registers_answer(adu, length, reply));
}

proof fn lemma_done_predicted(adu: Adu, data: Seq<u8>, reply: Result<(), ModbusError>)
    requires
        (adu.fc == 0x05 || adu.fc == 0x06 || adu.fc == 0x0f || adu.fc == 0x10) && data.len() == 4
            || adu.fc == 0x16 && data.len() == 6,
    ensures
        ({
            let r = done_answer(adu, data, reply);
            prediction(rtu_frame(r), true) == PredictResult::Length((r.data.len() + 4) as usize)
        }),
{
    lemma_predicted(done_answer(adu, data, reply));
}

/// The leading bytes of an exception tell the length of its RTU frame.
pub proof fn law_rtu_exceptions_are_predicted(adu: Adu, err: ModbusError)
    ensures
        prediction(rtu_frame(exception(adu, err)), true) == PredictResult::Length(5),
{
    let frame = rtu_frame(exception(adu, err));
    assert(frame[1] == exception_fc(adu.fc));
}

} // verus!
