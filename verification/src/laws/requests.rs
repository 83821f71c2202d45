//! What a master sends, what it accepts as an answer, and what it reads from it.
use vstd::arithmetic::power2::pow2;
use vstd::prelude::*;

use crate::error::ModbusError;
use crate::laws::wire::law_coils_on_the_wire;
use crate::master::{
    cleaned, coil_word, counted_checks, echo_checks, ident_objects, identity, mask_write_data,
    read_write_data, request, server_identity, two_words, write_coils_data, write_registers_data,
    CleanLevel, MasterRequest, MasterState,
};
use crate::master_session::{
    checks_of, objects_end, outcome, rejection, rejects_all, verdict, Check, PreCheck,
    PreCheckOutcome, Rejection, WaiterKey, WaitingState,
};
use crate::types::Adu;
use crate::utils::text_of;

verus! {

// ----- requests -----
/// A request carries its unit, its function code and its data, and no transaction id of
/// its own.
pub proof fn law_requests(unit: u8, fc: u8, data: Seq<u8>)
    ensures
        request(unit, fc, data).transaction is None,
        request(unit, fc, data).unit == unit,
        request(unit, fc, data).fc == fc,
        request(unit, fc, data).data == data,
{
}

/// Requests to read carry the first address and the number of values; those that write
/// one value carry its address and the value, which is 0xff00 for a coil to switch on and
/// 0 for one to switch off; those that change bits carry the address and both masks. All
/// are words, high byte first.
pub proof fn law_request_words(a: u16, b: u16, c: u16, value: bool)
    ensures
        two_words(a, b).len() == 4,
        256 * two_words(a, b)[0] + two_words(a, b)[1] == a,
        256 * two_words(a, b)[2] + two_words(a, b)[3] == b,
        mask_write_data(a, b, c).len() == 6,
        256 * mask_write_data(a, b, c)[0] + mask_write_data(a, b, c)[1] == a,
        256 * mask_write_data(a, b, c)[2] + mask_write_data(a, b, c)[3] == b,
        256 * mask_write_data(a, b, c)[4] + mask_write_data(a, b, c)[5] == c,
        coil_word(true) == 0xff00,
        coil_word(false) == 0,
{
}

/// A request to write coils carries the first address, the number of coils, the number of
/// bytes, and coil `i` in bit `i % 8` of byte `i / 8`.
#[verifier::rlimit(40)]
pub proof fn law_write_coils_bytes(address: u16, values: Seq<bool>)
    requires
        values.len() <= 2040,
    ensures
        ({
            let d = write_coils_data(address, values);
            &&& d.len() == 5 + (values.len() + 7) / 8
            &&& 256 * d[0] + d[1] == address
            &&& 256 * d[2] + d[3] == values.len()
            &&& d[4] == (values.len() + 7) / 8
            &&& forall|i: int|
                #![trigger values[i]]
                0 <= i < values.len() ==> ((d[5 + i / 8] as int / pow2((i % 8) as nat) as int) % 2
                    == 1 <==> values[i])
        }),
{
    let d = write_coils_data(address, values);
    law_coils_on_the_wire(values, Seq::empty(), 0);
    assert forall|i: int|
        #![trigger values[i]]
        0 <= i < values.len() implies ((d[5 + i / 8] as int / pow2((i % 8) as nat) as int) % 2 == 1
        <==> values[i]) by {
        let packed = crate::utils::packed_coils(values);
        assert(d[5 + i / 8] == packed[i / 8]);
        assert(8 * (i / 8) + i % 8 == i);
        let k = (i % 8) as nat;
        assert(pow2(k) == pow2((i % 8) as nat));
    }
}

/// A request to write registers carries the first address, the number of registers, the
/// number of bytes and the registers.
#[verifier::rlimit(40)]
pub proof fn law_write_registers_bytes(address: u16, values: Seq<u16>)
    requires
        values.len() <= 127,
    ensures
        ({
            let d = write_registers_data(address, values);
            &&& d.len() == 5 + 2 * values.len()
            &&& 256 * d[0] + d[1] == address
            &&& 256 * d[2] + d[3] == values.len()
            &&& d[4] == 2 * values.len()
            &&& forall|i: int|
                #![trigger values[i]]
                0 <= i < values.len() ==> 256 * d[5 + 2 * i] + d[6 + 2 * i] == values[i]
        }),
{
    let d = write_registers_data(address, values);
    assert(d.len() == 5 + 2 * values.len());
    assert forall|i: int|
        #![trigger values[i]]
        0 <= i < values.len() implies 256 * d[5 + 2 * i] + d[6 + 2 * i] == values[i] by {
        lemma_register_in_request(address, values, i);
    }
}

#[verifier::rlimit(40)]
proof fn lemma_register_in_request(address: u16, values: Seq<u16>, i: int)
    requires
        0 <= i < values.len() <= 127,
    ensures
        ({
            let d = write_registers_data(address, values);
            256 * d[5 + 2 * i] + d[6 + 2 * i] == values[i]
        }),
{
    let d = write_registers_data(address, values);
    let packed = crate::utils::packed_registers(values);
    let (a, b) = (2 * i, 2 * i + 1);
    assert(a / 2 == i && b / 2 == i && a % 2 == 0 && b % 2 == 1);
    assert(packed[a] == values[i] / 256);
    assert(packed[b] == values[i] % 256);
    assert(d[5 + a] == packed[a]);
    assert(d[5 + b] == packed[b]);
}

/// A request to write and read registers says first what to read and then what to write.
#[verifier::rlimit(40)]
pub proof fn law_read_write_bytes(
    read_address: u16,
    read_length: u16,
    write_address: u16,
    values: Seq<u16>,
)
    requires
        values.len() <= 127,
    ensures
        ({
            let d = read_write_data(read_address, read_length, write_address, values);
            &&& d.len() == 9 + 2 * values.len()
            &&& 256 * d[0] + d[1] == read_address
            &&& 256 * d[2] + d[3] == read_length
            &&& 256 * d[4] + d[5] == write_address
            &&& 256 * d[6] + d[7] == values.len()
            &&& d[8] == 2 * values.len()
            &&& forall|i: int|
                #![trigger values[i]]
                0 <= i < values.len() ==> 256 * d[9 + 2 * i] + d[10 + 2 * i] == values[i]
        }),
{
    let d = read_write_data(read_address, read_length, write_address, values);
    let w = write_registers_data(write_address, values);
    law_write_registers_bytes(write_address, values);
    assert(d.skip(4) =~= w);
    assert forall|i: int| 0 <= i < w.len() implies #[trigger] w[i] == d[i + 4] by {}
    assert(d[4] == w[0] && d[5] == w[1] && d[6] == w[2] && d[7] == w[3] && d[8] == w[4]);
    assert forall|i: int|
        #![trigger values[i]]
        0 <= i < values.len() implies 256 * d[9 + 2 * i] + d[10 + 2 * i] == values[i] by {
        assert(d[9 + 2 * i] == w[5 + 2 * i]);
        assert(d[10 + 2 * i] == w[6 + 2 * i]);
    }
}

/// A request waits as long as its caller says, and else as long as the master is set to.
/// Its data unit and its checks are those of its kind.
pub proof fn law_request_parts(
    r: MasterRequest,
    adu: Adu,
    checks: Seq<Check>,
    timeout: Option<u64>,
    default_timeout: u64,
)
    requires
        r.asks(adu, checks, timeout, default_timeout),
    ensures
        r.adu.transaction == adu.transaction,
        r.adu.unit == adu.unit,
        r.adu.fc == adu.fc,
        r.adu.data@ == adu.data,
        r.checks@.len() == checks.len(),
        forall|i: int| 0 <= i < checks.len() ==> (#[trigger] r.checks@[i])@ == checks[i],
        timeout matches Some(t) ==> r.timeout_ms == t,
        timeout is None ==> r.timeout_ms == default_timeout,
{
    assert forall|i: int| 0 <= i < checks.len() implies (#[trigger] r.checks@[i])@ == checks[i] by {
        assert(checks_of(r.checks@)[i] == r.checks@[i]@);
    }
}

// ----- answers -----
/// What a check says is what it is called.
pub proof fn law_checks(adu: Adu, t: u16, u: u8, f: u8, n: usize, bytes: Seq<u8>)
    ensures
        (outcome(Check::Transaction(t), adu) is Pass) <==> adu.transaction == Some(t),
        (outcome(Check::UnitFc { unit: u, fc: f }, adu) is Pass) <==> adu.unit == u && adu.fc == f,
        (outcome(Check::ByteCount(n), adu) is Pass) <==> adu.data.len() > 0 && adu.data[0] == n,
        (outcome(Check::Echo(bytes), adu) is Pass) <==> adu.data == bytes,
        outcome(Check::Length(n), adu) == PreCheckOutcome::NeedLength(n),
        adu.data.len() > 0 ==> outcome(Check::Counted, adu) == PreCheckOutcome::NeedLength(
            (1 + adu.data[0]) as usize,
        ),
        adu.data.len() == 0 ==> outcome(Check::Counted, adu) is InsufficientData,
        rejection(PreCheckOutcome::Pass, adu.data.len()) is None,
        rejection(PreCheckOutcome::InsufficientData, adu.data.len()) == Some(
            ModbusError::InsufficientData,
        ),
        adu.data.len() < n ==> rejection(PreCheckOutcome::NeedLength(n), adu.data.len()) == Some(
            ModbusError::InsufficientData,
        ),
        adu.data.len() > n ==> rejection(PreCheckOutcome::NeedLength(n), adu.data.len()) == Some(
            ModbusError::InvalidResponse,
        ),
        adu.data.len() == n ==> rejection(PreCheckOutcome::NeedLength(n), adu.data.len()) is None,
{
}

/// The checks of a list are made in turn; the first one that rejects a frame decides, with
/// the error it was made for.
pub proof fn law_checks_in_turn(checks: Seq<Check>, adu: Adu, first: Check, err: ModbusError)
    ensures
        verdict(Seq::empty(), adu) is None,
        verdict(seq![first] + checks, adu) == match rejection(outcome(first, adu), adu.data.len()) {
            Some(e) => Some(e),
            None => verdict(checks, adu),
        },
        rejection(PreCheckOutcome::Fail(err), adu.data.len()) == Some(err),
        outcome(Check::Decided(PreCheckOutcome::Fail(err)), adu) == PreCheckOutcome::Fail(err),
        outcome(Check::Decided(PreCheckOutcome::Pass), adu) is Pass,
{
    let all = seq![first] + checks;
    assert(all.drop_first() =~= checks);
    assert(all[0] == first);
}

/// An answer with values is refused as too short only if it is the right kind of answer
/// and has too few bytes; anything else that is wrong makes it an invalid response.
pub proof fn law_answers_with_values(unit: u8, fc: u8, n: nat, adu: Adu)
    requires
        n < usize::MAX,
    ensures
        verdict(counted_checks(unit, fc, n), adu) == if adu.unit == unit && adu.fc == fc {
            if adu.data.len() < n + 1 {
                Some(ModbusError::InsufficientData)
            } else if adu.data.len() > n + 1 || adu.data[0] != n {
                Some(ModbusError::InvalidResponse)
            } else {
                None
            }
        } else {
            Some(ModbusError::InvalidResponse)
        },
{
    let checks = counted_checks(unit, fc, n);
    assert(checks.drop_first().drop_first().drop_first() =~= Seq::<Check>::empty());
    reveal_with_fuel(verdict, 4);
    assert(checks.drop_first()[0] == checks[1]);
    assert(checks.drop_first().drop_first()[0] == checks[2]);
}

/// A confirmation is refused as too short only if it is the right kind of answer and has
/// too few bytes; anything else that is wrong makes it an invalid response.
pub proof fn law_confirmations(unit: u8, fc: u8, data: Seq<u8>, adu: Adu)
    requires
        data.len() <= usize::MAX,
    ensures
        verdict(echo_checks(unit, fc, data), adu) == if adu.unit == unit && adu.fc == fc {
            if adu.data.len() < data.len() {
                Some(ModbusError::InsufficientData)
            } else if adu.data != data {
                Some(ModbusError::InvalidResponse)
            } else {
                None
            }
        } else {
            Some(ModbusError::InvalidResponse)
        },
{
    let checks = echo_checks(unit, fc, data);
    assert(checks.drop_first().drop_first().drop_first() =~= Seq::<Check>::empty());
    reveal_with_fuel(verdict, 4);
    assert(checks.drop_first()[0] == checks[1]);
    assert(checks.drop_first().drop_first()[0] == checks[2]);
}

/// An answer that reports a server id says in its first byte how many follow.
pub proof fn law_server_id_answers(unit: u8, adu: Adu)
    ensures
        verdict(seq![Check::UnitFc { unit, fc: 17 }, Check::Counted], adu) == if adu.unit == unit
            && adu.fc == 17 {
            if adu.data.len() == 0 || adu.data.len() < 1 + adu.data[0] {
                Some(ModbusError::InsufficientData)
            } else if adu.data.len() > 1 + adu.data[0] {
                Some(ModbusError::InvalidResponse)
            } else {
                None
            }
        } else {
            Some(ModbusError::InvalidResponse)
        },
{
    let checks = seq![Check::UnitFc { unit, fc: 17 }, Check::Counted];
    assert(checks.drop_first().drop_first() =~= Seq::<Check>::empty());
    reveal_with_fuel(verdict, 3);
    assert(checks.drop_first()[0] == checks[1]);
}

/// `starts` are the positions of `n` objects from `at` on, and the position behind them:
/// an object is an id, a length and as many bytes, all inside of `data`.
pub open spec fn are_objects(data: Seq<u8>, at: int, n: nat, starts: Seq<int>) -> bool {
    &&& starts.len() == n + 1
    &&& starts[0] == at
    &&& forall|i: int|
        0 <= i < n ==> 0 <= #[trigger] starts[i] && starts[i] + 2 <= data.len() && starts[i + 1]
            == starts[i] + 2 + data[starts[i] + 1] && starts[i + 1] <= data.len()
}

proof fn lemma_objects(data: Seq<u8>, at: int, n: nat, starts: Seq<int>)
    requires
        are_objects(data, at, n, starts),
    ensures
        objects_end(data, at, n) == Some(starts[n as int]),
        ident_objects(data, at, n).len() == n,
        forall|i: int|
            0 <= i < n ==> (#[trigger] ident_objects(data, at, n)[i]).id == data[starts[i]]
                && ident_objects(data, at, n)[i].value == text_of(
                data.subrange(starts[i] + 2, starts[i + 1]),
            ),
    decreases n,
{
    if n > 0 {
        let rest = starts.drop_first();
        assert forall|i: int| 0 <= i < n - 1 implies 0 <= #[trigger] rest[i] && rest[i] + 2
            <= data.len() && rest[i + 1] == rest[i] + 2 + data[rest[i] + 1] && rest[i + 1]
            <= data.len() by {
            assert(rest[i] == starts[i + 1]);
            assert(rest[i + 1] == starts[i + 2]);
        }
        assert(starts[0] == at && starts[1] == at + 2 + data[at + 1]);
        lemma_objects(data, starts[1], (n - 1) as nat, rest);
        let all = ident_objects(data, at, n);
        let tail = ident_objects(data, starts[1], (n - 1) as nat);
        assert forall|i: int| 0 <= i < n implies (#[trigger] all[i]).id == data[starts[i]]
            && all[i].value == text_of(data.subrange(starts[i] + 2, starts[i + 1])) by {
            if i > 0 {
                assert(all[i] == tail[i - 1]);
                assert(tail[i - 1].id == data[rest[i - 1]]);
                assert(rest[i - 1] == starts[i] && rest[i] == starts[i + 1]);
            }
        }
    }
}

proof fn lemma_objects_exist(data: Seq<u8>, at: int, n: nat) -> (starts: Seq<int>)
    requires
        objects_end(data, at, n) is Some,
        0 <= at <= data.len(),
    ensures
        are_objects(data, at, n, starts),
    decreases n,
{
    if n == 0 {
        seq![at]
    } else {
        let next = at + 2 + data[at + 1];
        let rest = lemma_objects_exist(data, next, (n - 1) as nat);
        let starts = seq![at] + rest;
        assert forall|i: int| 0 <= i < n implies 0 <= #[trigger] starts[i] && starts[i] + 2
            <= data.len() && starts[i + 1] == starts[i] + 2 + data[starts[i] + 1] && starts[i + 1]
            <= data.len() by {
            if i > 0 {
                assert(starts[i] == rest[i - 1]);
                assert(starts[i + 1] == rest[i]);
            } else {
                assert(starts[1] == rest[0]);
            }
        }
        starts
    }
}

/// An answer that reports identification objects is accepted exactly if it comes from the
/// right unit, answers the right request, and is made up of as many objects as it says and
/// nothing else. One that ends too early has too little data; anything else is invalid.
#[verifier::rlimit(40)]
pub proof fn law_identification_answers(unit: u8, code: u8, adu: Adu)
    requires
        adu.data.len() <= usize::MAX,
    ensures
        ({
            let d = adu.data;
            let kind = adu.unit == unit && adu.fc == 43 && d.len() >= 6 && d[0] == 14 && d[1] == code;
            let v = verdict(
                seq![Check::UnitFc { unit, fc: 43 }, Check::DeviceIdentification(code)],
                adu,
            );
            &&& v is None <==> kind && exists|starts: Seq<int>| #[trigger]
                are_objects(d, 6, d[5] as nat, starts) && starts[d[5] as int] == d.len()
            &&& !kind ==> v == Some(ModbusError::InvalidResponse)
            &&& kind && v is Some ==> v == if exists|starts: Seq<int>| #[trigger]
                are_objects(d, 6, d[5] as nat, starts) {
                Some(ModbusError::InvalidResponse)
            } else {
                Some(ModbusError::InsufficientData)
            }
        }),
{
    let d = adu.data;
    let checks = seq![Check::UnitFc { unit, fc: 43 }, Check::DeviceIdentification(code)];
    assert(checks.drop_first().drop_first() =~= Seq::<Check>::empty());
    reveal_with_fuel(verdict, 3);
    assert(checks.drop_first()[0] == checks[1]);
    if d.len() >= 6 {
        let n = d[5] as nat;
        if objects_end(d, 6, n) is Some {
            let starts = lemma_objects_exist(d, 6, n);
            lemma_objects(d, 6, n, starts);
            lemma_starts_bounded(d, 6, n, starts);
        }
        assert forall|starts: Seq<int>| #[trigger] are_objects(d, 6, n, starts) implies objects_end(
            d,
            6,
            n,
        ) == Some(starts[n as int]) by {
            lemma_objects(d, 6, n, starts);
        }
    }
}

proof fn lemma_starts_bounded(data: Seq<u8>, at: int, n: nat, starts: Seq<int>)
    requires
        are_objects(data, at, n, starts),
        0 <= at <= data.len(),
    ensures
        0 <= starts[n as int] <= data.len(),
{
    if n > 0 {
        assert(starts[n - 1] >= 0);
        assert(starts[n - 1 + 1] <= data.len());
    }
}

/// What a master reads from an accepted answer with identification objects: the code, the
/// conformity level, whether and where more follow, and of each object its id and its text.
pub proof fn law_identification_is_read(data: Seq<u8>, starts: Seq<int>)
    requires
        data.len() >= 6,
        are_objects(data, 6, data[5] as nat, starts),
    ensures
        ({
            let d = identity(data);
            &&& d.read_device_id_code == data[1]
            &&& d.conformity_level == data[2]
            &&& d.more_follows <==> data[3] == 255
            &&& d.next_object_id == data[4]
            &&& d.objects.len() == data[5]
            &&& forall|i: int|
                0 <= i < data[5] ==> (#[trigger] d.objects[i]).id == data[starts[i]]
                    && d.objects[i].value == text_of(data.subrange(starts[i] + 2, starts[i + 1]))
        }),
{
    lemma_objects(data, 6, data[5] as nat, starts);
}

/// What a master reads from an answer with a server id: the id in the bytes behind the
/// count, as many as it takes, then whether the device runs, then all the rest.
pub proof fn law_server_id_is_read(data: Seq<u8>, id_length: nat)
    requires
        data.len() >= id_length + 2,
    ensures
        ({
            let id = server_identity(data, id_length);
            &&& id.server_id.len() == id_length
            &&& forall|i: int| 0 <= i < id_length ==> #[trigger] id.server_id[i] == data[1 + i]
            &&& id.run_indicator_status <==> data[1 + id_length as int] == 255
            &&& id.additional_data.len() == data.len() - id_length - 2
            &&& forall|i: int|
                0 <= i < id.additional_data.len() ==> #[trigger] id.additional_data[i] == data[id_length
                    + 2 + i]
        }),
{
}

// ----- the end of a session -----
/// Closing or destroying a master refuses requests from then on and rejects each request
/// under way once, with an error that says which of the two it was. It is not repeated,
/// and a destroyed master is not closed.
pub proof fn law_master_shutdown<S>(
    before: MasterState<S>,
    after: MasterState<S>,
    level: CleanLevel,
    rejections: Seq<Rejection<S>>,
)
    requires
        cleaned(before, after, level, rejections),
        level != CleanLevel::Active,
    ensures
        after.timeout_ms == before.timeout_ms,
        after.concurrent == before.concurrent,
        after.protocol == before.protocol,
        after.next_tid == before.next_tid,
        before.clean_level == CleanLevel::Active || (before.clean_level == CleanLevel::Closed
            && level == CleanLevel::Destroyed) ==> {
            &&& after.closed
            &&& after.clean_level == level
            &&& forall|key: WaiterKey| !#[trigger] after.waiters.dom().contains(key)
            &&& forall|key: WaiterKey| #[trigger]
                before.waiters.dom().contains(key) ==> exists|i: int|
                    0 <= i < rejections.len() && (#[trigger] rejections[i]).key == key
            &&& forall|i: int|
                #![trigger rejections[i]]
                0 <= i < rejections.len() ==> before.waiters.dom().contains(rejections[i].key)
                    && rejections[i].sender == before.waiters[rejections[i].key].sender && (
                rejections[i].error matches ModbusError::InvalidState(text) && text@ == if level
                    == CleanLevel::Destroyed {
                    "Master destroyed"@
                } else {
                    "Master closed"@
                })
        },
        before.clean_level == CleanLevel::Destroyed || before.clean_level == level ==> after
            == before && rejections.len() == 0,
{
    if before.clean_level == CleanLevel::Active || (before.clean_level == CleanLevel::Closed
        && level == CleanLevel::Destroyed) {
        let err = choose|err: ModbusError| #[trigger]
            rejects_all(rejections, before.waiters, err) && crate::master::invalid_state(
                err,
                if level == CleanLevel::Destroyed {
                    "Master destroyed"@
                } else {
                    "Master closed"@
                },
            );
        assert(rejects_all(rejections, before.waiters, err));
    }
}

/// Rejecting all waiters reaches each of them once, with the same error.
pub proof fn law_all_waiters_are_rejected<S>(
    rejections: Seq<Rejection<S>>,
    waiters: Map<WaiterKey, WaitingState<S>>,
    err: ModbusError,
    key: WaiterKey,
)
    requires
        rejects_all(rejections, waiters, err),
        waiters.dom().contains(key),
    ensures
        exists|i: int|
            0 <= i < rejections.len() && (#[trigger] rejections[i]).key == key
                && rejections[i].sender == waiters[key].sender && rejections[i].error == err
                && forall|j: int|
                0 <= j < rejections.len() && (#[trigger] rejections[j]).key == key ==> i == j,
{
    let i = choose|i: int| 0 <= i < rejections.len() && (#[trigger] rejections[i]).key == key;
    assert(rejections[i].sender == waiters[key].sender);
}

/// What a check holds is what is checked.
pub proof fn law_check_contents(t: u16, unit: u8, fc: u8, n: usize, bytes: Vec<u8>, code: u8)
    ensures
        PreCheck::Transaction(t)@ == Check::Transaction(t),
        (PreCheck::UnitFc { unit, fc })@ == (Check::UnitFc { unit, fc }),
        PreCheck::Length(n)@ == Check::Length(n),
        PreCheck::ByteCount(n)@ == Check::ByteCount(n),
        PreCheck::Echo(bytes)@ == Check::Echo(bytes@),
        PreCheck::Counted@ == Check::Counted,
        PreCheck::DeviceIdentification(code)@ == Check::DeviceIdentification(code),
{
}

} // verus!
