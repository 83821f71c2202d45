//! The slave: it takes requests off its connections, has its models carry them
//! out and answers them.
use std::collections::{HashMap, VecDeque};
use std::sync::Arc;
use vstd::prelude::*;

use crate::error::ModbusError;
use crate::layers::application::{concurrency_fits, ApplicationProtocol};
use crate::layers::physical::ConnectionId;
use crate::master::CleanLevel;
use crate::slave::queue::{next_of, queue_step, under_way, Queue, QueueStep};
use crate::slave::steps::{
    asked_units, begun, concerns, course_after, law_each_model_has_the_request_once, Action, Heard,
    RequestRun,
};
use crate::table::Table;
use crate::types::{
    Adu, AddressRange, ApplicationDataUnit, CustomFunctionCode, FramedDataUnit, ServerId,
};

pub mod answer;
pub mod identification;
pub mod locks;
pub mod plan;
pub mod queue;
pub mod steps;

verus! {

// ----- models -----
/// A register after a masked write: where `and_mask` has a bit the register
/// keeps its own, elsewhere it takes that of `or_mask`.
pub open spec fn masked(current: u16, and_mask: u16, or_mask: u16) -> u16 {
    (current & and_mask) | (or_mask & !and_mask)
}

/// The value that a masked write gives to a register, of which `registers` was
/// read. A model that reads nothing has failed.
pub fn mask_register(registers: &Vec<u16>, and_mask: u16, or_mask: u16) -> (r: Result<
    u16,
    ModbusError,
>)
    ensures
        r == if registers@.len() == 0 {
            Err::<u16, ModbusError>(ModbusError::ServerDeviceFailure)
        } else {
            Ok(masked(registers@[0], and_mask, or_mask))
        },
{
    if registers.len() == 0 {
        return Err(ModbusError::ServerDeviceFailure);
    }
    Ok((registers[0] & and_mask) | (or_mask & !and_mask))
}

/// What a model does next of a write of several values, if it writes them one by one.
#[derive(Debug)]
pub enum WriteStep {
    /// Write the next value to this address.
    Write { address: u16 },
    /// Nothing more; this came of the whole.
    Finished(Result<(), ModbusError>),
}

/// The next step of a write of `count` values from `address` on, of which `done` have
/// been written one by one, the last one with the result `last`. The first write that
/// fails is the last one.
pub fn next_single_write(
    address: u16,
    count: usize,
    done: usize,
    last: Result<(), ModbusError>,
) -> (r: WriteStep)
    requires
        address + count <= 0x1_0000,
    ensures
        r == match last {
            Err(e) => WriteStep::Finished(Err(e)),
            Ok(_) => if done < count {
                WriteStep::Write { address: (address + done) as u16 }
            } else {
                WriteStep::Finished(Ok(()))
            },
        },
{
    match last {
        Err(e) => WriteStep::Finished(Err(e)),
        Ok(_) => {
            if done < count {
                WriteStep::Write { address: address + done as u16 }
            } else {
                WriteStep::Finished(Ok(()))
            }
        },
    }
}

/// A device behind a slave. What it does not implement is answered with the
/// exception "illegal function".
///
/// Which method is called when, and with what, is told by [`steps::RequestRun`]. The
/// methods take `&self`: a model that changes does so behind a lock or a cell of its
/// own.
pub trait ModbusSlaveModel {
    fn unit(&self) -> u8;

    fn address_range(&self) -> AddressRange;

    /// See a request before anything is done about it. `Some` answers it with
    /// the given data.
    fn intercept(&self, fc: u8, data: &[u8]) -> (r: Result<Option<Vec<u8>>, ModbusError>)
        default_ensures
            r == Ok::<Option<Vec<u8>>, ModbusError>(None),
    {
        Ok(None)
    }

    fn read_coils(&self, address: u16, length: u16) -> (r: Result<Vec<bool>, ModbusError>)
        default_ensures
            r == Err::<Vec<bool>, ModbusError>(ModbusError::IllegalFunction),
    {
        Err(ModbusError::IllegalFunction)
    }

    fn write_single_coil(&self, address: u16, value: bool) -> (r: Result<(), ModbusError>)
        default_ensures
            r == Err::<(), ModbusError>(ModbusError::IllegalFunction),
    {
        Err(ModbusError::IllegalFunction)
    }

    /// Unless a model does it in one go, the coils are written one by one, until
    /// one write fails.
    fn write_multiple_coils(&self, address: u16, values: &[bool]) -> (r: Result<(), ModbusError>)
        requires
            address + values@.len() <= 0x1_0000,
        default_ensures
            match r {
                Ok(_) => forall|i: int|
                    0 <= i < values@.len() ==> #[trigger] call_ensures(
                        Self::write_single_coil,
                        (self, (address + i) as u16, values@[i]),
                        Ok(()),
                    ),
                Err(e) => exists|k: int|
                    0 <= k < values@.len() && #[trigger] call_ensures(
                        Self::write_single_coil,
                        (self, (address + k) as u16, values@[k]),
                        Err(e),
                    ) && forall|i: int|
                        0 <= i < k ==> #[trigger] call_ensures(
                            Self::write_single_coil,
                            (self, (address + i) as u16, values@[i]),
                            Ok(()),
                        ),
            },
    {
        let mut last: Result<(), ModbusError> = Ok(());
        let mut i: usize = 0;
        loop
            invariant
                i <= values@.len(),
                address + values@.len() <= 0x1_0000,
                forall|k: int|
                    0 <= k < i && (last is Ok || k < i - 1) ==> #[trigger] call_ensures(
                        Self::write_single_coil,
                        (self, (address + k) as u16, values@[k]),
                        Ok(()),
                    ),
                last matches Err(e) ==> i > 0 && call_ensures(
                    Self::write_single_coil,
                    (self, (address + (i - 1)) as u16, values@[i - 1]),
                    Err(e),
                ),
            decreases values@.len() - i + if last is Ok {
                1int
            } else {
                0int
            },
        {
            match next_single_write(address, values.len(), i, last) {
                WriteStep::Write { address: at } => {
                    let value: bool = values[i];
                    last = self.write_single_coil(at, value);
                    assert(at == (address + i as int) as u16);
                    assert(last matches Ok(done) ==> done == ());
                    assert(call_ensures(
                        Self::write_single_coil,
                        (self, (address + i as int) as u16, values@[i as int]),
                        last,
                    ));
                    i += 1;
                },
                WriteStep::Finished(r) => {
                    return r;
                },
            }
        }
    }

    fn read_discrete_inputs(&self, address: u16, length: u16) -> (r: Result<
        Vec<bool>,
        ModbusError,
    >)
        default_ensures
            r == Err::<Vec<bool>, ModbusError>(ModbusError::IllegalFunction),
    {
        Err(ModbusError::IllegalFunction)
    }

    fn read_holding_registers(&self, address: u16, length: u16) -> (r: Result<
        Vec<u16>,
        ModbusError,
    >)
        default_ensures
            r == Err::<Vec<u16>, ModbusError>(ModbusError::IllegalFunction),
    {
        Err(ModbusError::IllegalFunction)
    }

    fn write_single_register(&self, address: u16, value: u16) -> (r: Result<(), ModbusError>)
        default_ensures
            r == Err::<(), ModbusError>(ModbusError::IllegalFunction),
    {
        Err(ModbusError::IllegalFunction)
    }

    /// Unless a model does it in one go, the registers are written one by one,
    /// until one write fails.
    fn write_multiple_registers(&self, address: u16, values: &[u16]) -> (r: Result<(), ModbusError>)
        requires
            address + values@.len() <= 0x1_0000,
        default_ensures
            match r {
                Ok(_) => forall|i: int|
                    0 <= i < values@.len() ==> #[trigger] call_ensures(
                        Self::write_single_register,
                        (self, (address + i) as u16, values@[i]),
                        Ok(()),
                    ),
                Err(e) => exists|k: int|
                    0 <= k < values@.len() && #[trigger] call_ensures(
                        Self::write_single_register,
                        (self, (address + k) as u16, values@[k]),
                        Err(e),
                    ) && forall|i: int|
                        0 <= i < k ==> #[trigger] call_ensures(
                            Self::write_single_register,
                            (self, (address + i) as u16, values@[i]),
                            Ok(()),
                        ),
            },
    {
        let mut last: Result<(), ModbusError> = Ok(());
        let mut i: usize = 0;
        loop
            invariant
                i <= values@.len(),
                address + values@.len() <= 0x1_0000,
                forall|k: int|
                    0 <= k < i && (last is Ok || k < i - 1) ==> #[trigger] call_ensures(
                        Self::write_single_register,
                        (self, (address + k) as u16, values@[k]),
                        Ok(()),
                    ),
                last matches Err(e) ==> i > 0 && call_ensures(
                    Self::write_single_register,
                    (self, (address + (i - 1)) as u16, values@[i - 1]),
                    Err(e),
                ),
            decreases values@.len() - i + if last is Ok {
                1int
            } else {
                0int
            },
        {
            match next_single_write(address, values.len(), i, last) {
                WriteStep::Write { address: at } => {
                    let value: u16 = values[i];
                    last = self.write_single_register(at, value);
                    assert(at == (address + i as int) as u16);
                    assert(last matches Ok(done) ==> done == ());
                    assert(call_ensures(
                        Self::write_single_register,
                        (self, (address + i as int) as u16, values@[i as int]),
                        last,
                    ));
                    i += 1;
                },
                WriteStep::Finished(r) => {
                    return r;
                },
            }
        }
    }

    /// Unless a model does it in one go, the register is read, changed and
    /// written back.
    fn mask_write_register(&self, address: u16, and_mask: u16, or_mask: u16) -> (r: Result<
        (),
        ModbusError,
    >)
        default_ensures
            exists|read: Result<Vec<u16>, ModbusError>| #[trigger]
                call_ensures(Self::read_holding_registers, (self, address, 1u16), read)
                    && match read {
                    Err(e) => r == Err::<(), ModbusError>(e),
                    Ok(registers) => if registers@.len() == 0 {
                        r == Err::<(), ModbusError>(ModbusError::ServerDeviceFailure)
                    } else {
                        call_ensures(
                            Self::write_single_register,
                            (self, address, masked(registers@[0], and_mask, or_mask)),
                            r,
                        )
                    },
                },
    {
        let read: Result<Vec<u16>, ModbusError> = self.read_holding_registers(address, 1);
        assert(call_ensures(Self::read_holding_registers, (self, address, 1u16), read));
        match read {
            Ok(registers) => match mask_register(&registers, and_mask, or_mask) {
                Ok(value) => self.write_single_register(address, value),
                Err(e) => Err(e),
            },
            Err(e) => Err(e),
        }
    }

    fn read_input_registers(&self, address: u16, length: u16) -> (r: Result<Vec<u16>, ModbusError>)
        default_ensures
            r == Err::<Vec<u16>, ModbusError>(ModbusError::IllegalFunction),
    {
        Err(ModbusError::IllegalFunction)
    }

    fn report_server_id(&self) -> (r: Result<ServerId, ModbusError>)
        default_ensures
            r == Err::<ServerId, ModbusError>(ModbusError::IllegalFunction),
    {
        Err(ModbusError::IllegalFunction)
    }

    fn read_device_identification(&self) -> (r: Result<HashMap<u8, String>, ModbusError>)
        default_ensures
            r == Err::<HashMap<u8, String>, ModbusError>(ModbusError::IllegalFunction),
    {
        Err(ModbusError::IllegalFunction)
    }
}

// ----- custom function codes -----
/// The custom function codes that are held behind shared pointers.
pub open spec fn codes_of<P, H>(codes: Map<u8, Arc<CustomFunctionCode<P, H>>>) -> Map<
    u8,
    CustomFunctionCode<P, H>,
> {
    codes.map_values(|code: Arc<CustomFunctionCode<P, H>>| *code)
}

/// Requests with the function code `fc` have a handler.
pub open spec fn has_handler<P, H>(customs: Map<u8, CustomFunctionCode<P, H>>, fc: u8) -> bool {
    customs.dom().contains(fc) && customs[fc].handle is Some
}

// ----- whom a request is for -----
/// The units of `units` from `from` on, in ascending order.
pub open spec fn units_from(units: Set<u8>, from: int) -> Seq<u8>
    decreases 256 - from,
{
    if from >= 256 {
        Seq::empty()
    } else if units.contains(from as u8) {
        seq![from as u8] + units_from(units, from + 1)
    } else {
        units_from(units, from + 1)
    }
}

/// The units whose models carry out a request to `unit`, where the units `units` have
/// a model. A request to unit 0 is a broadcast, which is for all of them. A request to
/// a unit without a model is left to others on the line.
pub open spec fn addressed(units: Set<u8>, unit: u8) -> Seq<u8> {
    if unit == 0 {
        units_from(units, 0)
    } else if units.contains(unit) {
        seq![unit]
    } else {
        Seq::empty()
    }
}

/// A broadcast is for every unit that has a model, once. Any other request is for its
/// own unit alone.
pub proof fn law_addressed_units(units: Set<u8>, unit: u8)
    ensures
        addressed(units, unit).no_duplicates(),
        forall|u: u8| #[trigger]
            addressed(units, unit).contains(u) <==> units.contains(u) && (unit == 0 || u == unit),
{
    let r = addressed(units, unit);
    if unit == 0 {
        lemma_units_from(units, 0);
    } else {
        if units.contains(unit) {
            assert(r[0] == unit);
        }
        assert forall|u: u8| #[trigger]
            r.contains(u) <==> units.contains(u) && (unit == 0 || u == unit) by {}
    }
}

proof fn lemma_units_from(units: Set<u8>, from: int)
    requires
        0 <= from,
    ensures
        units_from(units, from).no_duplicates(),
        forall|u: u8| #[trigger]
            units_from(units, from).contains(u) <==> units.contains(u) && u >= from,
    decreases 256 - from,
{
    if from < 256 {
        let rest = units_from(units, from + 1);
        let all = units_from(units, from);
        lemma_units_from(units, from + 1);
        if units.contains(from as u8) {
            assert(all =~= seq![from as u8] + rest);
            assert forall|u: u8| #[trigger]
                all.contains(u) <==> units.contains(u) && u >= from by {
                if rest.contains(u) {
                    let k = choose|k: int| 0 <= k < rest.len() && rest[k] == u;
                    assert(all[k + 1] == u);
                }
                if u == from {
                    assert(all[0] == u);
                }
                if all.contains(u) {
                    let k = choose|k: int| 0 <= k < all.len() && all[k] == u;
                    if k > 0 {
                        assert(rest[k - 1] == u);
                    }
                }
            }
            assert forall|a: int, b: int|
                0 <= a < all.len() && 0 <= b < all.len() && a != b implies all[a] != all[b] by {
                if a > 0 {
                    assert(rest[a - 1] == all[a]);
                    assert(rest.contains(all[a]));
                }
                if b > 0 {
                    assert(rest[b - 1] == all[b]);
                    assert(rest.contains(all[b]));
                }
            }
        }
    }
}

// ----- the slave -----
/// Only models that a request is for are asked to do anything about it: on a broadcast
/// any model, else the model of the request's unit.
pub proof fn law_only_addressed_models_are_asked(
    adu: Adu,
    has_handler: bool,
    units: Set<u8>,
    heard: Seq<Heard>,
)
    ensures
        concerns(
            course_after(begun(adu, has_handler, addressed(units, adu.unit)), heard).1,
        ) matches Some(unit) ==> units.contains(unit) && (adu.unit == 0 || unit == adu.unit),
{
    let targets = addressed(units, adu.unit);
    let start = begun(adu, has_handler, targets);
    let (course, act) = course_after(start, heard);
    let asked = asked_units(start, heard);
    law_each_model_has_the_request_once(adu, has_handler, targets, heard);
    law_addressed_units(units, adu.unit);
    if let Some(unit) = concerns(act) {
        assert((asked + course.left)[asked.len() - 1] == unit);
        assert(targets.contains(unit));
    }
}

/// Settings of a [`ModbusSlave`].
#[derive(Clone, Copy, Debug)]
pub struct ModbusSlaveOptions {
    /// Carry out several requests of one connection at once. Needs Modbus TCP.
    /// Otherwise the requests of a connection are carried out one after another.
    pub concurrent: bool,
}

impl Default for ModbusSlaveOptions {
    fn default() -> (r: Self)
        ensures
            !r.concurrent,
    {
        ModbusSlaveOptions { concurrent: false }
    }
}

/// The requests of one connection that wait. `R` is the handle by which a
/// request is answered.
pub struct QueueEntry<R> {
    items: VecDeque<(FramedDataUnit, R)>,
    processing: bool,
}

/// What to do about a request that arrived.
pub enum Arrival<R> {
    /// Nothing; the slave is not open.
    Drop,
    /// Carry it out right away, whatever else is under way.
    Process(FramedDataUnit, R),
    /// It waits in its connection's queue. If `start`, the queue has to be
    /// worked off from now on; else that is under way.
    Queued { start: bool },
}

/// The state of a slave.
pub struct SlaveState<M, P, H> {
    pub concurrent: bool,
    pub is_open: bool,
    pub clean_level: CleanLevel,
    /// The models by their units.
    pub models: Map<u8, M>,
    pub customs: Map<u8, CustomFunctionCode<P, H>>,
}

/// The same custom function codes, shared.
fn share_codes<P, H>(codes: &HashMap<u8, Arc<CustomFunctionCode<P, H>>>) -> (r: HashMap<
    u8,
    Arc<CustomFunctionCode<P, H>>,
>)
    ensures
        r@ == codes@,
{
    broadcast use vstd::std_specs::hash::group_hash_axioms;

    let mut r: HashMap<u8, Arc<CustomFunctionCode<P, H>>> = HashMap::new();
    let mut fc: u16 = 0;
    while fc < 256
        invariant
            fc <= 256,
            forall|k: u8| #[trigger]
                r@.dom().contains(k) <==> codes@.dom().contains(k) && k < fc,
            forall|k: u8| #[trigger] r@.dom().contains(k) ==> r@[k] == codes@[k],
        decreases 256 - fc,
    {
        let key: u8 = fc as u8;
        match codes.get(&key) {
            Some(code) => {
                r.insert(key, code.clone());
            },
            None => {},
        }
        fc = fc + 1;
    }
    assert(r@ =~= codes@);
    r
}

/// A Modbus slave.
pub struct ModbusSlave<M, P, H, R> {
    concurrent: bool,
    is_open: bool,
    clean_level: CleanLevel,
    models: HashMap<u8, M>,
    custom_function_codes: HashMap<u8, Arc<CustomFunctionCode<P, H>>>,
    queues: Table<ConnectionId, QueueEntry<R>>,
}

impl<M, P, H, R> View for ModbusSlave<M, P, H, R> {
    type V = SlaveState<M, P, H>;

    closed spec fn view(&self) -> SlaveState<M, P, H> {
        SlaveState {
            concurrent: self.concurrent,
            is_open: self.is_open,
            clean_level: self.clean_level,
            models: self.models@,
            customs: codes_of(self.custom_function_codes@),
        }
    }
}

/// Shutting down to `level` has nothing to do on a slave that was shut down to
/// `current`: a shutdown is not repeated, and a destroyed slave stays destroyed.
pub open spec fn shut_down_before(current: CleanLevel, level: CleanLevel) -> bool {
    current == CleanLevel::Destroyed || (current == CleanLevel::Closed && level
        == CleanLevel::Closed)
}

/// The state of a slave that was shut down to `level`. Only destroying takes the
/// models and custom function codes away.
pub open spec fn shut_down<M, P, H>(before: SlaveState<M, P, H>, level: CleanLevel) -> SlaveState<
    M,
    P,
    H,
> {
    if shut_down_before(before.clean_level, level) {
        before
    } else {
        SlaveState {
            concurrent: before.concurrent,
            is_open: false,
            clean_level: level,
            models: if level == CleanLevel::Destroyed {
                Map::empty()
            } else {
                before.models
            },
            customs: if level == CleanLevel::Destroyed {
                Map::empty()
            } else {
                before.customs
            },
        }
    }
}

impl<M, P, H, R> ModbusSlave<M, P, H, R> {
    pub closed spec fn wf(&self) -> bool {
        self.queues.wf()
    }

    /// The queue of connection `c`, if it has one.
    pub closed spec fn queue(&self, c: Seq<char>) -> Option<Queue<R>> {
        if self.queues@.dom().contains(c) {
            Some(
                Queue {
                    items: self.queues@[c].items@,
                    processing: self.queues@[c].processing,
                },
            )
        } else {
            None
        }
    }

    /// The queues of all connections but `c` are those of `other`.
    pub open spec fn same_other_queues(&self, other: &Self, c: Seq<char>) -> bool {
        forall|d: Seq<char>| d != c ==> #[trigger] self.queue(d) == other.queue(d)
    }

    /// No connection has a queue.
    pub open spec fn no_queues(&self) -> bool {
        forall|c: Seq<char>| (#[trigger] self.queue(c)) is None
    }

    /// The queues are those of `other`.
    pub open spec fn same_queues(&self, other: &Self) -> bool {
        forall|c: Seq<char>| #[trigger] self.queue(c) == other.queue(c)
    }

    /// A slave for an application layer of the given protocol.
    pub fn new(protocol: ApplicationProtocol) -> (r: Self)
        ensures
            r.wf(),
            r@ == (SlaveState::<M, P, H> {
                concurrent: false,
                is_open: false,
                clean_level: CleanLevel::Active,
                models: Map::empty(),
                customs: Map::empty(),
            }),
            r.no_queues(),
    {
        Self::with_options(protocol, ModbusSlaveOptions::default())
    }

    /// A slave for an application layer of the given protocol.
    pub fn with_options(protocol: ApplicationProtocol, options: ModbusSlaveOptions) -> (r: Self)
        requires
            concurrency_fits(options.concurrent, protocol),
        ensures
            r.wf(),
            r@ == (SlaveState::<M, P, H> {
                concurrent: options.concurrent,
                is_open: false,
                clean_level: CleanLevel::Active,
                models: Map::empty(),
                customs: Map::empty(),
            }),
            r.no_queues(),
    {
        let r: Self = ModbusSlave {
            concurrent: options.concurrent,
            is_open: false,
            clean_level: CleanLevel::Active,
            models: HashMap::new(),
            custom_function_codes: HashMap::new(),
            queues: Table::new(),
        };
        assert(r@.customs =~= Map::empty());
        r
    }

    pub fn concurrent(&self) -> (r: bool)
        ensures
            r == self@.concurrent,
    {
        self.concurrent
    }

    /// How far this slave has been shut down.
    pub fn clean_level(&self) -> (r: CleanLevel)
        ensures
            r == self@.clean_level,
    {
        self.clean_level
    }

    pub fn models(&self) -> (r: &HashMap<u8, M>)
        ensures
            r@ == self@.models,
    {
        &self.models
    }

    pub fn custom_function_codes(&self) -> (r: &HashMap<u8, Arc<CustomFunctionCode<P, H>>>)
        ensures
            codes_of(r@) == self@.customs,
    {
        &self.custom_function_codes
    }

    /// Put a model behind `unit`, in place of the one that was there.
    pub fn add(&mut self, unit: u8, model: M)
        ensures
            final(self).wf() == old(self).wf(),
            final(self)@ == (SlaveState {
                models: old(self)@.models.insert(unit, model),
                ..old(self)@
            }),
            final(self).same_queues(old(self)),
    {
        broadcast use vstd::std_specs::hash::group_hash_axioms;

        self.models.insert(unit, model);
    }

    pub fn remove(&mut self, unit: u8)
        ensures
            final(self).wf() == old(self).wf(),
            final(self)@ == (SlaveState {
                models: old(self)@.models.remove(unit),
                ..old(self)@
            }),
            final(self).same_queues(old(self)),
    {
        broadcast use vstd::std_specs::hash::group_hash_axioms;

        self.models.remove(&unit);
    }

    /// Register a custom function code; it replaces an earlier registration of
    /// the same code.
    pub fn add_custom_function_code(&mut self, cfc: CustomFunctionCode<P, H>)
        ensures
            final(self).wf() == old(self).wf(),
            final(self)@ == (SlaveState {
                customs: old(self)@.customs.insert(cfc.fc, cfc),
                ..old(self)@
            }),
            final(self).same_queues(old(self)),
    {
        broadcast use vstd::std_specs::hash::group_hash_axioms;

        let fc: u8 = cfc.fc;
        let ghost code = cfc;
        self.custom_function_codes.insert(fc, Arc::new(cfc));
        assert(codes_of(self.custom_function_codes@) =~= old(self)@.customs.insert(fc, code));
    }

    pub fn remove_custom_function_code(&mut self, fc: u8)
        ensures
            final(self).wf() == old(self).wf(),
            final(self)@ == (SlaveState { customs: old(self)@.customs.remove(fc), ..old(self)@ }),
            final(self).same_queues(old(self)),
    {
        broadcast use vstd::std_specs::hash::group_hash_axioms;

        self.custom_function_codes.remove(&fc);
        assert(codes_of(self.custom_function_codes@) =~= old(self)@.customs.remove(fc));
    }

    /// Take requests from now on; the layer below is opened next. What waited
    /// from an earlier session is dropped.
    ///
    /// The result holds the custom function codes of this session: requests are
    /// carried out with them, also when codes are added or removed later.
    pub fn open(&mut self) -> (r: HashMap<u8, Arc<CustomFunctionCode<P, H>>>)
        ensures
            final(self).wf(),
            final(self)@ == (SlaveState {
                is_open: true,
                clean_level: CleanLevel::Active,
                ..old(self)@
            }),
            final(self).no_queues(),
            codes_of(r@) == old(self)@.customs,
    {
        self.is_open = true;
        self.clean_level = CleanLevel::Active;
        self.queues.clear();
        share_codes(&self.custom_function_codes)
    }

    fn clean(&mut self, level: CleanLevel)
        requires
            old(self).wf(),
        ensures
            final(self).wf(),
            final(self)@ == shut_down(old(self)@, level),
            if shut_down_before(old(self)@.clean_level, level) {
                final(self).same_queues(old(self))
            } else {
                final(self).no_queues()
            },
    {
        if self.clean_level == CleanLevel::Destroyed {
            return;
        }
        if self.clean_level == CleanLevel::Closed && level == CleanLevel::Closed {
            return;
        }
        self.is_open = false;
        self.queues.clear();
        if level == CleanLevel::Destroyed {
            self.custom_function_codes.clear();
            self.models.clear();
            assert(codes_of(self.custom_function_codes@) =~= Map::empty());
        }
        self.clean_level = level;
    }

    /// Take no more requests and drop those that wait. The result tells whether
    /// the layer below is to be closed too.
    pub fn close(&mut self) -> (r: bool)
        requires
            old(self).wf(),
        ensures
            final(self).wf(),
            final(self)@ == shut_down(old(self)@, CleanLevel::Closed),
            if shut_down_before(old(self)@.clean_level, CleanLevel::Closed) {
                final(self).same_queues(old(self))
            } else {
                final(self).no_queues()
            },
            r == (old(self)@.clean_level != CleanLevel::Destroyed),
    {
        if self.clean_level == CleanLevel::Destroyed {
            return false;
        }
        self.clean(CleanLevel::Closed);
        true
    }

    /// Give up everything. The result tells whether the layer below is to be
    /// destroyed too.
    pub fn destroy(&mut self) -> (r: bool)
        requires
            old(self).wf(),
        ensures
            final(self).wf(),
            final(self)@ == shut_down(old(self)@, CleanLevel::Destroyed),
            if shut_down_before(old(self)@.clean_level, CleanLevel::Destroyed) {
                final(self).same_queues(old(self))
            } else {
                final(self).no_queues()
            },
            r == (old(self)@.clean_level != CleanLevel::Destroyed),
    {
        if self.clean_level == CleanLevel::Destroyed {
            return false;
        }
        self.clean(CleanLevel::Destroyed);
        true
    }

    /// A request arrived on `connection`. In concurrent mode it is carried out
    /// at once; else it is put at the end of the connection's queue.
    pub fn frame_arrived(
        &mut self,
        connection: &ConnectionId,
        frame: FramedDataUnit,
        response: R,
    ) -> (r: Arrival<R>)
        requires
            old(self).wf(),
        ensures
            final(self).wf(),
            final(self)@ == old(self)@,
            final(self).same_other_queues(old(self), connection@),
            if !old(self)@.is_open {
                r is Drop && final(self).queue(connection@) == old(self).queue(connection@)
            } else if old(self)@.concurrent {
                &&& r == Arrival::Process(frame, response)
                &&& final(self).queue(connection@) == old(self).queue(connection@)
            } else {
                let before = old(self).queue(connection@);
                &&& r == Arrival::<R>::Queued { start: !under_way(before) }
                &&& final(self).queue(connection@) == queue_step(
                    before,
                    QueueStep::Arrival(frame, response),
                )
            },
    {
        if !self.is_open {
            return Arrival::Drop;
        }
        if self.concurrent {
            return Arrival::Process(frame, response);
        }
        let mut entry: QueueEntry<R> = match self.queues.remove(connection) {
            Some(e) => e,
            None => QueueEntry { items: VecDeque::new(), processing: false },
        };
        let start: bool = !entry.processing;
        entry.items.push_back((frame, response));
        entry.processing = true;
        self.queues.insert(connection.clone(), entry);
        Arrival::Queued { start }
    }

    /// The next request to carry out for `connection`, in the order of their
    /// arrival. Without one, working off the queue is done.
    pub fn next_request(&mut self, connection: &ConnectionId) -> (r: Option<(FramedDataUnit, R)>)
        requires
            old(self).wf(),
        ensures
            final(self).wf(),
            final(self)@ == old(self)@,
            final(self).same_other_queues(old(self), connection@),
            r == next_of(old(self).queue(connection@)),
            final(self).queue(connection@) == queue_step(
                old(self).queue(connection@),
                QueueStep::Next,
            ),
    {
        match self.queues.remove(connection) {
            Some(e) => {
                let mut entry: QueueEntry<R> = e;
                let next: Option<(FramedDataUnit, R)> = entry.items.pop_front();
                match next {
                    Some(item) => {
                        let ghost left = entry.items@;
                        self.queues.insert(connection.clone(), entry);
                        assert(left =~= old(self).queue(connection@)->0.items.drop_first());
                        Some(item)
                    },
                    None => None,
                }
            },
            None => None,
        }
    }

    /// Begin to carry out the request `adu` with the models of this slave and the
    /// custom function codes of a session.
    pub fn process_frame(
        &self,
        custom_fcs: &HashMap<u8, Arc<CustomFunctionCode<P, H>>>,
        adu: ApplicationDataUnit,
    ) -> (r: (RequestRun, Action))
        ensures
            r.0.wf(),
            (r.0@, r.1@) == begun(
                adu@,
                has_handler(codes_of(custom_fcs@), adu.fc),
                addressed(self@.models.dom(), adu.unit),
            ),
    {
        broadcast use vstd::std_specs::hash::group_hash_axioms;

        let handled: bool = match custom_fcs.get(&adu.fc) {
            Some(custom) => custom.handle.is_some(),
            None => false,
        };
        let mut units: Vec<u8> = Vec::new();
        if adu.unit == 0 {
            let mut unit: u16 = 0;
            assert(units@ + units_from(self@.models.dom(), 0) =~= addressed(
                self@.models.dom(),
                adu.unit,
            ));
            while unit < 256
                invariant
                    unit <= 256,
                    adu.unit == 0,
                    units@ + units_from(self@.models.dom(), unit as int) == addressed(
                        self@.models.dom(),
                        adu.unit,
                    ),
                decreases 256 - unit,
            {
                let key: u8 = unit as u8;
                let ghost before = units@;
                let ghost rest = units_from(self@.models.dom(), unit + 1);
                if self.models.contains_key(&key) {
                    units.push(key);
                    assert(before + (seq![key] + rest) =~= units@ + rest);
                }
                unit = unit + 1;
            }
            assert(units@ + Seq::<u8>::empty() =~= units@);
        } else if self.models.contains_key(&adu.unit) {
            units.push(adu.unit);
        }
        assert(units@ =~= addressed(self@.models.dom(), adu.unit));
        RequestRun::begin(adu, handled, units)
    }

    /// The peer is gone: drop what waits for it. A request that is being carried
    /// out is not interrupted.
    pub fn connection_closed(&mut self, connection: &ConnectionId)
        requires
            old(self).wf(),
        ensures
            final(self).wf(),
            final(self)@ == old(self)@,
            final(self).same_other_queues(old(self), connection@),
            final(self).queue(connection@) == queue_step(
                old(self).queue(connection@),
                QueueStep::ConnectionClosed,
            ),
    {
        match self.queues.remove(connection) {
            Some(e) => {
                if e.processing {
                    self.queues.insert(
                        connection.clone(),
                        QueueEntry { items: VecDeque::new(), processing: true },
                    );
                }
            },
            None => {},
        }
    }

    /// The layer below was closed as a whole: drop everything that waits.
    pub fn physical_closed(&mut self)
        ensures
            final(self).wf(),
            final(self)@ == old(self)@,
            final(self).no_queues(),
    {
        self.queues.clear();
    }
}

/// A destroyed slave or one that was closed twice changes no more; destroying a
/// closed one still takes its models away.
pub proof fn law_shutdown_is_final<M, P, H>(state: SlaveState<M, P, H>, level: CleanLevel)
    requires
        level != CleanLevel::Active,
    ensures
        shut_down(shut_down(state, level), level) == shut_down(state, level),
        shut_down(shut_down(state, CleanLevel::Destroyed), level) == shut_down(
            state,
            CleanLevel::Destroyed,
        ),
        shut_down(state, CleanLevel::Destroyed).clean_level == CleanLevel::Destroyed,
{
}

} // verus!
