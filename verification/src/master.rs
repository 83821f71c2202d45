//! The master: it makes requests, keeps track of those under way and reads
//! their responses.
//!
//! A request runs through these steps. Its method (such as
//! [`ModbusMaster::read_coils`]) gives the data unit to send and the checks for
//! the answer. [`ModbusMaster::enter`] and [`ModbusMaster::dispatch`] let it
//! pass or refuse it; the data unit is then written to the line.
//! [`ModbusMaster::write_failed`] or [`ModbusMaster::written`] tells how that
//! went, and [`ModbusMaster::wait_over`] how the waiting ended. The function
//! that belongs to the request's method (such as
//! [`ModbusMaster::read_coils_result`]) reads the answer.
use vstd::prelude::*;

use crate::error::ModbusError;
use crate::layers::application::{concurrency_fits, ApplicationProtocol, Framing};
use crate::master_session::{
    checks_of, objects_end, rejects_all, Check, MasterSession, PreCheck, Rejection, WaiterKey,
    WaitingState,
};
use crate::types::{
    Adu, ApplicationDataUnit, DeviceIdentification, DeviceObject, IdentObject, Identity, ServerId,
    ServerIdentity,
};
use crate::utils::{
    append_packed_coils, append_packed_registers, be_bytes, coil_bytes, copy_range, copy_values,
    packed_coils, packed_registers, parse_coils, parse_registers, push_word, text_of,
    text_of_bytes, unpacked_coils, unpacked_registers,
};
use crate::vars::{COIL_OFF, COIL_ON, MEI_READ_DEVICE_ID};

verus! {

/// Settings of a [`ModbusMaster`].
#[derive(Clone, Copy, Debug)]
pub struct ModbusMasterOptions {
    /// How long a request waits for its response, in milliseconds, unless it
    /// says otherwise.
    pub timeout_ms: u64,
    /// Let several requests be under way at once. Needs Modbus TCP.
    pub concurrent: bool,
}

impl Default for ModbusMasterOptions {
    fn default() -> (r: Self)
        ensures
            r.timeout_ms == 1000,
            !r.concurrent,
    {
        ModbusMasterOptions { timeout_ms: 1000, concurrent: false }
    }
}

// ----- what goes over the line -----
/// A request to `unit`.
pub open spec fn request(unit: u8, fc: u8, data: Seq<u8>) -> Adu {
    Adu { transaction: None, unit, fc, data }
}

/// Two words, high bytes first.
pub open spec fn two_words(a: u16, b: u16) -> Seq<u8> {
    be_bytes(a) + be_bytes(b)
}

/// The value that switches a coil.
pub open spec fn coil_word(value: bool) -> u16 {
    if value {
        COIL_ON
    } else {
        COIL_OFF
    }
}

/// Data of a request that writes several coils.
pub open spec fn write_coils_data(address: u16, values: Seq<bool>) -> Seq<u8> {
    two_words(address, values.len() as u16) + seq![coil_bytes(values.len()) as u8] + packed_coils(
        values,
    )
}

/// Data of a request that writes several registers.
pub open spec fn write_registers_data(address: u16, values: Seq<u16>) -> Seq<u8> {
    two_words(address, values.len() as u16) + seq![(2 * values.len()) as u8] + packed_registers(
        values,
    )
}

/// Data of a request that writes several registers and then reads several.
pub open spec fn read_write_data(
    read_address: u16,
    read_length: u16,
    write_address: u16,
    values: Seq<u16>,
) -> Seq<u8> {
    two_words(read_address, read_length) + write_registers_data(write_address, values)
}

/// Data of a request that changes some bits of a register.
pub open spec fn mask_write_data(address: u16, and_mask: u16, or_mask: u16) -> Seq<u8> {
    two_words(address, and_mask) + be_bytes(or_mask)
}

/// Checks for an answer that carries `byte_count` bytes of values.
pub open spec fn counted_checks(unit: u8, fc: u8, byte_count: nat) -> Seq<Check> {
    seq![
        Check::UnitFc { unit, fc },
        Check::Length((1 + byte_count) as usize),
        Check::ByteCount(byte_count as usize),
    ]
}

/// Checks for an answer that repeats `data`.
pub open spec fn echo_checks(unit: u8, fc: u8, data: Seq<u8>) -> Seq<Check> {
    seq![Check::UnitFc { unit, fc }, Check::Length(data.len() as usize), Check::Echo(data)]
}

/// The server id in the data of an answer: a byte count, `id_length` bytes of
/// id, the run indicator and whatever else the device tells.
pub open spec fn server_identity(data: Seq<u8>, id_length: nat) -> ServerIdentity {
    ServerIdentity {
        server_id: data.subrange(1, 1 + id_length as int),
        run_indicator_status: data[1 + id_length as int] == 0xff,
        additional_data: data.skip(2 + id_length as int),
    }
}

/// The identification objects of which `n` start at `at`.
pub open spec fn ident_objects(data: Seq<u8>, at: int, n: nat) -> Seq<IdentObject>
    decreases n,
{
    if n == 0 {
        Seq::empty()
    } else {
        let len = data[at + 1] as int;
        seq![
            IdentObject { id: data[at], value: text_of(data.subrange(at + 2, at + 2 + len)) },
        ] + ident_objects(data, at + 2 + len, (n - 1) as nat)
    }
}

/// The device identification in the data of an answer.
pub open spec fn identity(data: Seq<u8>) -> Identity {
    Identity {
        read_device_id_code: data[1],
        conformity_level: data[2],
        more_follows: data[3] == 0xff,
        next_object_id: data[4],
        objects: ident_objects(data, 6, data[5] as nat),
    }
}

/// A request: what is sent, what is expected of the answer, and how long to
/// wait for it.
#[derive(Debug)]
pub struct MasterRequest {
    pub adu: ApplicationDataUnit,
    pub checks: Vec<PreCheck>,
    pub timeout_ms: u64,
}

impl MasterRequest {
    /// This request sends `adu`, checks the answer by `checks` and waits for
    /// `timeout` or else `default_timeout` milliseconds.
    pub open spec fn asks(
        &self,
        adu: Adu,
        checks: Seq<Check>,
        timeout: Option<u64>,
        default_timeout: u64,
    ) -> bool {
        &&& self.adu@ == adu
        &&& checks_of(self.checks@) == checks
        &&& self.timeout_ms == match timeout {
            Some(t) => t,
            None => default_timeout,
        }
    }
}

// ----- transaction ids -----
/// The transaction id that follows `tid`: they run from 1 to 65535 and start
/// over.
pub open spec fn tid_after(tid: u16) -> u16 {
    if tid == 65535 {
        1
    } else {
        (tid + 1) as u16
    }
}

/// The transaction id that follows `tid` after `n` requests.
pub open spec fn nth_tid(tid: u16, n: nat) -> u16
    decreases n,
{
    if n == 0 {
        tid
    } else {
        tid_after(nth_tid(tid, (n - 1) as nat))
    }
}

proof fn lemma_nth_tid(tid: u16, n: nat)
    requires
        tid > 0,
    ensures
        nth_tid(tid, n) == 1 + (tid - 1 + n) % 65535,
    decreases n,
{
    if n > 0 {
        lemma_nth_tid(tid, (n - 1) as nat);
        let m = tid - 1 + n - 1;
        assert((m + 1) % 65535 == if m % 65535 == 65534 {
            0
        } else {
            m % 65535 + 1
        });
    }
}

/// A transaction id is never zero, and it comes back only after 65535 requests.
/// Counted from an opening, whose first id is 1, the request after `i` others has
/// the id `1 + i % 65535`.
pub proof fn law_tids_cycle(tid: u16, i: nat, j: nat)
    requires
        tid > 0,
    ensures
        nth_tid(tid, i) == 1 + (tid - 1 + i) % 65535,
        nth_tid(tid, i) > 0,
        i < j < i + 65535 ==> nth_tid(tid, i) != nth_tid(tid, j),
        nth_tid(tid, i + 65535) == nth_tid(tid, i),
{
    lemma_nth_tid(tid, i);
    lemma_nth_tid(tid, j);
    lemma_nth_tid(tid, i + 65535);
    let a = tid - 1 + i;
    let b = tid - 1 + j;
    assert((a + 65535) % 65535 == a % 65535);
    if i < j < i + 65535 && a % 65535 == b % 65535 {
        vstd::arithmetic::div_mod::lemma_fundamental_div_mod(a, 65535);
        vstd::arithmetic::div_mod::lemma_fundamental_div_mod(b, 65535);
        assert(b - a == 65535 * (b / 65535 - a / 65535)) by (nonlinear_arith)
            requires
                a == 65535 * (a / 65535) + a % 65535,
                b == 65535 * (b / 65535) + b % 65535,
                a % 65535 == b % 65535,
        ;
        assert(false);
    }
}

// ----- the master -----
/// How far a master has been shut down.
#[derive(Clone, Copy, Debug, PartialEq, Eq, Structural)]
pub enum CleanLevel {
    /// Not at all.
    Active,
    /// Closed; it can be opened again.
    Closed,
    /// Destroyed for good.
    Destroyed,
}

/// The state of a master.
pub struct MasterState<S> {
    pub timeout_ms: u64,
    pub concurrent: bool,
    pub protocol: ApplicationProtocol,
    /// The transaction id of the next request.
    pub next_tid: u16,
    pub closed: bool,
    pub clean_level: CleanLevel,
    /// The requests that wait for their responses.
    pub waiters: Map<WaiterKey, WaitingState<S>>,
}

/// A Modbus master. `S` is what responses are delivered to.
pub struct ModbusMaster<S> {
    timeout_ms: u64,
    concurrent: bool,
    protocol: ApplicationProtocol,
    next_tid: u16,
    closed: bool,
    clean_level: CleanLevel,
    session: MasterSession<S>,
}

/// What to do for a request that was let through.
pub struct Dispatch<S> {
    /// The data unit to encode and write.
    pub adu: ApplicationDataUnit,
    /// What its response waits under.
    pub key: WaiterKey,
    /// Drop what the application layer has buffered before writing.
    pub flush: bool,
    /// A waiter that had to make room; it gets no response any more.
    pub replaced: Option<S>,
}

/// How the waiting for a response ended.
pub enum WaitOutcome<R> {
    /// The session answered.
    Answered(Result<Framing<R>, ModbusError>),
    /// The waiter was dropped without an answer.
    Dropped,
    /// The time ran out.
    Elapsed,
}

/// What to do for a shutdown.
pub struct Shutdown<S> {
    /// Waiters to tell.
    pub rejections: Vec<Rejection<S>>,
    /// Go on to shut down the layers below.
    pub proceed: bool,
}

/// `err` says that the state is wrong, in the words `text`.
pub open spec fn invalid_state(err: ModbusError, text: Seq<char>) -> bool {
    err matches ModbusError::InvalidState(t) && t@ == text
}

/// Shutting down a master in state `before` to `level` leaves it in state
/// `after`. A shutdown that has happened is not repeated, and a destroyed
/// master stays destroyed.
pub open spec fn cleaned<S>(
    before: MasterState<S>,
    after: MasterState<S>,
    level: CleanLevel,
    rejections: Seq<Rejection<S>>,
) -> bool {
    if before.clean_level == CleanLevel::Destroyed || (before.clean_level == CleanLevel::Closed
        && level == CleanLevel::Closed) {
        after == before && rejections.len() == 0
    } else {
        &&& after == (MasterState {
            closed: true,
            clean_level: level,
            waiters: Map::empty(),
            ..before
        })
        &&& exists|err: ModbusError| #[trigger]
            rejects_all(rejections, before.waiters, err) && invalid_state(
                err,
                if level == CleanLevel::Destroyed {
                    "Master destroyed"@
                } else {
                    "Master closed"@
                },
            )
    }
}

fn invalid_state_error(text: &'static str) -> (r: ModbusError)
    ensures
        invalid_state(r, text@),
{
    ModbusError::InvalidState(text.to_owned())
}

fn request_of(
    unit: u8,
    fc: u8,
    data: Vec<u8>,
    checks: Vec<PreCheck>,
    timeout_ms: u64,
) -> (r: MasterRequest)
    ensures
        r.adu@ == request(unit, fc, data@),
        r.checks == checks,
        r.timeout_ms == timeout_ms,
{
    MasterRequest { adu: ApplicationDataUnit::new(unit, fc, data), checks, timeout_ms }
}

/// A request that reads `length` values from `address` on.
fn read_request(
    unit: u8,
    fc: u8,
    address: u16,
    length: u16,
    byte_count: usize,
    timeout_ms: u64,
) -> (r: MasterRequest)
    requires
        byte_count < usize::MAX,
    ensures
        r.asks(
            request(unit, fc, two_words(address, length)),
            counted_checks(unit, fc, byte_count as nat),
            Some(timeout_ms),
            0,
        ),
{
    let mut buf: Vec<u8> = Vec::new();
    push_word(&mut buf, address);
    push_word(&mut buf, length);
    assert(buf@ =~= two_words(address, length));
    let checks: Vec<PreCheck> = counted_pre_checks(unit, fc, byte_count);
    request_of(unit, fc, buf, checks, timeout_ms)
}

fn counted_pre_checks(unit: u8, fc: u8, byte_count: usize) -> (r: Vec<PreCheck>)
    requires
        byte_count < usize::MAX,
    ensures
        checks_of(r@) == counted_checks(unit, fc, byte_count as nat),
{
    let mut checks: Vec<PreCheck> = Vec::new();
    checks.push(PreCheck::UnitFc { unit, fc });
    checks.push(PreCheck::Length(1 + byte_count));
    checks.push(PreCheck::ByteCount(byte_count));
    assert(checks_of(checks@) =~= counted_checks(unit, fc, byte_count as nat));
    checks
}

/// Checks for an answer that repeats the first `n` bytes of `data`.
fn echo_pre_checks(unit: u8, fc: u8, data: &Vec<u8>, n: usize) -> (r: Vec<PreCheck>)
    requires
        n <= data@.len(),
    ensures
        checks_of(r@) == echo_checks(unit, fc, data@.take(n as int)),
{
    let echo: Vec<u8> = copy_range(data, 0, n);
    assert(echo@ =~= data@.take(n as int));
    let mut checks: Vec<PreCheck> = Vec::new();
    checks.push(PreCheck::UnitFc { unit, fc });
    checks.push(PreCheck::Length(n));
    checks.push(PreCheck::Echo(echo));
    assert(checks_of(checks@) =~= echo_checks(unit, fc, data@.take(n as int)));
    checks
}

/// Append what a request that writes registers carries.
fn push_registers(out: &mut Vec<u8>, address: u16, values: &[u16])
    requires
        values@.len() <= 127,
    ensures
        final(out)@ == old(out)@ + write_registers_data(address, values@),
{
    let n: u16 = values.len() as u16;
    push_word(out, address);
    push_word(out, n);
    out.push((values.len() * 2) as u8);
    append_packed_registers(out, values);
    assert(out@ =~= old(out)@ + write_registers_data(address, values@));
}

impl<S> View for ModbusMaster<S> {
    type V = MasterState<S>;

    closed spec fn view(&self) -> MasterState<S> {
        MasterState {
            timeout_ms: self.timeout_ms,
            concurrent: self.concurrent,
            protocol: self.protocol,
            next_tid: self.next_tid,
            closed: self.closed,
            clean_level: self.clean_level,
            waiters: self.session@,
        }
    }
}

impl<S> ModbusMaster<S> {
    pub closed spec fn wf(&self) -> bool {
        &&& self.session.wf()
        &&& self.next_tid > 0
        &&& concurrency_fits(self.concurrent, self.protocol)
    }

    /// The next transaction id is not zero.
    pub proof fn law_tids_are_positive(&self)
        requires
            self.wf(),
        ensures
            self@.next_tid > 0,
    {
    }

    /// A master for an application layer of the given protocol.
    pub fn new(protocol: ApplicationProtocol, options: ModbusMasterOptions) -> (r: Self)
        requires
            concurrency_fits(options.concurrent, protocol),
        ensures
            r.wf(),
            r@ == (MasterState::<S> {
                timeout_ms: options.timeout_ms,
                concurrent: options.concurrent,
                protocol,
                next_tid: 1,
                closed: false,
                clean_level: CleanLevel::Active,
                waiters: Map::empty(),
            }),
    {
        ModbusMaster {
            timeout_ms: options.timeout_ms,
            concurrent: options.concurrent,
            protocol,
            next_tid: 1,
            closed: false,
            clean_level: CleanLevel::Active,
            session: MasterSession::new(),
        }
    }

    pub fn timeout_ms(&self) -> (r: u64)
        ensures
            r == self@.timeout_ms,
    {
        self.timeout_ms
    }

    pub fn concurrent(&self) -> (r: bool)
        ensures
            r == self@.concurrent,
    {
        self.concurrent
    }

    /// Whether a request waits under `key`.
    pub fn has(&self, key: WaiterKey) -> (r: bool)
        requires
            self.wf(),
        ensures
            r == self@.waiters.dom().contains(key),
    {
        self.session.has(key)
    }

    /// The next transaction id.
    fn allocate_tid(&mut self) -> (r: u16)
        requires
            old(self).wf(),
        ensures
            final(self).wf(),
            r == old(self)@.next_tid,
            r > 0,
            final(self)@ == (MasterState { next_tid: tid_after(old(self)@.next_tid), ..old(self)@ }),
    {
        let tid: u16 = self.next_tid;
        self.next_tid = if tid == 65535 {
            1
        } else {
            tid + 1
        };
        tid
    }

    fn clean(&mut self, level: CleanLevel) -> (r: Vec<Rejection<S>>)
        requires
            old(self).wf(),
        ensures
            final(self).wf(),
            cleaned(old(self)@, final(self)@, level, r@),
    {
        if self.clean_level == CleanLevel::Destroyed || (self.clean_level == CleanLevel::Closed
            && level == CleanLevel::Closed) {
            return Vec::new();
        }
        self.closed = true;
        let err: ModbusError = if level == CleanLevel::Destroyed {
            invalid_state_error("Master destroyed")
        } else {
            invalid_state_error("Master closed")
        };
        let rejections: Vec<Rejection<S>> = self.session.stop_all(err);
        self.clean_level = level;
        assert(rejects_all(rejections@, old(self)@.waiters, err));
        rejections
    }

    /// Make the master ready for requests; the layer below is opened next.
    pub fn open(&mut self) -> (r: Result<(), ModbusError>)
        requires
            old(self).wf(),
        ensures
            final(self).wf(),
            if old(self)@.clean_level == CleanLevel::Destroyed {
                r == Err::<(), ModbusError>(ModbusError::PortDestroyed) && final(self)@ == old(self)@
            } else {
                &&& r is Ok
                &&& final(self)@ == (MasterState {
                    clean_level: CleanLevel::Active,
                    closed: false,
                    next_tid: 1,
                    ..old(self)@
                })
            },
    {
        if self.clean_level == CleanLevel::Destroyed {
            return Err(ModbusError::PortDestroyed);
        }
        self.clean_level = CleanLevel::Active;
        self.closed = false;
        self.next_tid = 1;
        Ok(())
    }

    /// Refuse new requests and reject those under way.
    pub fn close(&mut self) -> (r: Shutdown<S>)
        requires
            old(self).wf(),
        ensures
            final(self).wf(),
            cleaned(old(self)@, final(self)@, CleanLevel::Closed, r.rejections@),
            r.proceed == (old(self)@.clean_level != CleanLevel::Destroyed),
    {
        if self.clean_level == CleanLevel::Destroyed {
            return Shutdown { rejections: Vec::new(), proceed: false };
        }
        let rejections: Vec<Rejection<S>> = self.clean(CleanLevel::Closed);
        Shutdown { rejections, proceed: true }
    }

    /// Refuse all requests from now on and reject those under way.
    pub fn destroy(&mut self) -> (r: Shutdown<S>)
        requires
            old(self).wf(),
        ensures
            final(self).wf(),
            cleaned(old(self)@, final(self)@, CleanLevel::Destroyed, r.rejections@),
            r.proceed == (old(self)@.clean_level != CleanLevel::Destroyed),
    {
        if self.clean_level == CleanLevel::Destroyed {
            return Shutdown { rejections: Vec::new(), proceed: false };
        }
        let rejections: Vec<Rejection<S>> = self.clean(CleanLevel::Destroyed);
        Shutdown { rejections, proceed: true }
    }

    /// Whether a new request may go on. If so, `true` tells that it has to wait
    /// until the requests before it are done.
    pub fn enter(&self) -> (r: Result<bool, ModbusError>)
        ensures
            if self@.closed {
                r matches Err(e) && invalid_state(e, "Master closed"@)
            } else {
                r == Ok::<bool, ModbusError>(!self@.concurrent)
            },
    {
        if self.closed {
            return Err(invalid_state_error("Master closed"));
        }
        Ok(!self.concurrent)
    }

    /// It is the request's turn. On Modbus TCP it gets a transaction id, unless
    /// it is a broadcast, and waits under that id; the answer has to carry it.
    pub fn dispatch(
        &mut self,
        request: &ApplicationDataUnit,
        checks: Vec<PreCheck>,
        sender: S,
    ) -> (r: Result<Dispatch<S>, ModbusError>)
        requires
            old(self).wf(),
        ensures
            final(self).wf(),
            ({
                let before = old(self)@;
                let after = final(self)@;
                if before.closed {
                    &&& r matches Err(e) && invalid_state(e, "Master closed"@)
                    &&& after == before
                } else {
                    let uses_tid = before.protocol == ApplicationProtocol::Tcp && request.unit != 0;
                    let key = if uses_tid {
                        WaiterKey::Tid(before.next_tid)
                    } else {
                        WaiterKey::Fifo
                    };
                    &&& r matches Ok(d) && d.key == key && d.flush == !before.concurrent
                        && d.replaced == (if before.waiters.dom().contains(key) {
                        Some(before.waiters[key].sender)
                    } else {
                        None
                    }) && d.adu@ == if uses_tid {
                        Adu { transaction: Some(before.next_tid), ..request@ }
                    } else {
                        request@
                    }
                    &&& after.waiters.dom() == before.waiters.dom().insert(key)
                    &&& after.waiters[key].sender == sender
                    &&& checks_of(after.waiters[key].pre_check@) == if uses_tid {
                        seq![Check::Transaction(before.next_tid)] + checks_of(checks@)
                    } else {
                        checks_of(checks@)
                    }
                    &&& forall|k: WaiterKey| #[trigger]
                        before.waiters.dom().contains(k) && k != key ==> after.waiters[k]
                            == before.waiters[k]
                    &&& after == (MasterState {
                        next_tid: if uses_tid {
                            tid_after(before.next_tid)
                        } else {
                            before.next_tid
                        },
                        waiters: after.waiters,
                        ..before
                    })
                }
            }),
    {
        if self.closed {
            return Err(invalid_state_error("Master closed"));
        }
        let flush: bool = !self.concurrent;
        let broadcast: bool = request.unit == 0;
        let mut adu: ApplicationDataUnit = request.clone();
        let mut key: WaiterKey = WaiterKey::Fifo;
        let mut final_checks: Vec<PreCheck> = checks;
        if self.protocol == ApplicationProtocol::Tcp && !broadcast {
            let tid: u16 = self.allocate_tid();
            adu = adu.with_transaction(tid);
            key = WaiterKey::Tid(tid);
            let ghost plain = final_checks@;
            final_checks.insert(0, PreCheck::Transaction(tid));
            assert(checks_of(final_checks@) =~= seq![Check::Transaction(tid)] + checks_of(plain));
        }
        let replaced: Option<S> = self.session.start(key, final_checks, sender);
        assert(self@.waiters.dom() =~= old(self)@.waiters.dom().insert(key));
        Ok(Dispatch { adu, key, flush, replaced })
    }

    /// The request could not be written: stop waiting, and fail with the error.
    pub fn write_failed(&mut self, key: WaiterKey, err: ModbusError) -> (r: ModbusError)
        requires
            old(self).wf(),
        ensures
            final(self).wf(),
            final(self)@ == (MasterState {
                waiters: old(self)@.waiters.remove(key),
                ..old(self)@
            }),
            r == err,
    {
        self.session.stop(key);
        err
    }

    /// The request to `unit` has been written. A broadcast is never answered and
    /// so it is done: the result is `true`, and it does not wait any more.
    pub fn written(&mut self, key: WaiterKey, unit: u8) -> (r: bool)
        requires
            old(self).wf(),
        ensures
            final(self).wf(),
            r == (unit == 0),
            final(self)@ == if unit == 0 {
                MasterState { waiters: old(self)@.waiters.remove(key), ..old(self)@ }
            } else {
                old(self)@
            },
    {
        if unit == 0 {
            self.session.stop(key);
            true
        } else {
            false
        }
    }

    /// The waiting under `key` is over.
    pub fn wait_over<R>(&mut self, key: WaiterKey, outcome: WaitOutcome<R>) -> (r: Result<
        Framing<R>,
        ModbusError,
    >)
        requires
            old(self).wf(),
        ensures
            final(self).wf(),
            match outcome {
                WaitOutcome::Answered(answer) => r == answer && final(self)@ == old(self)@,
                WaitOutcome::Dropped => {
                    &&& r matches Err(e) && invalid_state(
                        e,
                        "master session was cleared while waiting"@,
                    )
                    &&& final(self)@ == old(self)@
                },
                WaitOutcome::Elapsed => {
                    &&& r == Err::<Framing<R>, ModbusError>(ModbusError::Timeout)
                    &&& final(self)@ == (MasterState {
                        waiters: old(self)@.waiters.remove(key),
                        ..old(self)@
                    })
                },
            },
    {
        match outcome {
            WaitOutcome::Answered(answer) => answer,
            WaitOutcome::Dropped => Err(
                invalid_state_error("master session was cleared while waiting"),
            ),
            WaitOutcome::Elapsed => {
                self.session.stop(key);
                Err(ModbusError::Timeout)
            },
        }
    }

    /// A frame arrived. If it is the answer that a request waits for, it says
    /// whom to deliver what.
    pub fn handle_frame<R>(&mut self, frame: Framing<R>) -> (r: Option<
        (S, Result<Framing<R>, ModbusError>),
    >)
        requires
            old(self).wf(),
        ensures
            final(self).wf(),
            ({
                let key = crate::master_session::key_of(frame.adu.transaction);
                let waiters = old(self)@.waiters;
                &&& final(self)@ == (MasterState { waiters: waiters.remove(key), ..old(self)@ })
                &&& if waiters.dom().contains(key) {
                    r == Some(
                        (
                            waiters[key].sender,
                            match crate::master_session::verdict(
                                checks_of(waiters[key].pre_check@),
                                frame.adu@,
                            ) {
                                None => Ok::<Framing<R>, ModbusError>(frame),
                                Some(e) => Err(e),
                            },
                        ),
                    )
                } else {
                    r is None
                }
            }),
    {
        self.session.handle_frame(frame)
    }

    /// Bytes arrived that make up no frame: all requests under way fail.
    pub fn handle_error(&mut self, err: ModbusError) -> (r: Vec<Rejection<S>>)
        requires
            old(self).wf(),
        ensures
            final(self).wf(),
            final(self)@ == (MasterState { waiters: Map::empty(), ..old(self)@ }),
            rejects_all(r@, old(self)@.waiters, err),
    {
        self.session.handle_error(err)
    }

    fn timeout_or(&self, timeout_ms: Option<u64>) -> (r: u64)
        ensures
            r == match timeout_ms {
                Some(t) => t,
                None => self@.timeout_ms,
            },
    {
        match timeout_ms {
            Some(t) => t,
            None => self.timeout_ms,
        }
    }

    // ----- Read Coils (1) -----
    pub fn read_coils(
        &self,
        unit: u8,
        address: u16,
        length: u16,
        timeout_ms: Option<u64>,
    ) -> (r: MasterRequest)
        requires
            length + 7 <= u16::MAX,
        ensures
            r.asks(
                request(unit, 0x01, two_words(address, length)),
                counted_checks(unit, 0x01, coil_bytes(length as nat)),
                timeout_ms,
                self@.timeout_ms,
            ),
    {
        let byte_count: usize = ((length + 7) / 8) as usize;
        read_request(unit, 0x01, address, length, byte_count, self.timeout_or(timeout_ms))
    }

    /// The coils in the answer to [`Self::read_coils`]; a broadcast has none.
    pub fn read_coils_result(answer: Option<ApplicationDataUnit>, length: u16) -> (r: Option<
        Vec<bool>,
    >)
        requires
            length + 7 <= u16::MAX,
            answer matches Some(adu) ==> adu.data@.len() == 1 + coil_bytes(length as nat),
        ensures
            match answer {
                Some(adu) => r matches Some(v) && v@ == unpacked_coils(
                    adu.data@.skip(1),
                    length as nat,
                ),
                None => r is None,
            },
    {
        match answer {
            Some(adu) => Some(parse_coils(&adu.data, length)),
            None => None,
        }
    }

    // ----- Read Discrete Inputs (2) -----
    pub fn read_discrete_inputs(
        &self,
        unit: u8,
        address: u16,
        length: u16,
        timeout_ms: Option<u64>,
    ) -> (r: MasterRequest)
        requires
            length + 7 <= u16::MAX,
        ensures
            r.asks(
                request(unit, 0x02, two_words(address, length)),
                counted_checks(unit, 0x02, coil_bytes(length as nat)),
                timeout_ms,
                self@.timeout_ms,
            ),
    {
        let byte_count: usize = ((length + 7) / 8) as usize;
        read_request(unit, 0x02, address, length, byte_count, self.timeout_or(timeout_ms))
    }

    /// The inputs in the answer to [`Self::read_discrete_inputs`]; a broadcast
    /// has none.
    pub fn read_discrete_inputs_result(
        answer: Option<ApplicationDataUnit>,
        length: u16,
    ) -> (r: Option<Vec<bool>>)
        requires
            length + 7 <= u16::MAX,
            answer matches Some(adu) ==> adu.data@.len() == 1 + coil_bytes(length as nat),
        ensures
            match answer {
                Some(adu) => r matches Some(v) && v@ == unpacked_coils(
                    adu.data@.skip(1),
                    length as nat,
                ),
                None => r is None,
            },
    {
        Self::read_coils_result(answer, length)
    }

    // ----- Read Holding Registers (3) -----
    pub fn read_holding_registers(
        &self,
        unit: u8,
        address: u16,
        length: u16,
        timeout_ms: Option<u64>,
    ) -> (r: MasterRequest)
        requires
            length * 2 <= u16::MAX,
        ensures
            r.asks(
                request(unit, 0x03, two_words(address, length)),
                counted_checks(unit, 0x03, 2 * length as nat),
                timeout_ms,
                self@.timeout_ms,
            ),
    {
        let byte_count: usize = (length * 2) as usize;
        read_request(unit, 0x03, address, length, byte_count, self.timeout_or(timeout_ms))
    }

    /// The registers in the answer to [`Self::read_holding_registers`]; a
    /// broadcast has none.
    pub fn read_holding_registers_result(
        answer: Option<ApplicationDataUnit>,
        length: u16,
    ) -> (r: Option<Vec<u16>>)
        requires
            answer matches Some(adu) ==> adu.data@.len() == 1 + 2 * length,
        ensures
            match answer {
                Some(adu) => r matches Some(v) && v@ == unpacked_registers(
                    adu.data@.skip(1),
                    length as nat,
                ),
                None => r is None,
            },
    {
        match answer {
            Some(adu) => Some(parse_registers(&adu.data, length)),
            None => None,
        }
    }

    // ----- Read Input Registers (4) -----
    pub fn read_input_registers(
        &self,
        unit: u8,
        address: u16,
        length: u16,
        timeout_ms: Option<u64>,
    ) -> (r: MasterRequest)
        requires
            length * 2 <= u16::MAX,
        ensures
            r.asks(
                request(unit, 0x04, two_words(address, length)),
                counted_checks(unit, 0x04, 2 * length as nat),
                timeout_ms,
                self@.timeout_ms,
            ),
    {
        let byte_count: usize = (length * 2) as usize;
        read_request(unit, 0x04, address, length, byte_count, self.timeout_or(timeout_ms))
    }

    /// The registers in the answer to [`Self::read_input_registers`]; a
    /// broadcast has none.
    pub fn read_input_registers_result(
        answer: Option<ApplicationDataUnit>,
        length: u16,
    ) -> (r: Option<Vec<u16>>)
        requires
            answer matches Some(adu) ==> adu.data@.len() == 1 + 2 * length,
        ensures
            match answer {
                Some(adu) => r matches Some(v) && v@ == unpacked_registers(
                    adu.data@.skip(1),
                    length as nat,
                ),
                None => r is None,
            },
    {
        Self::read_holding_registers_result(answer, length)
    }

    // ----- Write Single Coil (5) -----
    pub fn write_single_coil(
        &self,
        unit: u8,
        address: u16,
        value: bool,
        timeout_ms: Option<u64>,
    ) -> (r: MasterRequest)
        ensures
            r.asks(
                request(unit, 0x05, two_words(address, coil_word(value))),
                echo_checks(unit, 0x05, two_words(address, coil_word(value))),
                timeout_ms,
                self@.timeout_ms,
            ),
    {
        let word: u16 = if value {
            COIL_ON
        } else {
            COIL_OFF
        };
        let mut buf: Vec<u8> = Vec::new();
        push_word(&mut buf, address);
        push_word(&mut buf, word);
        assert(buf@ =~= two_words(address, word));
        assert(buf@.take(4) =~= buf@);
        let checks: Vec<PreCheck> = echo_pre_checks(unit, 0x05, &buf, 4);
        request_of(unit, 0x05, buf, checks, self.timeout_or(timeout_ms))
    }

    /// The value that was written, where the unit confirmed it.
    pub fn write_single_coil_result(answer: Option<ApplicationDataUnit>, value: bool) -> (r: Option<
        bool,
    >)
        ensures
            r == if answer is Some {
                Some(value)
            } else {
                None
            },
    {
        match answer {
            Some(_) => Some(value),
            None => None,
        }
    }

    // ----- Write Single Register (6) -----
    pub fn write_single_register(
        &self,
        unit: u8,
        address: u16,
        value: u16,
        timeout_ms: Option<u64>,
    ) -> (r: MasterRequest)
        ensures
            r.asks(
                request(unit, 0x06, two_words(address, value)),
                echo_checks(unit, 0x06, two_words(address, value)),
                timeout_ms,
                self@.timeout_ms,
            ),
    {
        let mut buf: Vec<u8> = Vec::new();
        push_word(&mut buf, address);
        push_word(&mut buf, value);
        assert(buf@ =~= two_words(address, value));
        assert(buf@.take(4) =~= buf@);
        let checks: Vec<PreCheck> = echo_pre_checks(unit, 0x06, &buf, 4);
        request_of(unit, 0x06, buf, checks, self.timeout_or(timeout_ms))
    }

    /// The value that was written, where the unit confirmed it.
    pub fn write_single_register_result(
        answer: Option<ApplicationDataUnit>,
        value: u16,
    ) -> (r: Option<u16>)
        ensures
            r == if answer is Some {
                Some(value)
            } else {
                None
            },
    {
        match answer {
            Some(_) => Some(value),
            None => None,
        }
    }

    // ----- Write Multiple Coils (15) -----
    pub fn write_multiple_coils(
        &self,
        unit: u8,
        address: u16,
        values: &[bool],
        timeout_ms: Option<u64>,
    ) -> (r: MasterRequest)
        requires
            values@.len() <= 2040,
        ensures
            r.asks(
                request(unit, 0x0f, write_coils_data(address, values@)),
                echo_checks(unit, 0x0f, two_words(address, values@.len() as u16)),
                timeout_ms,
                self@.timeout_ms,
            ),
    {
        let mut buf: Vec<u8> = Vec::new();
        push_word(&mut buf, address);
        push_word(&mut buf, values.len() as u16);
        buf.push(((values.len() + 7) / 8) as u8);
        append_packed_coils(&mut buf, values);
        assert(buf@ =~= write_coils_data(address, values@));
        assert(buf@.take(4) =~= two_words(address, values@.len() as u16));
        let checks: Vec<PreCheck> = echo_pre_checks(unit, 0x0f, &buf, 4);
        request_of(unit, 0x0f, buf, checks, self.timeout_or(timeout_ms))
    }

    /// The values that were written, where the unit confirmed it.
    pub fn write_multiple_coils_result(
        answer: Option<ApplicationDataUnit>,
        values: &[bool],
    ) -> (r: Option<Vec<bool>>)
        ensures
            answer is Some == r is Some,
            r matches Some(v) ==> v@ == values@,
    {
        match answer {
            Some(_) => Some(copy_values(values)),
            None => None,
        }
    }

    // ----- Write Multiple Registers (16) -----
    pub fn write_multiple_registers(
        &self,
        unit: u8,
        address: u16,
        values: &[u16],
        timeout_ms: Option<u64>,
    ) -> (r: MasterRequest)
        requires
            values@.len() <= 127,
        ensures
            r.asks(
                request(unit, 0x10, write_registers_data(address, values@)),
                echo_checks(unit, 0x10, two_words(address, values@.len() as u16)),
                timeout_ms,
                self@.timeout_ms,
            ),
    {
        let mut buf: Vec<u8> = Vec::new();
        push_registers(&mut buf, address, values);
        assert(buf@ =~= write_registers_data(address, values@));
        assert(buf@.take(4) =~= two_words(address, values@.len() as u16));
        let checks: Vec<PreCheck> = echo_pre_checks(unit, 0x10, &buf, 4);
        request_of(unit, 0x10, buf, checks, self.timeout_or(timeout_ms))
    }

    /// The values that were written, where the unit confirmed it.
    pub fn write_multiple_registers_result(
        answer: Option<ApplicationDataUnit>,
        values: &[u16],
    ) -> (r: Option<Vec<u16>>)
        ensures
            answer is Some == r is Some,
            r matches Some(v) ==> v@ == values@,
    {
        match answer {
            Some(_) => Some(copy_values(values)),
            None => None,
        }
    }

    // ----- Report Server ID (17) -----
    pub fn report_server_id(&self, unit: u8, timeout_ms: Option<u64>) -> (r: MasterRequest)
        ensures
            r.asks(
                request(unit, 0x11, Seq::empty()),
                seq![Check::UnitFc { unit, fc: 0x11 }, Check::Counted],
                timeout_ms,
                self@.timeout_ms,
            ),
    {
        let mut checks: Vec<PreCheck> = Vec::new();
        checks.push(PreCheck::UnitFc { unit, fc: 0x11 });
        checks.push(PreCheck::Counted);
        assert(checks_of(checks@) =~= seq![Check::UnitFc { unit, fc: 0x11 }, Check::Counted]);
        request_of(unit, 0x11, Vec::new(), checks, self.timeout_or(timeout_ms))
    }

    /// The server id in the answer to [`Self::report_server_id`], of which the
    /// caller knows that its id takes `server_id_length` bytes; a broadcast has
    /// none. The answer has to be long enough for the id and the run indicator.
    pub fn report_server_id_result(
        answer: Option<ApplicationDataUnit>,
        server_id_length: usize,
    ) -> (r: Result<Option<ServerId>, ModbusError>)
        ensures
            match answer {
                Some(adu) => if adu.data@.len() < server_id_length + 2 {
                    r == Err::<Option<ServerId>, ModbusError>(ModbusError::InvalidResponse)
                } else {
                    r matches Ok(Some(id)) && id@ == server_identity(
                        adu.data@,
                        server_id_length as nat,
                    )
                },
                None => r == Ok::<Option<ServerId>, ModbusError>(None),
            },
    {
        match answer {
            Some(adu) => {
                let len: usize = adu.data.len();
                if len < 2 || len - 2 < server_id_length {
                    return Err(ModbusError::InvalidResponse);
                }
                let status: usize = 1 + server_id_length;
                let id = ServerId {
                    server_id: copy_range(&adu.data, 1, status),
                    run_indicator_status: adu.data[status] == 0xff,
                    additional_data: copy_range(&adu.data, status + 1, len),
                };
                assert(id@.additional_data =~= server_identity(
                    adu.data@,
                    server_id_length as nat,
                ).additional_data);
                Ok(Some(id))
            },
            None => Ok(None),
        }
    }

    // ----- Mask Write Register (22) -----
    pub fn mask_write_register(
        &self,
        unit: u8,
        address: u16,
        and_mask: u16,
        or_mask: u16,
        timeout_ms: Option<u64>,
    ) -> (r: MasterRequest)
        ensures
            r.asks(
                request(unit, 0x16, mask_write_data(address, and_mask, or_mask)),
                echo_checks(unit, 0x16, mask_write_data(address, and_mask, or_mask)),
                timeout_ms,
                self@.timeout_ms,
            ),
    {
        let mut buf: Vec<u8> = Vec::new();
        push_word(&mut buf, address);
        push_word(&mut buf, and_mask);
        push_word(&mut buf, or_mask);
        assert(buf@ =~= mask_write_data(address, and_mask, or_mask));
        assert(buf@.take(6) =~= buf@);
        let checks: Vec<PreCheck> = echo_pre_checks(unit, 0x16, &buf, 6);
        request_of(unit, 0x16, buf, checks, self.timeout_or(timeout_ms))
    }

    /// The masks that were applied, where the unit confirmed it.
    pub fn mask_write_register_result(
        answer: Option<ApplicationDataUnit>,
        and_mask: u16,
        or_mask: u16,
    ) -> (r: Option<(u16, u16)>)
        ensures
            r == if answer is Some {
                Some((and_mask, or_mask))
            } else {
                None
            },
    {
        match answer {
            Some(_) => Some((and_mask, or_mask)),
            None => None,
        }
    }

    // ----- Read/Write Multiple Registers (23) -----
    pub fn read_and_write_multiple_registers(
        &self,
        unit: u8,
        read_address: u16,
        read_length: u16,
        write_address: u16,
        write_values: &[u16],
        timeout_ms: Option<u64>,
    ) -> (r: MasterRequest)
        requires
            read_length * 2 <= u16::MAX,
            write_values@.len() <= 127,
        ensures
            r.asks(
                request(
                    unit,
                    0x17,
                    read_write_data(read_address, read_length, write_address, write_values@),
                ),
                counted_checks(unit, 0x17, 2 * read_length as nat),
                timeout_ms,
                self@.timeout_ms,
            ),
    {
        let mut buf: Vec<u8> = Vec::new();
        push_word(&mut buf, read_address);
        push_word(&mut buf, read_length);
        assert(buf@ =~= two_words(read_address, read_length));
        push_registers(&mut buf, write_address, write_values);
        let byte_count: usize = (read_length * 2) as usize;
        let checks: Vec<PreCheck> = counted_pre_checks(unit, 0x17, byte_count);
        request_of(unit, 0x17, buf, checks, self.timeout_or(timeout_ms))
    }

    /// The registers in the answer to
    /// [`Self::read_and_write_multiple_registers`]; a broadcast has none.
    pub fn read_and_write_multiple_registers_result(
        answer: Option<ApplicationDataUnit>,
        read_length: u16,
    ) -> (r: Option<Vec<u16>>)
        requires
            answer matches Some(adu) ==> adu.data@.len() == 1 + 2 * read_length,
        ensures
            match answer {
                Some(adu) => r matches Some(v) && v@ == unpacked_registers(
                    adu.data@.skip(1),
                    read_length as nat,
                ),
                None => r is None,
            },
    {
        Self::read_holding_registers_result(answer, read_length)
    }

    // ----- Read Device Identification (43/14) -----
    pub fn read_device_identification(
        &self,
        unit: u8,
        read_device_id_code: u8,
        object_id: u8,
        timeout_ms: Option<u64>,
    ) -> (r: MasterRequest)
        ensures
            r.asks(
                request(
                    unit,
                    0x2b,
                    seq![MEI_READ_DEVICE_ID, read_device_id_code, object_id],
                ),
                seq![
                    Check::UnitFc { unit, fc: 0x2b },
                    Check::DeviceIdentification(read_device_id_code),
                ],
                timeout_ms,
                self@.timeout_ms,
            ),
    {
        let mut buf: Vec<u8> = Vec::new();
        buf.push(MEI_READ_DEVICE_ID);
        buf.push(read_device_id_code);
        buf.push(object_id);
        assert(buf@ =~= seq![MEI_READ_DEVICE_ID, read_device_id_code, object_id]);
        let mut checks: Vec<PreCheck> = Vec::new();
        checks.push(PreCheck::UnitFc { unit, fc: 0x2b });
        checks.push(PreCheck::DeviceIdentification(read_device_id_code));
        assert(checks_of(checks@) =~= seq![
            Check::UnitFc { unit, fc: 0x2b },
            Check::DeviceIdentification(read_device_id_code),
        ]);
        request_of(unit, 0x2b, buf, checks, self.timeout_or(timeout_ms))
    }

    /// The identification in the answer to [`Self::read_device_identification`];
    /// a broadcast has none.
    pub fn read_device_identification_result(answer: Option<ApplicationDataUnit>) -> (r: Option<
        DeviceIdentification,
    >)
        requires
            answer matches Some(adu) ==> adu.data@.len() >= 6 && objects_end(
                adu.data@,
                6,
                adu.data@[5] as nat,
            ) == Some(adu.data@.len() as int),
        ensures
            match answer {
                Some(adu) => r matches Some(d) && d@ == identity(adu.data@),
                None => r is None,
            },
    {
        let adu: ApplicationDataUnit = match answer {
            Some(adu) => adu,
            None => return None,
        };
        let data: Vec<u8> = adu.data;
        let total: usize = data.len();
        let n: usize = data[5] as usize;
        let ghost all = ident_objects(data@, 6, n as nat);
        let mut objects: Vec<DeviceObject> = Vec::new();
        let ghost mut done: Seq<IdentObject> = Seq::empty();
        let mut idx: usize = 6;
        let mut left: usize = n;
        assert(done + all =~= all);
        while left > 0
            invariant
                6 <= idx <= data@.len(),
                total == data@.len(),
                objects_end(data@, idx as int, left as nat) == Some(data@.len() as int),
                done == objects@.map_values(|o: DeviceObject| o@),
                done + ident_objects(data@, idx as int, left as nat) == all,
            decreases left,
        {
            assert(idx + 2 <= total);
            let obj_len: usize = data[idx + 1] as usize;
            assert(idx + 2 + obj_len <= total);
            let value_bytes: Vec<u8> = copy_range(&data, idx + 2, idx + 2 + obj_len);
            let value: String = text_of_bytes(&value_bytes);
            let object = DeviceObject { id: data[idx], value };
            let ghost o = object@;
            let ghost before = objects@;
            objects.push(object);
            proof {
                let rest = ident_objects(
                    data@,
                    idx + 2 + obj_len,
                    (left - 1) as nat,
                );
                assert(objects@.map_values(|o: DeviceObject| o@) =~= done.push(o));
                assert(done + (seq![o] + rest) =~= done.push(o) + rest);
                done = done.push(o);
            }
            idx = idx + 2 + obj_len;
            left = left - 1;
        }
        assert(done + Seq::<IdentObject>::empty() =~= done);
        Some(
            DeviceIdentification {
                read_device_id_code: data[1],
                conformity_level: data[2],
                more_follows: data[3] == 0xff,
                next_object_id: data[4],
                objects,
            },
        )
    }

    // ----- custom function codes -----
    /// A request with a custom function code. Of the answer only unit and
    /// function code are checked.
    pub fn send_custom_fc(
        &self,
        unit: u8,
        fc: u8,
        data: Vec<u8>,
        timeout_ms: Option<u64>,
    ) -> (r: MasterRequest)
        ensures
            r.asks(
                request(unit, fc, data@),
                seq![Check::UnitFc { unit, fc }],
                timeout_ms,
                self@.timeout_ms,
            ),
    {
        let mut checks: Vec<PreCheck> = Vec::new();
        checks.push(PreCheck::UnitFc { unit, fc });
        assert(checks_of(checks@) =~= seq![Check::UnitFc { unit, fc }]);
        request_of(unit, fc, data, checks, self.timeout_or(timeout_ms))
    }

    /// The data of the answer to [`Self::send_custom_fc`]; a broadcast has none.
    pub fn send_custom_fc_result(answer: Option<ApplicationDataUnit>) -> (r: Option<Vec<u8>>)
        ensures
            r == match answer {
                Some(adu) => Some(adu.data),
                None => None,
            },
    {
        match answer {
            Some(adu) => Some(adu.data),
            None => None,
        }
    }
}

} // verus!
