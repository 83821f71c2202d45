//! The requests of a master that wait for their responses.
//!
//! A request on Modbus TCP waits under its transaction id. On RTU and ASCII,
//! where there is none, all requests share one slot. A frame that arrives is
//! handed to the waiter it belongs to, if it passes that waiter's checks.
use vstd::prelude::*;

use crate::error::ModbusError;
use crate::layers::application::Framing;
use crate::table::{entry_map, Table, TableKey};
use crate::types::{Adu, ApplicationDataUnit};
use crate::utils::same_bytes;
use crate::vars::MEI_READ_DEVICE_ID;

verus! {

/// What a check says of a frame.
#[derive(Debug)]
pub enum PreCheckOutcome {
    /// The frame is fine as far as this check goes.
    Pass,
    /// The data has to be exactly this long. Shorter data is rejected as
    /// `InsufficientData`, longer data as `InvalidResponse`.
    NeedLength(usize),
    /// The frame is rejected.
    Fail(ModbusError),
    /// There is too little data to tell, which rejects the frame as
    /// `InsufficientData`.
    InsufficientData,
}

impl Clone for PreCheckOutcome {
    fn clone(&self) -> (r: Self)
        ensures
            r == *self,
    {
        match self {
            PreCheckOutcome::Pass => PreCheckOutcome::Pass,
            PreCheckOutcome::NeedLength(n) => PreCheckOutcome::NeedLength(*n),
            PreCheckOutcome::Fail(e) => PreCheckOutcome::Fail(e.clone()),
            PreCheckOutcome::InsufficientData => PreCheckOutcome::InsufficientData,
        }
    }
}

/// A check that the answer to a request has to pass.
#[derive(Debug)]
pub enum PreCheck {
    /// The frame carries this transaction id.
    Transaction(u16),
    /// The frame comes from this unit and has this function code.
    UnitFc { unit: u8, fc: u8 },
    /// The data is exactly this long.
    Length(usize),
    /// The first data byte counts this many bytes.
    ByteCount(usize),
    /// The data repeats these bytes.
    Echo(Vec<u8>),
    /// The first data byte counts the bytes that follow it.
    Counted,
    /// The data is a list of identification objects, read with this code.
    DeviceIdentification(u8),
    /// The caller has decided.
    Decided(PreCheckOutcome),
}

/// The contents of a [`PreCheck`].
pub enum Check {
    Transaction(u16),
    UnitFc { unit: u8, fc: u8 },
    Length(usize),
    ByteCount(usize),
    Echo(Seq<u8>),
    Counted,
    DeviceIdentification(u8),
    Decided(PreCheckOutcome),
}

impl View for PreCheck {
    type V = Check;

    open spec fn view(&self) -> Check {
        match *self {
            PreCheck::Transaction(t) => Check::Transaction(t),
            PreCheck::UnitFc { unit, fc } => Check::UnitFc { unit, fc },
            PreCheck::Length(n) => Check::Length(n),
            PreCheck::ByteCount(n) => Check::ByteCount(n),
            PreCheck::Echo(bytes) => Check::Echo(bytes@),
            PreCheck::Counted => Check::Counted,
            PreCheck::DeviceIdentification(code) => Check::DeviceIdentification(code),
            PreCheck::Decided(outcome) => Check::Decided(outcome),
        }
    }
}

/// The contents of a list of checks.
pub open spec fn checks_of(checks: Seq<PreCheck>) -> Seq<Check> {
    checks.map_values(|c: PreCheck| c@)
}

/// The position behind `n` identification objects that start at `at`: each is
/// an id, a length and as many bytes. `None` if the data ends before.
pub open spec fn objects_end(data: Seq<u8>, at: int, n: nat) -> Option<int>
    decreases n,
{
    if n == 0 {
        Some(at)
    } else if at < 0 || at + 2 > data.len() || at + 2 + data[at + 1] > data.len() {
        None
    } else {
        objects_end(data, at + 2 + data[at + 1], (n - 1) as nat)
    }
}

/// Pass, or reject the frame as no answer to the request.
pub open spec fn pass_if(condition: bool) -> PreCheckOutcome {
    if condition {
        PreCheckOutcome::Pass
    } else {
        PreCheckOutcome::Fail(ModbusError::InvalidResponse)
    }
}

/// What `check` says of a frame with the data unit `adu`.
pub open spec fn outcome(check: Check, adu: Adu) -> PreCheckOutcome {
    match check {
        Check::Transaction(t) => pass_if(adu.transaction == Some(t)),
        Check::UnitFc { unit, fc } => pass_if(adu.unit == unit && adu.fc == fc),
        Check::Length(n) => PreCheckOutcome::NeedLength(n),
        Check::ByteCount(n) => pass_if(adu.data.len() > 0 && adu.data[0] == n),
        Check::Echo(bytes) => pass_if(adu.data == bytes),
        Check::Counted => if adu.data.len() > 0 {
            PreCheckOutcome::NeedLength((1 + adu.data[0]) as usize)
        } else {
            PreCheckOutcome::InsufficientData
        },
        Check::DeviceIdentification(code) => if adu.data.len() < 6 || adu.data[0]
            != MEI_READ_DEVICE_ID || adu.data[1] != code {
            PreCheckOutcome::Fail(ModbusError::InvalidResponse)
        } else {
            match objects_end(adu.data, 6, adu.data[5] as nat) {
                Some(end) => PreCheckOutcome::NeedLength(end as usize),
                None => PreCheckOutcome::InsufficientData,
            }
        },
        Check::Decided(o) => o,
    }
}

/// The error for which an outcome rejects data of length `len`, if it does.
pub open spec fn rejection(o: PreCheckOutcome, len: nat) -> Option<ModbusError> {
    match o {
        PreCheckOutcome::Pass => None,
        PreCheckOutcome::NeedLength(n) => if len < n {
            Some(ModbusError::InsufficientData)
        } else if len > n {
            Some(ModbusError::InvalidResponse)
        } else {
            None
        },
        PreCheckOutcome::Fail(e) => Some(e),
        PreCheckOutcome::InsufficientData => Some(ModbusError::InsufficientData),
    }
}

/// The error for which the first check that rejects the frame does so; `None`
/// if all of them let it pass.
pub open spec fn verdict(checks: Seq<Check>, adu: Adu) -> Option<ModbusError>
    decreases checks.len(),
{
    if checks.len() == 0 {
        None
    } else {
        match rejection(outcome(checks[0], adu), adu.data.len()) {
            Some(e) => Some(e),
            None => verdict(checks.drop_first(), adu),
        }
    }
}

fn pass_when(condition: bool) -> (r: PreCheckOutcome)
    ensures
        r == pass_if(condition),
{
    if condition {
        PreCheckOutcome::Pass
    } else {
        PreCheckOutcome::Fail(ModbusError::InvalidResponse)
    }
}

/// The position behind `n` identification objects that start at `at`.
pub(crate) fn find_objects_end(data: &[u8], at: usize, n: usize) -> (r: Option<usize>)
    requires
        at <= data@.len(),
    ensures
        match objects_end(data@, at as int, n as nat) {
            Some(end) => r == Some(end as usize) && end <= data@.len(),
            None => r is None,
        },
{
    let mut idx: usize = at;
    let mut left: usize = n;
    while left > 0
        invariant
            idx <= data@.len(),
            left <= n,
            objects_end(data@, idx as int, left as nat) == objects_end(
                data@,
                at as int,
                n as nat,
            ),
        decreases left,
    {
        if data.len() - idx < 2 {
            return None;
        }
        let obj_len: usize = data[idx + 1] as usize;
        if data.len() - idx - 2 < obj_len {
            return None;
        }
        idx = idx + 2 + obj_len;
        left = left - 1;
    }
    Some(idx)
}

impl PreCheck {
    /// What this check says of a frame with the data unit `adu`.
    pub fn evaluate(&self, adu: &ApplicationDataUnit) -> (r: PreCheckOutcome)
        ensures
            r == outcome(self@, adu@),
    {
        match self {
            PreCheck::Transaction(t) => pass_when(
                match adu.transaction {
                    Some(tid) => tid == *t,
                    None => false,
                },
            ),
            PreCheck::UnitFc { unit, fc } => pass_when(adu.unit == *unit && adu.fc == *fc),
            PreCheck::Length(n) => PreCheckOutcome::NeedLength(*n),
            PreCheck::ByteCount(n) => pass_when(
                adu.data.len() > 0 && adu.data[0] as usize == *n,
            ),
            PreCheck::Echo(bytes) => pass_when(same_bytes(&adu.data, bytes)),
            PreCheck::Counted => {
                if adu.data.len() > 0 {
                    PreCheckOutcome::NeedLength(1 + adu.data[0] as usize)
                } else {
                    PreCheckOutcome::InsufficientData
                }
            },
            PreCheck::DeviceIdentification(code) => {
                if adu.data.len() < 6 || adu.data[0] != MEI_READ_DEVICE_ID || adu.data[1] != *code {
                    PreCheckOutcome::Fail(ModbusError::InvalidResponse)
                } else {
                    match find_objects_end(&adu.data, 6, adu.data[5] as usize) {
                        Some(end) => PreCheckOutcome::NeedLength(end),
                        None => PreCheckOutcome::InsufficientData,
                    }
                }
            },
            PreCheck::Decided(o) => o.clone(),
        }
    }
}

/// Result of a whole list of checks.
#[derive(Debug)]
pub enum CheckResult {
    Pass,
    Reject(ModbusError),
}

/// Run the checks in turn; the first one that rejects the frame decides.
pub fn run_pre_checks(adu: &ApplicationDataUnit, checks: &Vec<PreCheck>) -> (r: CheckResult)
    ensures
        r == match verdict(checks_of(checks@), adu@) {
            None => CheckResult::Pass,
            Some(e) => CheckResult::Reject(e),
        },
{
    let ghost all = checks_of(checks@);
    let mut i: usize = 0;
    assert(all.skip(0) =~= all);
    while i < checks.len()
        invariant
            i <= checks@.len(),
            all == checks_of(checks@),
            verdict(all.skip(i as int), adu@) == verdict(all, adu@),
        decreases checks@.len() - i,
    {
        let len: usize = adu.data.len();
        proof {
            assert(all.skip(i as int)[0] == checks@[i as int]@);
            assert(all.skip(i as int).drop_first() =~= all.skip(i + 1));
        }
        match checks[i].evaluate(adu) {
            PreCheckOutcome::Pass => {},
            PreCheckOutcome::NeedLength(n) => {
                if len < n {
                    return CheckResult::Reject(ModbusError::InsufficientData);
                }
                if len != n {
                    return CheckResult::Reject(ModbusError::InvalidResponse);
                }
            },
            PreCheckOutcome::Fail(err) => {
                return CheckResult::Reject(err);
            },
            PreCheckOutcome::InsufficientData => {
                return CheckResult::Reject(ModbusError::InsufficientData);
            },
        }
        i += 1;
    }
    CheckResult::Pass
}

/// Tells which waiter a frame is for.
#[derive(Clone, Copy, Debug, Hash, PartialEq, Eq, Structural)]
pub enum WaiterKey {
    /// The request with this transaction id.
    Tid(u16),
    /// The one request that is under way without a transaction id.
    Fifo,
}

impl TableKey for WaiterKey {
    type Id = WaiterKey;

    open spec fn id(&self) -> WaiterKey {
        *self
    }

    fn same(&self, other: &Self) -> (r: bool) {
        *self == *other
    }
}

/// The waiter that a frame with this transaction id is for.
pub open spec fn key_of(transaction: Option<u16>) -> WaiterKey {
    match transaction {
        Some(tid) => WaiterKey::Tid(tid),
        None => WaiterKey::Fifo,
    }
}

/// A request that waits. `sender` is what its response is delivered to.
pub struct WaitingState<S> {
    pub pre_check: Vec<PreCheck>,
    pub sender: S,
}

/// A waiter that has been given up, with the error to tell it.
pub struct Rejection<S> {
    pub key: WaiterKey,
    pub sender: S,
    pub error: ModbusError,
}

/// The rejections reach each of the waiters `waiters` exactly once, with the
/// error `err`.
pub open spec fn rejects_all<S>(
    rejections: Seq<Rejection<S>>,
    waiters: Map<WaiterKey, WaitingState<S>>,
    err: ModbusError,
) -> bool {
    &&& forall|i: int|
        0 <= i < rejections.len() ==> {
            let r = #[trigger] rejections[i];
            &&& waiters.dom().contains(r.key)
            &&& waiters[r.key].sender == r.sender
            &&& r.error == err
        }
    &&& forall|i: int, j: int|
        0 <= i < j < rejections.len() ==> (#[trigger] rejections[i]).key != (
        #[trigger] rejections[j]).key
    &&& forall|key: WaiterKey| #[trigger]
        waiters.dom().contains(key) ==> exists|i: int|
            0 <= i < rejections.len() && (#[trigger] rejections[i]).key == key
}

/// The requests that wait for their responses.
pub struct MasterSession<S> {
    waiters: Table<WaiterKey, WaitingState<S>>,
}

impl<S> View for MasterSession<S> {
    type V = Map<WaiterKey, WaitingState<S>>;

    closed spec fn view(&self) -> Map<WaiterKey, WaitingState<S>> {
        self.waiters@
    }
}

impl<S> MasterSession<S> {
    pub closed spec fn wf(&self) -> bool {
        self.waiters.wf()
    }

    pub fn new() -> (r: Self)
        ensures
            r.wf(),
            r@ == Map::<WaiterKey, WaitingState<S>>::empty(),
    {
        MasterSession { waiters: Table::new() }
    }

    /// Wait under `key`. A waiter that was there is replaced and handed back;
    /// its request gets no response any more.
    pub fn start(&mut self, key: WaiterKey, pre_check: Vec<PreCheck>, sender: S) -> (r: Option<S>)
        requires
            old(self).wf(),
        ensures
            final(self).wf(),
            final(self)@ == old(self)@.insert(key, WaitingState { pre_check, sender }),
            r == if old(self)@.dom().contains(key) {
                Some(old(self)@[key].sender)
            } else {
                None
            },
    {
        let replaced: Option<S> = match self.waiters.remove(&key) {
            Some(w) => Some(w.sender),
            None => None,
        };
        self.waiters.insert(key, WaitingState { pre_check, sender });
        assert(self@ =~= old(self)@.insert(key, WaitingState { pre_check, sender }));
        replaced
    }

    /// Stop waiting under `key`. The waiter is handed back and told nothing.
    pub fn stop(&mut self, key: WaiterKey) -> (r: Option<S>)
        requires
            old(self).wf(),
        ensures
            final(self).wf(),
            final(self)@ == old(self)@.remove(key),
            r == if old(self)@.dom().contains(key) {
                Some(old(self)@[key].sender)
            } else {
                None
            },
    {
        match self.waiters.remove(&key) {
            Some(w) => Some(w.sender),
            None => None,
        }
    }

    /// Reject every waiter with `err`.
    pub fn stop_all(&mut self, err: ModbusError) -> (r: Vec<Rejection<S>>)
        requires
            old(self).wf(),
        ensures
            final(self).wf(),
            final(self)@ == Map::<WaiterKey, WaitingState<S>>::empty(),
            rejects_all(r@, old(self)@, err),
    {
        let ghost waiters = self@;
        let mut drained: Vec<(WaiterKey, WaitingState<S>)> = self.waiters.drain();
        let ghost all = drained@;
        proof {
            crate::table::lemma_entry_map(all);
        }
        let mut r: Vec<Rejection<S>> = Vec::new();
        while drained.len() > 0
            invariant
                drained@ == all.take(drained@.len() as int),
                r@.len() + drained@.len() == all.len(),
                forall|i: int|
                    0 <= i < r@.len() ==> {
                        let x = #[trigger] r@[i];
                        let w = all[all.len() - 1 - i];
                        x.key == w.0 && x.sender == w.1.sender && x.error == err
                    },
            decreases drained@.len(),
        {
            let ghost before = drained@;
            match drained.pop() {
                Some((key, waiter)) => {
                    r.push(Rejection { key, sender: waiter.sender, error: err.clone() });
                    assert(drained@ =~= all.take(drained@.len() as int));
                },
                None => {},
            }
        }
        proof {
            assert forall|i: int| 0 <= i < r@.len() implies {
                let x = #[trigger] r@[i];
                &&& waiters.dom().contains(x.key)
                &&& waiters[x.key].sender == x.sender
                &&& x.error == err
            } by {
                let w = all[all.len() - 1 - i];
                assert(entry_map(all).dom().contains(w.0.id()));
            }
            assert forall|i: int, j: int| 0 <= i < j < r@.len() implies (#[trigger] r@[i]).key != (
            #[trigger] r@[j]).key by {
                let a = all[all.len() - 1 - j];
                let b = all[all.len() - 1 - i];
                assert(a.0.id() != b.0.id());
            }
            assert forall|key: WaiterKey| #[trigger] waiters.dom().contains(key) implies exists|
                i: int,
            |
                0 <= i < r@.len() && (#[trigger] r@[i]).key == key by {
                let k = choose|k: int| 0 <= k < all.len() && (#[trigger] all[k]).0.id() == key;
                assert(r@[all.len() - 1 - k].key == key);
            }
        }
        r
    }

    /// Whether a waiter waits under `key`.
    pub fn has(&self, key: WaiterKey) -> (r: bool)
        requires
            self.wf(),
        ensures
            r == self@.dom().contains(key),
    {
        self.waiters.contains(&key)
    }

    /// A frame arrived. The waiter it is for, if there is one, waits no longer:
    /// it gets the frame if the frame passes its checks, else the error for
    /// which the frame was rejected. Without a waiter the frame is dropped.
    pub fn handle_frame<R>(&mut self, frame: Framing<R>) -> (r: Option<
        (S, Result<Framing<R>, ModbusError>),
    >)
        requires
            old(self).wf(),
        ensures
            final(self).wf(),
            final(self)@ == old(self)@.remove(key_of(frame.adu.transaction)),
            ({
                let key = key_of(frame.adu.transaction);
                if old(self)@.dom().contains(key) {
                    let waiter = old(self)@[key];
                    r == Some(
                        (
                            waiter.sender,
                            match verdict(checks_of(waiter.pre_check@), frame.adu@) {
                                None => Ok::<Framing<R>, ModbusError>(frame),
                                Some(e) => Err(e),
                            },
                        ),
                    )
                } else {
                    r is None
                }
            }),
    {
        let key: WaiterKey = match frame.adu.transaction {
            Some(tid) => WaiterKey::Tid(tid),
            None => WaiterKey::Fifo,
        };
        match self.waiters.remove(&key) {
            Some(waiter) => match run_pre_checks(&frame.adu, &waiter.pre_check) {
                CheckResult::Pass => Some((waiter.sender, Ok(frame))),
                CheckResult::Reject(err) => Some((waiter.sender, Err(err))),
            },
            None => None,
        }
    }

    /// Bytes arrived that make up no frame. They may have been the response to
    /// any request, so every waiter is rejected.
    pub fn handle_error(&mut self, err: ModbusError) -> (r: Vec<Rejection<S>>)
        requires
            old(self).wf(),
        ensures
            final(self).wf(),
            final(self)@ == Map::<WaiterKey, WaitingState<S>>::empty(),
            rejects_all(r@, old(self)@, err),
    {
        self.stop_all(err)
    }
}

impl<S> Default for MasterSession<S> {
    fn default() -> (r: Self)
        ensures
            r.wf(),
            r@ == Map::<WaiterKey, WaitingState<S>>::empty(),
    {
        MasterSession::new()
    }
}

/// A frame reaches the waiter with its own transaction id and no other; a frame
/// without one reaches only the waiter without one.
pub proof fn law_frames_are_routed(transaction: Option<u16>, tid: u16)
    ensures
        key_of(transaction) == WaiterKey::Tid(tid) <==> transaction == Some(tid),
        key_of(transaction) == WaiterKey::Fifo <==> transaction is None,
{
}

/// A list of checks lets a frame pass exactly if each part of it does.
pub proof fn law_verdict_splits(a: Seq<Check>, b: Seq<Check>, adu: Adu)
    ensures
        verdict(a + b, adu) == match verdict(a, adu) {
            Some(e) => Some(e),
            None => verdict(b, adu),
        },
    decreases a.len(),
{
    if a.len() == 0 {
        assert(a + b =~= b);
    } else {
        law_verdict_splits(a.drop_first(), b, adu);
        assert((a + b).drop_first() =~= a.drop_first() + b);
        assert((a + b)[0] == a[0]);
    }
}

} // verus!
