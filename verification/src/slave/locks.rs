//! Locks on addresses: two requests that a model may carry out in several steps do
//! not get into each other's way.
use vstd::prelude::*;

use crate::utils::copy_values;

verus! {

/// The addresses `from`, `from + 1` and so on, `n` of them.
pub open spec fn consecutive(from: u16, n: nat) -> Seq<u16> {
    Seq::new(n, |i: int| (from + i) as u16)
}

/// The addresses `from`, `from + 1` and so on, `n` of them.
pub(crate) fn addresses_from(from: u16, n: usize) -> (r: Vec<u16>)
    requires
        from + n <= 0x1_0000,
    ensures
        r@ == consecutive(from, n as nat),
{
    let mut addresses: Vec<u16> = Vec::new();
    let mut i: usize = 0;
    while i < n
        invariant
            i <= n,
            from + n <= 0x1_0000,
            addresses@ == consecutive(from, i as nat),
        decreases n - i,
    {
        addresses.push(from + i as u16);
        i += 1;
        assert(addresses@ =~= consecutive(from, i as nat));
    }
    assert(addresses@ =~= consecutive(from, n as nat));
    addresses
}

// ----- the order of the locks -----
/// Each element is smaller than the next one.
pub open spec fn ascending(s: Seq<u16>) -> bool {
    forall|i: int, j: int| 0 <= i < j < s.len() ==> (#[trigger] s[i]) < (#[trigger] s[j])
}

/// `order` holds `addresses`, ascending and each one once.
pub open spec fn is_lock_order(order: Seq<u16>, addresses: Seq<u16>) -> bool {
    &&& ascending(order)
    &&& forall|a: u16| #[trigger] order.contains(a) <==> addresses.contains(a)
}

/// The order in which the locks of `addresses` are taken.
pub fn lock_order(addresses: &[u16]) -> (r: Vec<u16>)
    ensures
        is_lock_order(r@, addresses@),
{
    let mut sorted: Vec<u16> = Vec::new();
    let mut i: usize = 0;
    while i < addresses.len()
        invariant
            i <= addresses@.len(),
            ascending(sorted@),
            forall|a: u16| #[trigger]
                sorted@.contains(a) <==> addresses@.take(i as int).contains(a),
        decreases addresses@.len() - i,
    {
        let address: u16 = addresses[i];
        insert_ascending(&mut sorted, address);
        proof {
            let before = addresses@.take(i as int);
            let after = addresses@.take(i + 1);
            assert(after =~= before.push(address));
            assert forall|a: u16| #[trigger] after.contains(a) <==> before.contains(a) || a
                == address by {
                if before.contains(a) {
                    let k = choose|k: int| 0 <= k < before.len() && before[k] == a;
                    assert(after[k] == a);
                }
                if a == address {
                    assert(after[i as int] == a);
                }
            }
        }
        i += 1;
    }
    assert(addresses@.take(addresses@.len() as int) =~= addresses@);
    sorted
}

/// Put `a` where it belongs in `s`, unless it is there.
fn insert_ascending(s: &mut Vec<u16>, a: u16)
    requires
        ascending(old(s)@),
    ensures
        ascending(final(s)@),
        forall|x: u16| #[trigger] final(s)@.contains(x) <==> old(s)@.contains(x) || x == a,
{
    let mut i: usize = 0;
    while i < s.len() && s[i] < a
        invariant
            i <= s@.len(),
            s@ == old(s)@,
            forall|k: int| 0 <= k < i ==> #[trigger] s@[k] < a,
        decreases s@.len() - i,
    {
        i += 1;
    }
    if i < s.len() && s[i] == a {
        assert(s@.contains(a));
        return;
    }
    let ghost before = s@;
    s.insert(i, a);
    proof {
        let after = s@;
        assert(after == before.insert(i as int, a));
        assert forall|x: u16| #[trigger] after.contains(x) <==> before.contains(x) || x == a by {
            if before.contains(x) {
                let k = choose|k: int| 0 <= k < before.len() && before[k] == x;
                assert(after[if k < i { k } else { k + 1 }] == x);
            }
            if x == a {
                assert(after[i as int] == x);
            }
            if after.contains(x) {
                let k = choose|k: int| 0 <= k < after.len() && after[k] == x;
                if k < i {
                    assert(before[k] == x);
                } else if k > i {
                    assert(before[k - 1] == x);
                }
            }
        }
    }
}

// ----- which locks there are -----
/// The calls that hold locks or wait for them. A lock exists as long as one of them
/// uses it.
pub struct LockTable {
    calls: Vec<Option<Vec<u16>>>,
}

impl LockTable {
    /// The addresses whose locks the call with this ticket uses, in the order in
    /// which it takes them.
    pub closed spec fn call(&self, ticket: int) -> Option<Seq<u16>> {
        if 0 <= ticket < self.calls@.len() {
            match self.calls@[ticket] {
                Some(order) => Some(order@),
                None => None,
            }
        } else {
            None
        }
    }

    /// The call with this ticket uses the lock of `address`.
    pub open spec fn uses(&self, ticket: int, address: u16) -> bool {
        self.call(ticket) matches Some(order) && order.contains(address)
    }

    /// The lock of `address` is in use.
    pub open spec fn in_use(&self, address: u16) -> bool {
        exists|ticket: int| #[trigger] self.uses(ticket, address)
    }

    /// Every call takes its locks in ascending order.
    pub open spec fn wf(&self) -> bool {
        forall|ticket: int|
            (#[trigger] self.call(ticket)) matches Some(order) ==> ascending(order)
    }

    pub fn new() -> (r: Self)
        ensures
            r.wf(),
            forall|t: int| (#[trigger] r.call(t)) is None,
    {
        LockTable { calls: Vec::new() }
    }

    /// A call needs `addresses`. Gives it a ticket, and the order in which it has to
    /// take the locks. For addresses whose locks were not in use there are new ones.
    pub fn enter(&mut self, addresses: &[u16]) -> (r: (usize, Vec<u16>))
        requires
            old(self).wf(),
        ensures
            final(self).wf(),
            is_lock_order(r.1@, addresses@),
            old(self).call(r.0 as int) is None,
            forall|t: int| #[trigger]
                final(self).call(t) == if t == r.0 {
                    Some(r.1@)
                } else {
                    old(self).call(t)
                },
            forall|a: u16| #[trigger]
                final(self).in_use(a) <==> old(self).in_use(a) || addresses@.contains(a),
    {
        let order: Vec<u16> = lock_order(addresses);
        let kept: Vec<u16> = copy_values(&order);
        let mut ticket: usize = 0;
        while ticket < self.calls.len() && self.calls[ticket].is_some()
            invariant
                ticket <= self.calls@.len(),
                self.calls@ == old(self).calls@,
            decreases self.calls@.len() - ticket,
        {
            ticket += 1;
        }
        if ticket < self.calls.len() {
            self.calls.set(ticket, Some(kept));
        } else {
            self.calls.push(Some(kept));
        }
        proof {
            let (before, after) = (*old(self), *self);
            assert forall|t: int| #[trigger]
                after.call(t) == if t == ticket {
                    Some(order@)
                } else {
                    before.call(t)
                } by {}
            assert forall|a: u16| #[trigger]
                after.in_use(a) <==> before.in_use(a) || addresses@.contains(a) by {
                if before.in_use(a) {
                    let t = choose|t: int| #[trigger] before.uses(t, a);
                    assert(after.uses(t, a));
                }
                if addresses@.contains(a) {
                    assert(order@.contains(a));
                    assert(after.uses(ticket as int, a));
                }
                if after.in_use(a) {
                    let t = choose|t: int| #[trigger] after.uses(t, a);
                    if t == ticket {
                        assert(order@.contains(a));
                    } else {
                        assert(before.uses(t, a));
                    }
                }
            }
        }
        (ticket, order)
    }

    /// The lock of `address` is used by a call other than that with this ticket.
    fn used_elsewhere(&self, ticket: usize, address: u16) -> (r: bool)
        ensures
            r == (exists|t: int| t != ticket && #[trigger] self.uses(t, address)),
    {
        let mut t: usize = 0;
        while t < self.calls.len()
            invariant
                t <= self.calls@.len(),
                forall|k: int| 0 <= k < t && k != ticket ==> !#[trigger] self.uses(k, address),
            decreases self.calls@.len() - t,
        {
            if t != ticket {
                match &self.calls[t] {
                    Some(order) => {
                        if holds(order, address) {
                            assert(self.uses(t as int, address));
                            return true;
                        }
                    },
                    None => {},
                }
            }
            assert(t != ticket ==> !self.uses(t as int, address));
            t += 1;
        }
        false
    }

    /// The call with this ticket is over. Gives the addresses whose locks are not
    /// used any more, and exist no longer.
    pub fn leave(&mut self, ticket: usize) -> (r: Vec<u16>)
        requires
            old(self).wf(),
        ensures
            final(self).wf(),
            forall|t: int| #[trigger]
                final(self).call(t) == if t == ticket {
                    None
                } else {
                    old(self).call(t)
                },
            ascending(r@),
            forall|a: u16| #[trigger]
                r@.contains(a) <==> old(self).in_use(a) && !final(self).in_use(a),
    {
        let mut unused: Vec<u16> = Vec::new();
        if ticket >= self.calls.len() {
            proof {
                let (before, after) = (*old(self), *self);
                assert forall|a: u16| #[trigger] before.in_use(a) implies after.in_use(a) by {}
            }
            return unused;
        }
        match &self.calls[ticket] {
            Some(order) => {
                let mut i: usize = 0;
                while i < order.len()
                    invariant
                        i <= order@.len(),
                        *self == *old(self),
                        self.call(ticket as int) == Some(order@),
                        ascending(order@),
                        ascending(unused@),
                        forall|k: int, l: int|
                            0 <= k < unused@.len() && i <= l < order@.len() ==> (
                            #[trigger] unused@[k]) < (#[trigger] order@[l]),
                        forall|a: u16| #[trigger]
                            unused@.contains(a) <==> order@.take(i as int).contains(a) && !(
                            exists|t: int| t != ticket && #[trigger] self.uses(t, a)),
                    decreases order@.len() - i,
                {
                    let address: u16 = order[i];
                    let ghost before = unused@;
                    let elsewhere: bool = self.used_elsewhere(ticket, address);
                    if !elsewhere {
                        unused.push(address);
                    }
                    proof {
                        let taken = order@.take(i as int);
                        let more = order@.take(i + 1);
                        assert(more =~= taken.push(address));
                        lemma_push_contains(taken, address);
                        lemma_push_contains(before, address);
                    }
                    i += 1;
                }
                assert(order@.take(order@.len() as int) =~= order@);
            },
            None => {},
        }
        self.calls.set(ticket, None);
        proof {
            let (before, after) = (*old(self), *self);
            assert forall|t: int| #[trigger]
                after.call(t) == if t == ticket {
                    None
                } else {
                    before.call(t)
                } by {}
            assert forall|a: u16| #[trigger]
                unused@.contains(a) <==> before.in_use(a) && !after.in_use(a) by {
                if unused@.contains(a) {
                    assert(before.uses(ticket as int, a));
                    if after.in_use(a) {
                        let t = choose|t: int| #[trigger] after.uses(t, a);
                        assert(before.uses(t, a));
                    }
                }
                if before.in_use(a) && !after.in_use(a) {
                    let t = choose|t: int| #[trigger] before.uses(t, a);
                    if t != ticket {
                        assert(after.uses(t, a));
                    }
                    assert forall|k: int| k != ticket implies !#[trigger] before.uses(k, a) by {
                        assert(before.uses(k, a) ==> after.uses(k, a));
                    }
                }
            }
        }
        unused
    }

    /// Drop all locks. Calls under way keep what they hold; calls that come later get
    /// new locks.
    pub fn clear(&mut self)
        ensures
            final(self).wf(),
            forall|t: int| #[trigger]
                final(self).call(t) == match old(self).call(t) {
                    Some(_) => Some(Seq::<u16>::empty()),
                    None => None,
                },
            forall|a: u16| !#[trigger] final(self).in_use(a),
    {
        let mut i: usize = 0;
        while i < self.calls.len()
            invariant
                i <= self.calls@.len(),
                self.calls@.len() == old(self).calls@.len(),
                forall|t: int|
                    0 <= t < i ==> #[trigger] self.call(t) == match old(self).call(t) {
                        Some(_) => Some(Seq::<u16>::empty()),
                        None => None,
                    },
                forall|t: int|
                    i <= t < self.calls@.len() ==> #[trigger] self.calls@[t] == old(self).calls@[t],
            decreases self.calls@.len() - i,
        {
            let ghost before = *self;
            if self.calls[i].is_some() {
                let none: Vec<u16> = Vec::new();
                assert(none@ =~= Seq::<u16>::empty());
                self.calls.set(i, Some(none));
            }
            assert forall|t: int| 0 <= t < i implies #[trigger] self.call(t) == before.call(t) by {}
            i += 1;
        }
        assert forall|a: u16| !#[trigger] self.in_use(a) by {
            assert forall|t: int| !#[trigger] self.uses(t, a) by {
                assert(old(self).call(t) is None || old(self).call(t) is Some);
            }
        }
    }

    /// When all calls are over, no lock exists.
    pub proof fn law_no_lock_is_left(&self)
        requires
            forall|t: int| (#[trigger] self.call(t)) is None,
        ensures
            forall|a: u16| !#[trigger] self.in_use(a),
    {
    }
}

proof fn lemma_push_contains(s: Seq<u16>, x: u16)
    ensures
        forall|a: u16| #[trigger] s.push(x).contains(a) <==> s.contains(a) || a == x,
{
    assert forall|a: u16| #[trigger] s.push(x).contains(a) <==> s.contains(a) || a == x by {
        if s.contains(a) {
            let k = choose|k: int| 0 <= k < s.len() && s[k] == a;
            assert(s.push(x)[k] == a);
        }
        assert(s.push(x)[s.len() as int] == x);
    }
}

fn holds(addresses: &Vec<u16>, address: u16) -> (r: bool)
    ensures
        r == addresses@.contains(address),
{
    let mut i: usize = 0;
    while i < addresses.len()
        invariant
            i <= addresses@.len(),
            forall|k: int| 0 <= k < i ==> #[trigger] addresses@[k] != address,
        decreases addresses@.len() - i,
    {
        if addresses[i] == address {
            return true;
        }
        i += 1;
    }
    false
}

// ----- calls at the same time -----
/// A call that takes its locks one after the other, and is carried out when it has
/// them all.
pub struct Taking {
    /// The addresses, in the order in which their locks are taken.
    pub order: Seq<u16>,
    /// How many of them it has.
    pub taken: nat,
}

impl Taking {
    /// The call has the lock of `address`.
    pub open spec fn has(self, address: u16) -> bool {
        exists|i: int| 0 <= i < self.taken && #[trigger] self.order[i] == address
    }

    /// The call has all its locks.
    pub open spec fn runs(self) -> bool {
        self.taken == self.order.len()
    }

    /// The address whose lock it takes next.
    pub open spec fn wants(self) -> u16 {
        self.order[self.taken as int]
    }
}

/// A situation that can come about: all calls take their locks in ascending order,
/// and a lock is never with two of them.
pub open spec fn well_locked(calls: Seq<Taking>) -> bool {
    &&& forall|i: int|
        0 <= i < calls.len() ==> {
            let c = #[trigger] calls[i];
            ascending(c.order) && c.taken <= c.order.len()
        }
    &&& forall|i: int, j: int, a: u16|
        0 <= i < calls.len() && 0 <= j < calls.len() && #[trigger] calls[i].has(a)
            && #[trigger] calls[j].has(a) ==> i == j
}

/// The lock that call `i` takes next is free.
pub open spec fn may_take(calls: Seq<Taking>, i: int) -> bool {
    !calls[i].runs() && forall|j: int|
        0 <= j < calls.len() ==> !(#[trigger] calls[j]).has(calls[i].wants())
}

/// Call `i` does not have to wait: it is carried out, or can take its next lock.
pub open spec fn moves(calls: Seq<Taking>, i: int) -> bool {
    calls[i].runs() || may_take(calls, i)
}

/// The calls after call `i` took its next lock.
pub open spec fn after_take(calls: Seq<Taking>, i: int) -> Seq<Taking> {
    calls.update(i, Taking { taken: calls[i].taken + 1, ..calls[i] })
}

/// Taking a free lock, the beginning of a call and its end lead from one situation
/// that can come about to another.
pub proof fn law_locks_stay_with_one_call(calls: Seq<Taking>, i: int, order: Seq<u16>)
    requires
        well_locked(calls),
        0 <= i < calls.len(),
        ascending(order),
    ensures
        may_take(calls, i) ==> well_locked(after_take(calls, i)),
        well_locked(calls.push(Taking { order, taken: 0 })),
        well_locked(calls.remove(i)),
{
    if may_take(calls, i) {
        let after = after_take(calls, i);
        assert forall|k: int, l: int, a: u16|
            0 <= k < after.len() && 0 <= l < after.len() && #[trigger] after[k].has(a)
                && #[trigger] after[l].has(a) implies k == l by {
            lemma_after_take(calls, i, k, a);
            lemma_after_take(calls, i, l, a);
        }
    }
    let more = calls.push(Taking { order, taken: 0 });
    assert forall|k: int, l: int, a: u16|
        0 <= k < more.len() && 0 <= l < more.len() && #[trigger] more[k].has(a)
            && #[trigger] more[l].has(a) implies k == l by {
        assert(k < calls.len() && calls[k] == more[k]);
        assert(l < calls.len() && calls[l] == more[l]);
    }
    let fewer = calls.remove(i);
    assert forall|k: int, l: int, a: u16|
        0 <= k < fewer.len() && 0 <= l < fewer.len() && #[trigger] fewer[k].has(a)
            && #[trigger] fewer[l].has(a) implies k == l by {
        assert(fewer[k] == calls[if k < i { k } else { k + 1 }]);
        assert(fewer[l] == calls[if l < i { l } else { l + 1 }]);
    }
}

proof fn lemma_after_take(calls: Seq<Taking>, i: int, k: int, a: u16)
    requires
        well_locked(calls),
        0 <= i < calls.len(),
        0 <= k < calls.len(),
        !calls[i].runs(),
        after_take(calls, i)[k].has(a),
    ensures
        calls[k].has(a) || (k == i && a == calls[i].wants()),
{
    let c = after_take(calls, i)[k];
    let x = choose|x: int| 0 <= x < c.taken && #[trigger] c.order[x] == a;
    if k == i && x < calls[i].taken {
        assert(calls[i].order[x] == a);
    }
}

/// Two calls that need a common address are never carried out at the same time.
pub proof fn law_locks_exclude(calls: Seq<Taking>, i: int, j: int, address: u16)
    requires
        well_locked(calls),
        0 <= i < calls.len(),
        0 <= j < calls.len(),
        i != j,
        calls[i].order.contains(address),
        calls[j].order.contains(address),
    ensures
        !(calls[i].runs() && calls[j].runs()),
{
    let x = choose|x: int| 0 <= x < calls[i].order.len() && calls[i].order[x] == address;
    let y = choose|y: int| 0 <= y < calls[j].order.len() && calls[j].order[y] == address;
    if calls[i].runs() && calls[j].runs() {
        assert(calls[i].order[x] == address);
        assert(calls[j].order[y] == address);
        assert(calls[i].has(address) && calls[j].has(address));
    }
}

/// Calls never wait for each other in a circle: while there are calls, one of them is
/// carried out or can take its next lock.
pub proof fn law_locks_never_deadlock(calls: Seq<Taking>)
    requires
        well_locked(calls),
        calls.len() > 0,
    ensures
        exists|i: int| 0 <= i < calls.len() && #[trigger] moves(calls, i),
{
    if exists|i: int| 0 <= i < calls.len() && (#[trigger] calls[i]).runs() {
        let i = choose|i: int| 0 <= i < calls.len() && (#[trigger] calls[i]).runs();
        assert(moves(calls, i));
    } else {
        let i = lemma_greatest_want(calls, calls.len());
        if !may_take(calls, i) {
            let j = choose|j: int|
                0 <= j < calls.len() && (#[trigger] calls[j]).has(calls[i].wants());
            let c = calls[j];
            let x = choose|x: int| 0 <= x < c.taken && #[trigger] c.order[x] == calls[i].wants();
            assert(!c.runs());
            assert(c.order[x] < c.order[c.taken as int]);
            assert(c.wants() <= calls[i].wants());
            assert(false);
        }
        assert(moves(calls, i));
    }
}

/// Among calls of which none has all its locks, the one that wants the greatest
/// address.
proof fn lemma_greatest_want(calls: Seq<Taking>, n: nat) -> (i: int)
    requires
        0 < n <= calls.len(),
    ensures
        0 <= i < n,
        forall|j: int| 0 <= j < n ==> (#[trigger] calls[j]).wants() <= calls[i].wants(),
    decreases n,
{
    if n == 1 {
        0
    } else {
        let k = lemma_greatest_want(calls, (n - 1) as nat);
        if calls[n - 1].wants() > calls[k].wants() {
            n - 1
        } else {
            k
        }
    }
}

} // verus!
