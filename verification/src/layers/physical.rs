//! Physical layers: what carries bytes between the two ends.
use std::sync::Arc;
use vstd::prelude::*;

use crate::error::ModbusError;
use crate::table::TableKey;

pub mod serial;
pub mod tcp_client;
pub mod tcp_server;
pub mod udp;

pub use self::serial::{SerialPhysicalLayer, SerialPhysicalLayerOptions};
pub use self::tcp_client::TcpClientPhysicalLayer;
pub use self::tcp_server::TcpServerPhysicalLayer;
pub use self::udp::{UdpPhysicalLayer, UdpPhysicalLayerOptions};

verus! {

/// Identifies one connection (socket, serial port, UDP peer) of a physical
/// layer.
pub type ConnectionId = Arc<str>;

impl TableKey for Arc<str> {
    type Id = Seq<char>;

    open spec fn id(&self) -> Seq<char> {
        self@
    }

    fn same(&self, other: &Self) -> (r: bool) {
        let a: &[u8] = self.as_bytes();
        let b: &[u8] = other.as_bytes();
        proof {
            vstd::utf8::encode_utf8_decode_utf8(self@);
            vstd::utf8::encode_utf8_decode_utf8(other@);
        }
        if a.len() != b.len() {
            return false;
        }
        let mut i: usize = 0;
        while i < a.len()
            invariant
                i <= a@.len(),
                a@.len() == b@.len(),
                a@ == vstd::utf8::encode_utf8(self@),
                b@ == vstd::utf8::encode_utf8(other@),
                forall|k: int| 0 <= k < i ==> a@[k] == b@[k],
            decreases a@.len() - i,
        {
            if a[i] != b[i] {
                return false;
            }
            i += 1;
        }
        assert(a@ =~= b@);
        true
    }
}

/// Tells serial lines, where silence separates RTU frames, from networks.
#[derive(Clone, Copy, Debug, PartialEq, Eq, Structural)]
pub enum PhysicalLayerType {
    Serial,
    Net,
}

/// Bytes that arrived on a connection, with the handle `response` by which an
/// answer goes back to where they came from.
pub struct DataEvent<R> {
    pub data: Vec<u8>,
    pub response: R,
    pub connection: ConnectionId,
}

impl<R: Clone> Clone for DataEvent<R> {
    fn clone(&self) -> (r: Self)
        ensures
            r.data@ == self.data@,
            call_ensures(R::clone, (&self.response,), r.response),
            r.connection == self.connection,
    {
        DataEvent {
            data: crate::utils::copy_all(&self.data),
            response: self.response.clone(),
            connection: self.connection.clone(),
        }
    }
}

// ----- the life of a physical layer -----
/// Where a physical layer stands.
#[derive(Clone, Copy, Debug, PartialEq, Eq, Structural)]
pub struct Lifecycle {
    pub is_open: bool,
    pub is_opening: bool,
    pub is_destroyed: bool,
}

impl Lifecycle {
    pub fn new() -> (r: Self)
        ensures
            r == (Lifecycle { is_open: false, is_opening: false, is_destroyed: false }),
    {
        Lifecycle { is_open: false, is_opening: false, is_destroyed: false }
    }

    /// Why this layer cannot be opened now, if it cannot.
    pub open spec fn open_refused(self) -> Option<ModbusError> {
        if self.is_destroyed {
            Some(ModbusError::PortDestroyed)
        } else if self.is_open || self.is_opening {
            Some(ModbusError::PortAlreadyOpen)
        } else {
            None
        }
    }

    /// Where the layer stands after `step`.
    pub open spec fn after(self, step: LifeStep) -> Lifecycle {
        match step {
            LifeStep::Open => if self.open_refused() is None {
                Lifecycle { is_opening: true, ..self }
            } else {
                self
            },
            LifeStep::OpenFailed => Lifecycle { is_opening: false, ..self },
            LifeStep::Opened => Lifecycle { is_open: true, is_opening: false, ..self },
            LifeStep::End => Lifecycle { is_open: false, ..self },
            LifeStep::Destroy => Lifecycle { is_destroyed: true, ..self },
        }
    }

    /// Begin to open. A layer that is open or about to be is left as it is.
    pub fn begin_open(&mut self) -> (r: Result<(), ModbusError>)
        ensures
            match old(self).open_refused() {
                Some(e) => r == Err::<(), ModbusError>(e),
                None => r is Ok,
            },
            *final(self) == old(self).after(LifeStep::Open),
    {
        if self.is_destroyed {
            return Err(ModbusError::PortDestroyed);
        }
        if self.is_open || self.is_opening {
            return Err(ModbusError::PortAlreadyOpen);
        }
        self.is_opening = true;
        Ok(())
    }

    /// Opening failed.
    pub fn open_failed(&mut self)
        ensures
            *final(self) == old(self).after(LifeStep::OpenFailed),
    {
        self.is_opening = false;
    }

    /// Opening succeeded.
    pub fn opened(&mut self)
        ensures
            *final(self) == old(self).after(LifeStep::Opened),
    {
        self.is_open = true;
        self.is_opening = false;
    }

    /// The layer is open no longer. The result tells whether it was: of all that
    /// may end a session, the first one tells the listeners.
    pub fn end_session(&mut self) -> (r: bool)
        ensures
            r == old(self).is_open,
            *final(self) == old(self).after(LifeStep::End),
    {
        let was_open: bool = self.is_open;
        self.is_open = false;
        was_open
    }

    /// The layer will not be opened again. The result tells whether that is new.
    pub fn mark_destroyed(&mut self) -> (r: bool)
        ensures
            r == !old(self).is_destroyed,
            *final(self) == old(self).after(LifeStep::Destroy),
    {
        let first: bool = !self.is_destroyed;
        self.is_destroyed = true;
        first
    }
}

/// What happens in the life of a physical layer.
pub enum LifeStep {
    /// Someone asks for it to be opened.
    Open,
    /// Opening fails.
    OpenFailed,
    /// Opening succeeds.
    Opened,
    /// It is closed, or the other side ends the session.
    End,
    /// It is marked as destroyed. An open session is then ended.
    Destroy,
}

/// Where a new layer stands after `steps`.
pub open spec fn life_after(steps: Seq<LifeStep>) -> Lifecycle
    decreases steps.len(),
{
    if steps.len() == 0 {
        Lifecycle { is_open: false, is_opening: false, is_destroyed: false }
    } else {
        life_after(steps.drop_last()).after(steps.last())
    }
}

/// How many sessions began in the course of `steps`.
pub open spec fn sessions(steps: Seq<LifeStep>) -> int
    decreases steps.len(),
{
    if steps.len() == 0 {
        0
    } else if steps.last() is Opened {
        sessions(steps.drop_last()) + 1
    } else {
        sessions(steps.drop_last())
    }
}

/// How often the listeners of a new layer were told, in the course of `steps`, that
/// it is closed: whenever it was open and is ended.
pub open spec fn closings(steps: Seq<LifeStep>) -> int
    decreases steps.len(),
{
    if steps.len() == 0 {
        0
    } else if steps.last() is End && life_after(steps.drop_last()).is_open {
        closings(steps.drop_last()) + 1
    } else {
        closings(steps.drop_last())
    }
}

/// Only a layer that is being opened reports that it was opened.
pub open spec fn opened_in_turn(steps: Seq<LifeStep>) -> bool {
    forall|i: int|
        0 <= i < steps.len() && (#[trigger] steps[i]) is Opened ==> life_after(
            steps.take(i),
        ).is_opening
}

/// However a session ends, and however many have a part in that, the listeners
/// are told of it exactly once: a session that began is open or has been reported
/// as closed.
pub proof fn law_sessions_are_closed_once(steps: Seq<LifeStep>)
    requires
        opened_in_turn(steps),
    ensures
        sessions(steps) == closings(steps) + if life_after(steps).is_open {
            1int
        } else {
            0int
        },
        !(life_after(steps).is_open && life_after(steps).is_opening),
    decreases steps.len(),
{
    if steps.len() > 0 {
        let init = steps.drop_last();
        assert forall|i: int|
            0 <= i < init.len() && (#[trigger] init[i]) is Opened implies life_after(
            init.take(i),
        ).is_opening by {
            assert(init[i] == steps[i]);
            assert(init.take(i) =~= steps.take(i));
        }
        law_sessions_are_closed_once(init);
        assert(steps.take(steps.len() - 1) =~= init);
        assert(steps[steps.len() - 1] == steps.last());
    }
}

/// A layer that was destroyed is never opened again.
pub proof fn law_destroyed_for_good(steps: Seq<LifeStep>, more: Seq<LifeStep>)
    requires
        life_after(steps).is_destroyed,
    ensures
        life_after(steps + more).is_destroyed,
        life_after(steps + more).open_refused() == Some(ModbusError::PortDestroyed),
    decreases more.len(),
{
    if more.len() == 0 {
        assert(steps + more =~= steps);
    } else {
        law_destroyed_for_good(steps, more.drop_last());
        assert((steps + more).drop_last() =~= steps + more.drop_last());
        assert((steps + more).last() == more.last());
    }
}

/// What to tell the listeners at the end of a session.
pub struct CloseEvents {
    /// Connections that are closed.
    pub connections: Vec<ConnectionId>,
    /// The layer as a whole is closed.
    pub closed: bool,
}

/// There is nothing to tell.
pub open spec fn quiet(events: CloseEvents) -> bool {
    events.connections@.len() == 0 && !events.closed
}

pub(crate) fn no_events() -> (r: CloseEvents)
    ensures
        quiet(r),
{
    CloseEvents { connections: Vec::new(), closed: false }
}

/// The text of `configured`, or else `default`.
pub open spec fn configured_or(configured: Option<String>, default: Seq<char>) -> Seq<char> {
    match configured {
        Some(text) => text@,
        None => default,
    }
}

pub(crate) fn text_or(configured: &Option<String>, default: &'static str) -> (r: String)
    ensures
        r@ == configured_or(*configured, default@),
{
    match configured {
        Some(text) => text.clone(),
        None => default.to_owned(),
    }
}

} // verus!
