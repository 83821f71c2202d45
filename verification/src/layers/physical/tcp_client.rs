//! The client end of a TCP connection.
use vstd::prelude::*;

use crate::error::ModbusError;
use crate::layers::physical::{
    configured_or, no_events, quiet, text_or, CloseEvents, ConnectionId, Lifecycle,
    PhysicalLayerType,
};

verus! {

/// A TCP client: its settings and where it stands. Connecting, reading and
/// writing are left to the caller, who reports what came of them.
pub struct TcpClientPhysicalLayer {
    pub life: Lifecycle,
    pub addr: Option<String>,
    /// The connection of the session that was opened last.
    pub connection_id: Option<ConnectionId>,
}

/// What the end of a session of a single connection tells: that connection, if
/// there is one, and the layer. Nothing if the session had ended before.
pub open spec fn session_ended(
    was_open: bool,
    connection: Option<ConnectionId>,
    events: CloseEvents,
) -> bool {
    if was_open {
        &&& events.closed
        &&& events.connections@ == match connection {
            Some(c) => seq![c],
            None => Seq::empty(),
        }
    } else {
        quiet(events)
    }
}

impl TcpClientPhysicalLayer {
    pub fn new() -> (r: Self)
        ensures
            r.life == (Lifecycle { is_open: false, is_opening: false, is_destroyed: false }),
            r.addr is None,
            r.connection_id is None,
    {
        TcpClientPhysicalLayer { life: Lifecycle::new(), addr: None, connection_id: None }
    }

    pub fn layer_type(&self) -> (r: PhysicalLayerType)
        ensures
            r == PhysicalLayerType::Net,
    {
        PhysicalLayerType::Net
    }

    pub fn set_addr(&mut self, addr: String)
        ensures
            *final(self) == (TcpClientPhysicalLayer { addr: Some(addr), ..*old(self) }),
    {
        self.addr = Some(addr);
    }

    /// Begin to open. Gives the address to connect to: the one in `options`, the
    /// one that was set, or port 502 of this machine.
    pub fn open(&mut self, options: Option<String>) -> (r: Result<String, ModbusError>)
        ensures
            match old(self).life.open_refused() {
                Some(e) => r == Err::<String, ModbusError>(e) && *final(self) == *old(self),
                None => {
                    &&& r matches Ok(addr) && addr@ == configured_or(
                        options,
                        configured_or(old(self).addr, "127.0.0.1:502"@),
                    )
                    &&& *final(self) == (TcpClientPhysicalLayer {
                        life: Lifecycle { is_opening: true, ..old(self).life },
                        ..*old(self)
                    })
                },
            },
    {
        match self.life.begin_open() {
            Ok(_) => {},
            Err(e) => {
                return Err(e);
            },
        }
        match options {
            Some(addr) => Ok(addr),
            None => Ok(text_or(&self.addr, "127.0.0.1:502")),
        }
    }

    /// The connection could not be made, for the reason `text`.
    pub fn open_failed(&mut self, text: String) -> (r: ModbusError)
        ensures
            r == ModbusError::ConnectionError(text),
            *final(self) == (TcpClientPhysicalLayer {
                life: Lifecycle { is_opening: false, ..old(self).life },
                ..*old(self)
            }),
    {
        self.life.open_failed();
        ModbusError::ConnectionError(text)
    }

    /// The connection was made; it is called `connection` from now on.
    pub fn opened(&mut self, connection: ConnectionId)
        ensures
            *final(self) == (TcpClientPhysicalLayer {
                life: Lifecycle { is_open: true, is_opening: false, ..old(self).life },
                connection_id: Some(connection),
                ..*old(self)
            }),
    {
        self.connection_id = Some(connection);
        self.life.opened();
    }

    /// Whether data can be written now.
    pub fn write(&self) -> (r: Result<(), ModbusError>)
        ensures
            if self.life.is_open {
                r is Ok
            } else {
                r == Err::<(), ModbusError>(ModbusError::PortNotOpen)
            },
    {
        if !self.life.is_open {
            return Err(ModbusError::PortNotOpen);
        }
        Ok(())
    }

    /// End the session.
    pub fn close(&mut self) -> (r: CloseEvents)
        ensures
            session_ended(old(self).life.is_open, old(self).connection_id, r),
            *final(self) == (TcpClientPhysicalLayer {
                life: Lifecycle { is_open: false, ..old(self).life },
                connection_id: if old(self).life.is_open {
                    None
                } else {
                    old(self).connection_id
                },
                ..*old(self)
            }),
    {
        if !self.life.end_session() {
            return no_events();
        }
        let mut connections: Vec<ConnectionId> = Vec::new();
        match &self.connection_id {
            Some(c) => {
                connections.push(c.clone());
                assert(connections@ =~= seq![*c]);
            },
            None => {},
        }
        self.connection_id = None;
        CloseEvents { connections, closed: true }
    }

    /// Reading from `connection` has come to an end: the peer is gone or there
    /// was an error.
    pub fn read_ended(&mut self, connection: &ConnectionId) -> (r: CloseEvents)
        ensures
            session_ended(old(self).life.is_open, Some(*connection), r),
            *final(self) == (TcpClientPhysicalLayer {
                life: Lifecycle { is_open: false, ..old(self).life },
                ..*old(self)
            }),
    {
        if !self.life.end_session() {
            return no_events();
        }
        let mut connections: Vec<ConnectionId> = Vec::new();
        connections.push(connection.clone());
        assert(connections@ =~= seq![*connection]);
        CloseEvents { connections, closed: true }
    }

    /// End the session, and open no other one.
    pub fn destroy(&mut self) -> (r: CloseEvents)
        ensures
            final(self).life.is_destroyed,
            if old(self).life.is_destroyed {
                quiet(r) && *final(self) == *old(self)
            } else {
                &&& session_ended(old(self).life.is_open, old(self).connection_id, r)
                &&& *final(self) == (TcpClientPhysicalLayer {
                    life: Lifecycle { is_open: false, is_destroyed: true, ..old(self).life },
                    connection_id: if old(self).life.is_open {
                        None
                    } else {
                        old(self).connection_id
                    },
                    ..*old(self)
                })
            },
    {
        if !self.life.mark_destroyed() {
            return no_events();
        }
        self.close()
    }

    pub fn is_open(&self) -> (r: bool)
        ensures
            r == self.life.is_open,
    {
        self.life.is_open
    }

    pub fn is_destroyed(&self) -> (r: bool)
        ensures
            r == self.life.is_destroyed,
    {
        self.life.is_destroyed
    }
}

} // verus!
