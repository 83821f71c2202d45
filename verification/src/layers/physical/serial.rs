//! A serial port.
use vstd::prelude::*;

use crate::error::ModbusError;
use crate::layers::physical::tcp_client::session_ended;
use crate::layers::physical::{
    no_events, quiet, CloseEvents, ConnectionId, Lifecycle, PhysicalLayerType,
};

verus! {

/// Number of data bits of a character.
#[derive(Clone, Copy, Debug, PartialEq, Eq, Structural)]
pub enum DataBits {
    Five,
    Six,
    Seven,
    Eight,
}

/// Number of stop bits of a character.
#[derive(Clone, Copy, Debug, PartialEq, Eq, Structural)]
pub enum StopBits {
    One,
    Two,
}

/// The parity bit of a character.
#[derive(Clone, Copy, Debug, PartialEq, Eq, Structural)]
pub enum Parity {
    Odd,
    Even,
}

/// How one end holds up the other.
#[derive(Clone, Copy, Debug, PartialEq, Eq, Structural)]
pub enum FlowControl {
    Software,
    Hardware,
}

/// Settings of a serial port.
#[derive(Debug)]
pub struct SerialPhysicalLayerOptions {
    /// The device.
    pub path: String,
    pub baud_rate: u32,
    pub data_bits: DataBits,
    pub stop_bits: StopBits,
    /// `None` for characters without a parity bit.
    pub parity: Option<Parity>,
    /// `None` where neither end holds up the other.
    pub flow_control: Option<FlowControl>,
    /// How long a read waits before it looks whether the port is still open.
    pub timeout_ms: u64,
}

impl Default for SerialPhysicalLayerOptions {
    fn default() -> (r: Self)
        ensures
            r.path@ == Seq::<char>::empty(),
            r.baud_rate == 9600,
            r.data_bits == DataBits::Eight,
            r.stop_bits == StopBits::One,
            r.parity is None,
            r.flow_control is None,
            r.timeout_ms == 100,
    {
        SerialPhysicalLayerOptions {
            path: String::new(),
            baud_rate: 9600,
            data_bits: DataBits::Eight,
            stop_bits: StopBits::One,
            parity: None,
            flow_control: None,
            timeout_ms: 100,
        }
    }
}

impl Clone for SerialPhysicalLayerOptions {
    fn clone(&self) -> (r: Self)
        ensures
            r == *self,
    {
        SerialPhysicalLayerOptions {
            path: self.path.clone(),
            baud_rate: self.baud_rate,
            data_bits: self.data_bits,
            stop_bits: self.stop_bits,
            parity: self.parity,
            flow_control: self.flow_control,
            timeout_ms: self.timeout_ms,
        }
    }
}

/// A serial port: its settings and where it stands. Opening the device, reading and
/// writing are left to the caller, who reports what came of them.
pub struct SerialPhysicalLayer {
    pub life: Lifecycle,
    pub options: SerialPhysicalLayerOptions,
    /// The connection of the session that was opened last.
    pub connection_id: Option<ConnectionId>,
}

impl SerialPhysicalLayer {
    pub fn new(options: SerialPhysicalLayerOptions) -> (r: Self)
        ensures
            r.life == (Lifecycle { is_open: false, is_opening: false, is_destroyed: false }),
            r.options == options,
            r.connection_id is None,
    {
        SerialPhysicalLayer { life: Lifecycle::new(), options, connection_id: None }
    }

    pub fn baud_rate(&self) -> (r: u32)
        ensures
            r == self.options.baud_rate,
    {
        self.options.baud_rate
    }

    pub fn layer_type(&self) -> (r: PhysicalLayerType)
        ensures
            r == PhysicalLayerType::Serial,
    {
        PhysicalLayerType::Serial
    }

    /// Begin to open.
    pub fn open(&mut self) -> (r: Result<(), ModbusError>)
        ensures
            match old(self).life.open_refused() {
                Some(e) => r == Err::<(), ModbusError>(e) && *final(self) == *old(self),
                None => r is Ok && *final(self) == (SerialPhysicalLayer {
                    life: Lifecycle { is_opening: true, ..old(self).life },
                    ..*old(self)
                }),
            },
    {
        self.life.begin_open()
    }

    /// The device could not be opened, for the reason `text`.
    pub fn open_failed(&mut self, text: String) -> (r: ModbusError)
        ensures
            r == ModbusError::ConnectionError(text),
            *final(self) == (SerialPhysicalLayer {
                life: Lifecycle { is_opening: false, ..old(self).life },
                ..*old(self)
            }),
    {
        self.life.open_failed();
        ModbusError::ConnectionError(text)
    }

    /// The device was opened; its session is called `connection`.
    pub fn opened(&mut self, connection: ConnectionId)
        ensures
            *final(self) == (SerialPhysicalLayer {
                life: Lifecycle { is_open: true, is_opening: false, ..old(self).life },
                connection_id: Some(connection),
                ..*old(self)
            }),
    {
        self.connection_id = Some(connection);
        self.life.opened();
    }

    /// Whether data can be written now.
    pub fn write(&self) -> (r: Result<(), ModbusError>)
        ensures
            if self.life.is_open {
                r is Ok
            } else {
                r == Err::<(), ModbusError>(ModbusError::PortNotOpen)
            },
    {
        if !self.life.is_open {
            return Err(ModbusError::PortNotOpen);
        }
        Ok(())
    }

    /// End the session.
    pub fn close(&mut self) -> (r: CloseEvents)
        ensures
            session_ended(old(self).life.is_open, old(self).connection_id, r),
            *final(self) == (SerialPhysicalLayer {
                life: Lifecycle { is_open: false, ..old(self).life },
                connection_id: if old(self).life.is_open {
                    None
                } else {
                    old(self).connection_id
                },
                ..*old(self)
            }),
    {
        if !self.life.end_session() {
            return no_events();
        }
        let mut connections: Vec<ConnectionId> = Vec::new();
        match &self.connection_id {
            Some(c) => {
                connections.push(c.clone());
                assert(connections@ =~= seq![*c]);
            },
            None => {},
        }
        self.connection_id = None;
        CloseEvents { connections, closed: true }
    }

    /// Reading has come to an end.
    pub fn read_ended(&mut self, connection: &ConnectionId) -> (r: CloseEvents)
        ensures
            session_ended(old(self).life.is_open, Some(*connection), r),
            *final(self) == (SerialPhysicalLayer {
                life: Lifecycle { is_open: false, ..old(self).life },
                ..*old(self)
            }),
    {
        if !self.life.end_session() {
            return no_events();
        }
        let mut connections: Vec<ConnectionId> = Vec::new();
        connections.push(connection.clone());
        assert(connections@ =~= seq![*connection]);
        CloseEvents { connections, closed: true }
    }

    /// End the session, and open no other one.
    pub fn destroy(&mut self) -> (r: CloseEvents)
        ensures
            final(self).life.is_destroyed,
            if old(self).life.is_destroyed {
                quiet(r) && *final(self) == *old(self)
            } else {
                &&& session_ended(old(self).life.is_open, old(self).connection_id, r)
                &&& *final(self) == (SerialPhysicalLayer {
                    life: Lifecycle { is_open: false, is_destroyed: true, ..old(self).life },
                    connection_id: if old(self).life.is_open {
                        None
                    } else {
                        old(self).connection_id
                    },
                    ..*old(self)
                })
            },
    {
        if !self.life.mark_destroyed() {
            return no_events();
        }
        self.close()
    }

    pub fn is_open(&self) -> (r: bool)
        ensures
            r == self.life.is_open,
    {
        self.life.is_open
    }

    pub fn is_destroyed(&self) -> (r: bool)
        ensures
            r == self.life.is_destroyed,
    {
        self.life.is_destroyed
    }
}

} // verus!
