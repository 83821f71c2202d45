//! UDP, as a server for many peers or as a client of one.
use vstd::prelude::*;

use crate::error::ModbusError;
use crate::layers::physical::{
    configured_or, no_events, quiet, text_or, CloseEvents, ConnectionId, Lifecycle,
    PhysicalLayerType,
};
use crate::table::{entry_map, lemma_entry_map, Table, TableKey};

verus! {

/// Settings of a [`UdpPhysicalLayer`].
#[derive(Clone, Copy, Debug)]
pub struct UdpPhysicalLayerOptions {
    /// On a server: after this many milliseconds without a datagram a peer is
    /// forgotten and its connection reported as closed. Never if zero.
    pub idle_timeout_ms: u64,
}

impl Default for UdpPhysicalLayerOptions {
    fn default() -> (r: Self)
        ensures
            r.idle_timeout_ms == 30000,
    {
        UdpPhysicalLayerOptions { idle_timeout_ms: 30000 }
    }
}

/// An IP address as a number.
#[derive(Clone, Copy, Debug, PartialEq, Eq, Structural)]
pub enum PeerIp {
    V4(u32),
    V6(u128),
}

/// The address of a peer. The last two fields belong to IPv6 and are zero
/// otherwise.
#[derive(Clone, Copy, Debug, PartialEq, Eq, Structural)]
pub struct PeerAddr {
    pub ip: PeerIp,
    pub port: u16,
    pub flowinfo: u32,
    pub scope_id: u32,
}

impl TableKey for PeerAddr {
    type Id = PeerAddr;

    open spec fn id(&self) -> PeerAddr {
        *self
    }

    fn same(&self, other: &Self) -> (r: bool) {
        *self == *other
    }
}

/// The address that stands for every address.
pub open spec fn unspecified(ip: PeerIp) -> bool {
    ip == PeerIp::V4(0) || ip == PeerIp::V6(0)
}

/// A client that talks to `remote` listens to `from`: the port has to be the
/// same, and the address too unless `remote` stands for every address.
pub open spec fn listens_to(remote: PeerAddr, from: PeerAddr) -> bool {
    remote.port == from.port && (unspecified(remote.ip) || remote.ip == from.ip)
}

pub fn client_accepts(remote: &PeerAddr, from: &PeerAddr) -> (r: bool)
    ensures
        r == listens_to(*remote, *from),
{
    if remote.port != from.port {
        return false;
    }
    if remote.ip == PeerIp::V4(0) || remote.ip == PeerIp::V6(0) {
        return true;
    }
    remote.ip == from.ip
}

/// What to do with a datagram.
pub enum Datagram {
    /// Nothing; it comes from a stranger.
    Drop,
    /// It belongs to this connection.
    Known(ConnectionId),
    /// It is the first one of its sender: make up a connection id and register
    /// it.
    New,
}

/// The state of a UDP layer.
pub struct UdpState {
    pub life: Lifecycle,
    pub is_server: bool,
    pub idle_timeout_ms: u64,
    pub local_addr: Option<String>,
    pub remote_addr: Option<String>,
    /// Whom a client listens to, if it is choosy.
    pub filter: Option<PeerAddr>,
}

/// UDP: settings, peers and where the layer stands. Binding the socket, receiving
/// and sending are left to the caller, who reports what came of them.
pub struct UdpPhysicalLayer {
    life: Lifecycle,
    is_server: bool,
    idle_timeout_ms: u64,
    local_addr: Option<String>,
    remote_addr: Option<String>,
    filter: Option<PeerAddr>,
    connections: Table<PeerAddr, ConnectionId>,
}

impl View for UdpPhysicalLayer {
    type V = UdpState;

    closed spec fn view(&self) -> UdpState {
        UdpState {
            life: self.life,
            is_server: self.is_server,
            idle_timeout_ms: self.idle_timeout_ms,
            local_addr: self.local_addr,
            remote_addr: self.remote_addr,
            filter: self.filter,
        }
    }
}

/// The events tell each connection of `peers` once.
pub open spec fn tells_each(events: Seq<ConnectionId>, peers: Map<PeerAddr, ConnectionId>) -> bool {
    exists|order: Seq<PeerAddr>|
        {
            &&& order.len() == events.len()
            &&& order.no_duplicates()
            &&& forall|i: int|
                0 <= i < order.len() ==> peers.dom().contains(#[trigger] order[i])
                    && peers[order[i]] == events[i]
            &&& forall|p: PeerAddr| #[trigger] peers.dom().contains(p) ==> order.contains(p)
        }
}

impl UdpPhysicalLayer {
    pub closed spec fn wf(&self) -> bool {
        self.connections.wf()
    }

    /// The connections of the peers.
    pub closed spec fn peers(&self) -> Map<PeerAddr, ConnectionId> {
        self.connections@
    }

    fn build(
        is_server: bool,
        remote_addr: Option<String>,
        options: UdpPhysicalLayerOptions,
    ) -> (r: Self)
        ensures
            r.wf(),
            r.peers() == Map::<PeerAddr, ConnectionId>::empty(),
            r@ == (UdpState {
                life: Lifecycle { is_open: false, is_opening: false, is_destroyed: false },
                is_server,
                idle_timeout_ms: options.idle_timeout_ms,
                local_addr: None,
                remote_addr,
                filter: None,
            }),
    {
        UdpPhysicalLayer {
            life: Lifecycle::new(),
            is_server,
            idle_timeout_ms: options.idle_timeout_ms,
            local_addr: None,
            remote_addr,
            filter: None,
            connections: Table::new(),
        }
    }

    pub fn new_server() -> (r: Self)
        ensures
            r.wf(),
            r.peers() == Map::<PeerAddr, ConnectionId>::empty(),
            r@ == (UdpState {
                life: Lifecycle { is_open: false, is_opening: false, is_destroyed: false },
                is_server: true,
                idle_timeout_ms: 30000,
                local_addr: None,
                remote_addr: None,
                filter: None,
            }),
    {
        Self::build(true, None, UdpPhysicalLayerOptions::default())
    }

    pub fn new_server_with_options(options: UdpPhysicalLayerOptions) -> (r: Self)
        ensures
            r.wf(),
            r.peers() == Map::<PeerAddr, ConnectionId>::empty(),
            r@ == (UdpState {
                life: Lifecycle { is_open: false, is_opening: false, is_destroyed: false },
                is_server: true,
                idle_timeout_ms: options.idle_timeout_ms,
                local_addr: None,
                remote_addr: None,
                filter: None,
            }),
    {
        Self::build(true, None, options)
    }

    pub fn new_client(remote_addr: String) -> (r: Self)
        ensures
            r.wf(),
            r.peers() == Map::<PeerAddr, ConnectionId>::empty(),
            r@ == (UdpState {
                life: Lifecycle { is_open: false, is_opening: false, is_destroyed: false },
                is_server: false,
                idle_timeout_ms: 30000,
                local_addr: None,
                remote_addr: Some(remote_addr),
                filter: None,
            }),
    {
        Self::build(false, Some(remote_addr), UdpPhysicalLayerOptions::default())
    }

    pub fn new_client_with_options(
        remote_addr: String,
        options: UdpPhysicalLayerOptions,
    ) -> (r: Self)
        ensures
            r.wf(),
            r.peers() == Map::<PeerAddr, ConnectionId>::empty(),
            r@ == (UdpState {
                life: Lifecycle { is_open: false, is_opening: false, is_destroyed: false },
                is_server: false,
                idle_timeout_ms: options.idle_timeout_ms,
                local_addr: None,
                remote_addr: Some(remote_addr),
                filter: None,
            }),
    {
        Self::build(false, Some(remote_addr), options)
    }

    pub fn layer_type(&self) -> (r: PhysicalLayerType)
        ensures
            r == PhysicalLayerType::Net,
    {
        PhysicalLayerType::Net
    }

    /// What the connection ids of this layer begin with.
    pub fn connection_prefix(&self) -> (r: &'static str)
        ensures
            r@ == if self@.is_server {
                "udp-server"@
            } else {
                "udp-client"@
            },
    {
        if self.is_server {
            "udp-server"
        } else {
            "udp-client"
        }
    }

    pub fn set_local_addr(&mut self, addr: String)
        ensures
            final(self).wf() == old(self).wf(),
            final(self).peers() == old(self).peers(),
            final(self)@ == (UdpState { local_addr: Some(addr), ..old(self)@ }),
    {
        self.local_addr = Some(addr);
    }

    /// Begin to open. Gives the address to bind to: the one that was set, or
    /// port 502 on all interfaces for a server and any port for a client.
    pub fn open(&mut self) -> (r: Result<String, ModbusError>)
        ensures
            final(self).wf() == old(self).wf(),
            final(self).peers() == old(self).peers(),
            match old(self)@.life.open_refused() {
                Some(e) => r == Err::<String, ModbusError>(e) && final(self)@ == old(self)@,
                None => {
                    &&& r matches Ok(addr) && addr@ == configured_or(
                        old(self)@.local_addr,
                        if old(self)@.is_server {
                            "[::]:502"@
                        } else {
                            "0.0.0.0:0"@
                        },
                    )
                    &&& final(self)@ == (UdpState {
                        life: Lifecycle { is_opening: true, ..old(self)@.life },
                        ..old(self)@
                    })
                },
            },
    {
        match self.life.begin_open() {
            Ok(_) => {},
            Err(e) => {
                return Err(e);
            },
        }
        if self.is_server {
            Ok(text_or(&self.local_addr, "[::]:502"))
        } else {
            Ok(text_or(&self.local_addr, "0.0.0.0:0"))
        }
    }

    /// Binding failed, for the reason `text`.
    pub fn open_failed(&mut self, text: String) -> (r: ModbusError)
        ensures
            r == ModbusError::ConnectionError(text),
            final(self).wf() == old(self).wf(),
            final(self).peers() == old(self).peers(),
            final(self)@ == (UdpState {
                life: Lifecycle { is_opening: false, ..old(self)@.life },
                ..old(self)@
            }),
    {
        self.life.open_failed();
        ModbusError::ConnectionError(text)
    }

    /// The address that datagrams are sent to. A client needs it to know whom it
    /// listens to.
    pub fn remote_addr(&self) -> (r: Option<String>)
        ensures
            r == self@.remote_addr,
    {
        match &self.remote_addr {
            Some(addr) => Some(addr.clone()),
            None => None,
        }
    }

    /// The socket is bound. `remote` is what the remote address means, where that
    /// is known; a client then listens to it only. No peers are known yet.
    pub fn opened(&mut self, remote: Option<PeerAddr>)
        ensures
            final(self).wf(),
            final(self).peers() == Map::<PeerAddr, ConnectionId>::empty(),
            final(self)@ == (UdpState {
                life: Lifecycle { is_open: true, is_opening: false, ..old(self)@.life },
                filter: if old(self)@.is_server {
                    None
                } else {
                    remote
                },
                ..old(self)@
            }),
    {
        self.connections.clear();
        self.filter = if self.is_server {
            None
        } else {
            remote
        };
        self.life.opened();
    }

    /// A datagram came from `from`.
    pub fn datagram(&self, from: &PeerAddr) -> (r: Datagram)
        requires
            self.wf(),
        ensures
            if self@.filter matches Some(remote) && !listens_to(remote, *from) {
                r is Drop
            } else if self.peers().dom().contains(*from) {
                r == Datagram::Known(self.peers()[*from])
            } else {
                r is New
            },
    {
        match &self.filter {
            Some(remote) => {
                if !client_accepts(remote, from) {
                    return Datagram::Drop;
                }
            },
            None => {},
        }
        match self.connections.get(from) {
            Some(connection) => Datagram::Known(connection.clone()),
            None => Datagram::New,
        }
    }

    /// The datagrams of `from` belong to `connection` from now on.
    pub fn register(&mut self, from: PeerAddr, connection: ConnectionId)
        requires
            old(self).wf(),
        ensures
            final(self).wf(),
            final(self).peers() == old(self).peers().insert(from, connection),
            final(self)@ == old(self)@,
    {
        self.connections.insert(from, connection);
    }

    /// After how many milliseconds without another datagram its sender is idle.
    pub fn idle_timer(&self) -> (r: Option<u64>)
        ensures
            r == if self@.is_server && self@.idle_timeout_ms > 0 {
                Some(self@.idle_timeout_ms)
            } else {
                None
            },
    {
        if self.is_server && self.idle_timeout_ms > 0 {
            Some(self.idle_timeout_ms)
        } else {
            None
        }
    }

    /// The peer `from` was idle for too long while it had the connection
    /// `connection`: forget it. The result tells whether that was news, and the
    /// connection is reported as closed.
    pub fn idle_elapsed(&mut self, from: &PeerAddr, connection: &ConnectionId) -> (r: bool)
        requires
            old(self).wf(),
        ensures
            final(self).wf(),
            final(self)@ == old(self)@,
            r == (old(self).peers().dom().contains(*from) && old(self).peers()[*from]@
                == connection@),
            final(self).peers() == if r {
                old(self).peers().remove(*from)
            } else {
                old(self).peers()
            },
    {
        let same: bool = match self.connections.get(from) {
            Some(current) => current.same(connection),
            None => false,
        };
        if same {
            self.connections.remove(from);
        }
        same
    }

    /// Where data is to be sent.
    pub fn write(&self) -> (r: Result<String, ModbusError>)
        ensures
            if !self@.life.is_open {
                r == Err::<String, ModbusError>(ModbusError::PortNotOpen)
            } else {
                match self@.remote_addr {
                    Some(remote) => r == Ok::<String, ModbusError>(remote),
                    None => r matches Err(ModbusError::ConnectionError(text)) && text@
                        == if self@.is_server {
                        "No remote address for server"@
                    } else {
                        "No remote address configured for client"@
                    },
                }
            },
    {
        if !self.life.is_open {
            return Err(ModbusError::PortNotOpen);
        }
        match &self.remote_addr {
            Some(remote) => Ok(remote.clone()),
            None => {
                if self.is_server {
                    Err(ModbusError::ConnectionError("No remote address for server".to_owned()))
                } else {
                    Err(
                        ModbusError::ConnectionError(
                            "No remote address configured for client".to_owned(),
                        ),
                    )
                }
            },
        }
    }

    /// End the session, and the connections of all peers.
    pub fn close(&mut self) -> (r: CloseEvents)
        requires
            old(self).wf(),
        ensures
            final(self).wf(),
            final(self)@ == (UdpState {
                life: Lifecycle { is_open: false, ..old(self)@.life },
                ..old(self)@
            }),
            if old(self)@.life.is_open {
                &&& r.closed
                &&& tells_each(r.connections@, old(self).peers())
                &&& final(self).peers() == Map::<PeerAddr, ConnectionId>::empty()
            } else {
                quiet(r) && final(self).peers() == old(self).peers()
            },
    {
        if !self.life.end_session() {
            return no_events();
        }
        let ghost peers = self.peers();
        let drained: Vec<(PeerAddr, ConnectionId)> = self.connections.drain();
        let ghost all = drained@;
        proof {
            lemma_entry_map(all);
        }
        let mut connections: Vec<ConnectionId> = Vec::new();
        let mut i: usize = 0;
        while i < drained.len()
            invariant
                i <= drained@.len(),
                all == drained@,
                connections@.len() == i,
                forall|k: int| 0 <= k < i ==> (#[trigger] connections@[k]) == all[k].1,
            decreases drained@.len() - i,
        {
            connections.push(drained[i].1.clone());
            i += 1;
        }
        proof {
            let order = all.map_values(|e: (PeerAddr, ConnectionId)| e.0);
            assert forall|a: int, b: int|
                0 <= a < order.len() && 0 <= b < order.len() && a != b implies order[a]
                != order[b] by {
                if a < b {
                    assert(all[a].0.id() != all[b].0.id());
                } else {
                    assert(all[b].0.id() != all[a].0.id());
                }
            }
            assert forall|k: int| 0 <= k < order.len() implies peers.dom().contains(
                #[trigger] order[k],
            ) && peers[order[k]] == connections@[k] by {
                assert(entry_map(all).dom().contains(all[k].0.id()));
            }
            assert forall|p: PeerAddr| #[trigger] peers.dom().contains(p) implies order.contains(
                p,
            ) by {
                let k = choose|k: int| 0 <= k < all.len() && (#[trigger] all[k]).0.id() == p;
                assert(order[k] == p);
            }
            assert(tells_each(connections@, peers));
        }
        CloseEvents { connections, closed: true }
    }

    /// Receiving has come to an end by an error.
    pub fn receive_ended(&mut self) -> (r: CloseEvents)
        requires
            old(self).wf(),
        ensures
            final(self).wf(),
            final(self)@ == (UdpState {
                life: Lifecycle { is_open: false, ..old(self)@.life },
                ..old(self)@
            }),
            if old(self)@.life.is_open {
                &&& r.closed
                &&& tells_each(r.connections@, old(self).peers())
                &&& final(self).peers() == Map::<PeerAddr, ConnectionId>::empty()
            } else {
                quiet(r) && final(self).peers() == old(self).peers()
            },
    {
        self.close()
    }

    /// End the session, and open no other one.
    pub fn destroy(&mut self) -> (r: CloseEvents)
        requires
            old(self).wf(),
        ensures
            final(self).wf(),
            final(self)@ == (UdpState {
                life: Lifecycle { is_open: false, is_destroyed: true, ..old(self)@.life },
                ..old(self)@
            }),
            if old(self)@.life.is_open {
                &&& r.closed
                &&& tells_each(r.connections@, old(self).peers())
                &&& final(self).peers() == Map::<PeerAddr, ConnectionId>::empty()
            } else {
                quiet(r) && final(self).peers() == old(self).peers()
            },
    {
        self.life.mark_destroyed();
        self.close()
    }

    pub fn is_open(&self) -> (r: bool)
        ensures
            r == self@.life.is_open,
    {
        self.life.is_open
    }

    pub fn is_destroyed(&self) -> (r: bool)
        ensures
            r == self@.life.is_destroyed,
    {
        self.life.is_destroyed
    }
}

} // verus!
