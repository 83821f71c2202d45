//! A TCP server and the connections of its clients.
use vstd::prelude::*;

use crate::error::ModbusError;
use crate::layers::physical::{
    configured_or, no_events, quiet, text_or, CloseEvents, ConnectionId, Lifecycle,
    PhysicalLayerType,
};
use crate::table::{entry_map, lemma_entry_map, Table, TableKey};

verus! {

/// A TCP server: its settings, its clients and where it stands. Listening,
/// reading and writing are left to the caller, who reports what came of them.
pub struct TcpServerPhysicalLayer {
    life: Lifecycle,
    addr: Option<String>,
    clients: Table<ConnectionId, ()>,
}

/// The ids `ids` are those of `set`, each one once.
pub open spec fn lists_once(ids: Seq<ConnectionId>, set: Set<Seq<char>>) -> bool {
    &&& forall|i: int, j: int|
        0 <= i < j < ids.len() ==> (#[trigger] ids[i])@ != (#[trigger] ids[j])@
    &&& forall|c: Seq<char>| #[trigger]
        set.contains(c) <==> exists|i: int| 0 <= i < ids.len() && (#[trigger] ids[i])@ == c
}

impl TcpServerPhysicalLayer {
    pub closed spec fn wf(&self) -> bool {
        self.clients.wf()
    }

    pub closed spec fn lifecycle(&self) -> Lifecycle {
        self.life
    }

    pub closed spec fn address(&self) -> Option<String> {
        self.addr
    }

    /// The connections of the clients.
    pub closed spec fn clients(&self) -> Set<Seq<char>> {
        self.clients@.dom()
    }

    pub fn new() -> (r: Self)
        ensures
            r.wf(),
            r.lifecycle() == (Lifecycle { is_open: false, is_opening: false, is_destroyed: false }),
            r.address() is None,
            r.clients() == Set::<Seq<char>>::empty(),
    {
        let r = TcpServerPhysicalLayer {
            life: Lifecycle::new(),
            addr: None,
            clients: Table::new(),
        };
        assert(r.clients() =~= Set::<Seq<char>>::empty());
        r
    }

    pub fn layer_type(&self) -> (r: PhysicalLayerType)
        ensures
            r == PhysicalLayerType::Net,
    {
        PhysicalLayerType::Net
    }

    pub fn set_addr(&mut self, addr: String)
        ensures
            final(self).wf() == old(self).wf(),
            final(self).address() == Some(addr),
            final(self).lifecycle() == old(self).lifecycle(),
            final(self).clients() == old(self).clients(),
    {
        self.addr = Some(addr);
    }

    /// The address to listen on, or the one listened on once that is known.
    pub fn get_addr(&self) -> (r: Option<String>)
        ensures
            r == self.address(),
    {
        match &self.addr {
            Some(addr) => Some(addr.clone()),
            None => None,
        }
    }

    /// Begin to open. Gives the address to listen on: the one in `options`, the
    /// one that was set, or port 502 on all interfaces.
    pub fn open(&mut self, options: Option<String>) -> (r: Result<String, ModbusError>)
        ensures
            final(self).wf() == old(self).wf(),
            final(self).address() == old(self).address(),
            final(self).clients() == old(self).clients(),
            match old(self).lifecycle().open_refused() {
                Some(e) => {
                    &&& r == Err::<String, ModbusError>(e)
                    &&& final(self).lifecycle() == old(self).lifecycle()
                },
                None => {
                    &&& r matches Ok(addr) && addr@ == configured_or(
                        options,
                        configured_or(old(self).address(), "[::]:502"@),
                    )
                    &&& final(self).lifecycle() == (Lifecycle {
                        is_opening: true,
                        ..old(self).lifecycle()
                    })
                },
            },
    {
        match self.life.begin_open() {
            Ok(_) => {},
            Err(e) => {
                return Err(e);
            },
        }
        match options {
            Some(addr) => Ok(addr),
            None => Ok(text_or(&self.addr, "[::]:502")),
        }
    }

    /// Listening failed, for the reason `text`.
    pub fn open_failed(&mut self, text: String) -> (r: ModbusError)
        ensures
            r == ModbusError::ConnectionError(text),
            final(self).wf() == old(self).wf(),
            final(self).lifecycle() == (Lifecycle { is_opening: false, ..old(self).lifecycle() }),
            final(self).address() == old(self).address(),
            final(self).clients() == old(self).clients(),
    {
        self.life.open_failed();
        ModbusError::ConnectionError(text)
    }

    /// The server listens on `bound`. It has no clients yet.
    pub fn opened(&mut self, bound: String)
        ensures
            final(self).wf(),
            final(self).lifecycle() == (Lifecycle {
                is_open: true,
                is_opening: false,
                ..old(self).lifecycle()
            }),
            final(self).address() == Some(bound),
            final(self).clients() == Set::<Seq<char>>::empty(),
    {
        self.addr = Some(bound);
        self.clients.clear();
        self.life.opened();
        assert(self.clients() =~= Set::<Seq<char>>::empty());
    }

    /// A client has connected.
    pub fn accepted(&mut self, connection: ConnectionId)
        requires
            old(self).wf(),
        ensures
            final(self).wf(),
            final(self).clients() == old(self).clients().insert(connection@),
            final(self).lifecycle() == old(self).lifecycle(),
            final(self).address() == old(self).address(),
    {
        let ghost id = connection@;
        self.clients.insert(connection, ());
        assert(self.clients() =~= old(self).clients().insert(id));
    }

    /// A client is gone. The result tells whether that is news: its connection
    /// is reported as closed once.
    pub fn client_ended(&mut self, connection: &ConnectionId) -> (r: bool)
        requires
            old(self).wf(),
        ensures
            final(self).wf(),
            r == old(self).clients().contains(connection@),
            final(self).clients() == old(self).clients().remove(connection@),
            final(self).lifecycle() == old(self).lifecycle(),
            final(self).address() == old(self).address(),
    {
        let removed: bool = self.clients.remove(connection).is_some();
        assert(self.clients() =~= old(self).clients().remove(connection@));
        removed
    }

    /// Accepting clients has come to an end by an error. Clients that are
    /// connected stay so.
    pub fn accept_ended(&mut self) -> (r: CloseEvents)
        ensures
            r.connections@.len() == 0,
            r.closed == old(self).lifecycle().is_open,
            final(self).wf() == old(self).wf(),
            final(self).lifecycle() == (Lifecycle { is_open: false, ..old(self).lifecycle() }),
            final(self).address() == old(self).address(),
            final(self).clients() == old(self).clients(),
    {
        let was_open: bool = self.life.end_session();
        CloseEvents { connections: Vec::new(), closed: was_open }
    }

    /// A server does not write by itself; it answers.
    pub fn write(&self) -> (r: Result<(), ModbusError>)
        ensures
            r == Err::<(), ModbusError>(ModbusError::NotSupported),
    {
        Err(ModbusError::NotSupported)
    }

    /// End the session, and the connections of all clients.
    pub fn close(&mut self) -> (r: CloseEvents)
        requires
            old(self).wf(),
        ensures
            final(self).wf(),
            final(self).lifecycle() == (Lifecycle { is_open: false, ..old(self).lifecycle() }),
            final(self).address() == old(self).address(),
            if old(self).lifecycle().is_open {
                &&& r.closed
                &&& lists_once(r.connections@, old(self).clients())
                &&& final(self).clients() == Set::<Seq<char>>::empty()
            } else {
                quiet(r) && final(self).clients() == old(self).clients()
            },
    {
        if !self.life.end_session() {
            return no_events();
        }
        let ghost set = self.clients();
        let drained: Vec<(ConnectionId, ())> = self.clients.drain();
        proof {
            lemma_entry_map(drained@);
        }
        let mut connections: Vec<ConnectionId> = Vec::new();
        let mut i: usize = 0;
        while i < drained.len()
            invariant
                i <= drained@.len(),
                connections@.len() == i,
                forall|k: int| 0 <= k < i ==> (#[trigger] connections@[k])@ == drained@[k].0@,
            decreases drained@.len() - i,
        {
            connections.push(drained[i].0.clone());
            i += 1;
        }
        proof {
            assert(self.clients() =~= Set::<Seq<char>>::empty());
            let ids = connections@;
            assert forall|a: int, b: int| 0 <= a < b < ids.len() implies (#[trigger] ids[a])@ != (
            #[trigger] ids[b])@ by {
                assert(drained@[a].0.id() != drained@[b].0.id());
            }
            assert forall|c: Seq<char>| #[trigger] set.contains(c) <==> exists|k: int|
                0 <= k < ids.len() && (#[trigger] ids[k])@ == c by {
                if set.contains(c) {
                    assert(entry_map(drained@).dom().contains(c));
                    let k = choose|k: int|
                        0 <= k < drained@.len() && (#[trigger] drained@[k]).0.id() == c;
                    assert(ids[k]@ == c);
                }
                if exists|k: int| 0 <= k < ids.len() && (#[trigger] ids[k])@ == c {
                    let k = choose|k: int| 0 <= k < ids.len() && (#[trigger] ids[k])@ == c;
                    assert(drained@[k].0.id() == c);
                    assert(entry_map(drained@).dom().contains(c));
                }
            }
        }
        CloseEvents { connections, closed: true }
    }

    /// End the session, and open no other one.
    pub fn destroy(&mut self) -> (r: CloseEvents)
        requires
            old(self).wf(),
        ensures
            final(self).wf(),
            final(self).address() == old(self).address(),
            final(self).lifecycle().is_destroyed,
            if old(self).lifecycle().is_destroyed {
                &&& quiet(r)
                &&& final(self).lifecycle() == old(self).lifecycle()
                &&& final(self).clients() == old(self).clients()
            } else {
                &&& final(self).lifecycle() == (Lifecycle {
                    is_open: false,
                    is_destroyed: true,
                    ..old(self).lifecycle()
                })
                &&& if old(self).lifecycle().is_open {
                    &&& r.closed
                    &&& lists_once(r.connections@, old(self).clients())
                    &&& final(self).clients() == Set::<Seq<char>>::empty()
                } else {
                    quiet(r) && final(self).clients() == old(self).clients()
                }
            },
    {
        if !self.life.mark_destroyed() {
            return no_events();
        }
        self.close()
    }

    pub fn is_open(&self) -> (r: bool)
        ensures
            r == self.lifecycle().is_open,
    {
        self.life.is_open
    }

    pub fn is_destroyed(&self) -> (r: bool)
        ensures
            r == self.lifecycle().is_destroyed,
    {
        self.life.is_destroyed
    }
}

} // verus!
