//! Connections: who is listened to, what is told of their ends, and who may do what when.
use vstd::prelude::*;

use crate::error::ModbusError;
use crate::layers::application::{
    concurrency_fits, role_set, ApplicationProtocol, ApplicationRole,
};
use crate::layers::physical::tcp_client::session_ended;
use crate::layers::physical::tcp_server::lists_once;
use crate::layers::physical::udp::{listens_to, tells_each, PeerAddr, PeerIp};
use crate::layers::physical::{
    configured_or, quiet, CloseEvents, ConnectionId, LifeStep, Lifecycle,
};
use crate::master::invalid_state;
use crate::slave::locks::LockTable;

verus! {

/// The first role of an application layer is its role for good: setting it again changes
/// nothing, and setting the other one is an error that names both.
pub proof fn law_roles(
    before: Option<ApplicationRole>,
    after: Option<ApplicationRole>,
    role: ApplicationRole,
    result: Result<(), ModbusError>,
)
    requires
        role_set(before, after, role, result),
    ensures
        before is None ==> result is Ok && after == Some(role),
        before == Some(role) ==> result is Ok && after == before,
        before is Some && before != Some(role) ==> after == before && (
        result matches Err(ModbusError::InvalidState(text)) && text@ == if role
            == ApplicationRole::Slave {
            "application layer role already set to "@ + "Master"@ + ", cannot change to "@
                + "Slave"@
        } else {
            "application layer role already set to "@ + "Slave"@ + ", cannot change to "@
                + "Master"@
        }),
{
}

/// Requests may be under way at once on TCP only.
pub proof fn law_concurrency()
    ensures
        concurrency_fits(true, ApplicationProtocol::Tcp),
        !concurrency_fits(true, ApplicationProtocol::Rtu),
        !concurrency_fits(true, ApplicationProtocol::Ascii),
        concurrency_fits(false, ApplicationProtocol::Tcp),
        concurrency_fits(false, ApplicationProtocol::Rtu),
        concurrency_fits(false, ApplicationProtocol::Ascii),
{
}

/// A UDP client listens to the port it talks to, and there to the address it talks to,
/// unless that is the one for all addresses. Nothing else about an address counts.
pub proof fn law_udp_listening(remote: PeerAddr, from: PeerAddr)
    ensures
        remote.port != from.port ==> !listens_to(remote, from),
        remote.port == from.port && remote.ip == from.ip ==> listens_to(remote, from),
        remote.port == from.port && (remote.ip == PeerIp::V4(0) || remote.ip == PeerIp::V6(0))
            ==> listens_to(remote, from),
        remote.port == from.port && remote.ip != from.ip && remote.ip != PeerIp::V4(0) && remote.ip
            != PeerIp::V6(0) ==> !listens_to(remote, from),
{
}

/// A setting counts if it was made, and else the default does.
pub proof fn law_settings(configured: Option<String>, default: Seq<char>)
    ensures
        configured matches Some(text) ==> configured_or(configured, default) == text@,
        configured is None ==> configured_or(configured, default) == default,
{
}

/// A layer can be opened unless it is destroyed, open or being opened; the first of these
/// that holds is told. What an attempt to open, its end, the end of a session and the end
/// of the layer change is only this.
pub proof fn law_life(life: Lifecycle)
    ensures
        life.is_destroyed ==> life.open_refused() == Some(ModbusError::PortDestroyed),
        !life.is_destroyed && (life.is_open || life.is_opening) ==> life.open_refused() == Some(
            ModbusError::PortAlreadyOpen,
        ),
        !life.is_destroyed && !life.is_open && !life.is_opening ==> life.open_refused() is None,
        life.open_refused() is Some ==> life.after(LifeStep::Open) == life,
        life.open_refused() is None ==> life.after(LifeStep::Open).is_opening && !life.after(
            LifeStep::Open,
        ).is_open && !life.after(LifeStep::Open).is_destroyed,
        !life.after(LifeStep::OpenFailed).is_opening,
        life.after(LifeStep::OpenFailed).is_open == life.is_open,
        life.after(LifeStep::OpenFailed).is_destroyed == life.is_destroyed,
        life.after(LifeStep::Opened).is_open,
        !life.after(LifeStep::Opened).is_opening,
        life.after(LifeStep::Opened).is_destroyed == life.is_destroyed,
        !life.after(LifeStep::End).is_open,
        life.after(LifeStep::End).is_opening == life.is_opening,
        life.after(LifeStep::End).is_destroyed == life.is_destroyed,
        life.after(LifeStep::Destroy).is_destroyed,
        life.after(LifeStep::Destroy).is_open == life.is_open,
        life.after(LifeStep::Destroy).is_opening == life.is_opening,
{
}

/// At the end of a session its connection is told once, and the layer; when there was none,
/// nothing is told.
pub proof fn law_session_ends(
    was_open: bool,
    connection: Option<ConnectionId>,
    events: CloseEvents,
)
    requires
        session_ended(was_open, connection, events),
    ensures
        events.closed == was_open,
        was_open && connection is Some ==> events.connections@.len() == 1
            && events.connections@[0] == connection->0,
        !was_open || connection is None ==> events.connections@.len() == 0,
        !was_open <==> quiet(events),
{
}

/// Each client of a server that ends is told once, and nobody else.
pub proof fn law_clients_are_told(ids: Seq<ConnectionId>, clients: Set<Seq<char>>, c: Seq<char>)
    requires
        lists_once(ids, clients),
    ensures
        clients.contains(c) <==> exists|i: int| 0 <= i < ids.len() && (#[trigger] ids[i])@ == c,
        forall|i: int, j: int|
            0 <= i < ids.len() && 0 <= j < ids.len() && (#[trigger] ids[i])@ == c && (
            #[trigger] ids[j])@ == c ==> i == j,
{
    assert forall|i: int, j: int|
        0 <= i < ids.len() && 0 <= j < ids.len() && (#[trigger] ids[i])@ == c && (
        #[trigger] ids[j])@ == c implies i == j by {
        if i < j {
            assert(ids[i]@ != ids[j]@);
        } else if j < i {
            assert(ids[j]@ != ids[i]@);
        }
    }
}

/// For each peer of a UDP layer that ends, its connection is told, and there are no more
/// of them than peers.
pub proof fn law_peers_are_told(
    events: Seq<ConnectionId>,
    peers: Map<PeerAddr, ConnectionId>,
    p: PeerAddr,
)
    requires
        tells_each(events, peers),
        peers.dom().contains(p),
    ensures
        exists|i: int| 0 <= i < events.len() && #[trigger] events[i] == peers[p],
        events.len() == peers.dom().len(),
        forall|i: int|
            0 <= i < events.len() ==> exists|q: PeerAddr| #[trigger]
                peers.dom().contains(q) && peers[q] == #[trigger] events[i],
{
    let order = choose|order: Seq<PeerAddr>|
        {
            &&& order.len() == events.len()
            &&& order.no_duplicates()
            &&& forall|i: int|
                0 <= i < order.len() ==> peers.dom().contains(#[trigger] order[i])
                    && peers[order[i]] == events[i]
            &&& forall|p: PeerAddr| #[trigger] peers.dom().contains(p) ==> order.contains(p)
        };
    assert(order.contains(p));
    let i = choose|i: int| 0 <= i < order.len() && order[i] == p;
    assert(events[i] == peers[p]);
    assert forall|i: int| 0 <= i < events.len() implies exists|q: PeerAddr| #[trigger]
        peers.dom().contains(q) && peers[q] == #[trigger] events[i] by {
        assert(peers.dom().contains(order[i]) && peers[order[i]] == events[i]);
    }
    assert(order.to_set() =~= peers.dom()) by {
        assert forall|q: PeerAddr| order.to_set().contains(q) <==> peers.dom().contains(q) by {
            if order.to_set().contains(q) {
                let k = choose|k: int| 0 <= k < order.len() && order[k] == q;
                assert(peers.dom().contains(order[k]));
            }
        }
    }
    order.unique_seq_to_set();
}

/// An error about the state says it in its own words.
pub proof fn law_state_errors(err: ModbusError, words: Seq<char>)
    ensures
        invalid_state(err, words) <==> (err matches ModbusError::InvalidState(t) && t@ == words),
{
}

/// A lock is in use exactly while a call uses it, and a call uses the locks that it entered
/// with.
pub proof fn law_locks_in_use(table: LockTable, address: u16)
    ensures
        table.in_use(address) <==> exists|t: int|
            (#[trigger] table.call(t)) is Some && table.call(t)->0.contains(address),
{
    if table.in_use(address) {
        let t = choose|t: int| #[trigger] table.uses(t, address);
        assert(table.call(t) is Some);
    }
    if exists|t: int| (#[trigger] table.call(t)) is Some && table.call(t)->0.contains(address) {
        let t = choose|t: int|
            (#[trigger] table.call(t)) is Some && table.call(t)->0.contains(address);
        assert(table.uses(t, address));
    }
}

} // verus!
