//! Modbus TCP: data units behind an MBAP header.
use vstd::prelude::*;

use crate::error::ModbusError;
use crate::layers::application::{
    error_free, events_of, role_set, set_role_impl, ApplicationProtocol, ApplicationRole, Event,
    FrameEvent, Scan,
};
use crate::layers::physical::ConnectionId;
use crate::table::Table;
use crate::types::{Adu, ApplicationDataUnit, FramedAdu, FramedDataUnit};
use crate::utils::{
    append_bytes, be_bytes, be_word_at, copy_all, copy_range, from_bytes, hi_byte,
    law_word_round_trip, lo_byte,
};

verus! {

/// Longest frame, header included.
pub const MAX_TCP_FRAME: usize = 260;

/// What stands at the front of a byte stream.
#[derive(Debug, Clone, Copy, PartialEq, Eq, Structural)]
pub enum ExtractResult {
    /// A complete frame of this many bytes.
    Frame(usize),
    /// The beginning of a frame.
    Insufficient,
    /// No frame.
    Invalid,
}

/// What stands at the front of `buffer`. The header holds the transaction id,
/// the protocol id, which is zero, and the number of bytes that follow.
pub open spec fn tcp_front(buffer: Seq<u8>) -> ExtractResult {
    if buffer.len() < 8 {
        ExtractResult::Insufficient
    } else if be_word_at(buffer, 2) != 0 {
        ExtractResult::Invalid
    } else {
        let length = be_word_at(buffer, 4);
        if length < 2 || 6 + length > MAX_TCP_FRAME {
            ExtractResult::Invalid
        } else if buffer.len() < 6 + length {
            ExtractResult::Insufficient
        } else {
            ExtractResult::Frame((6 + length) as usize)
        }
    }
}

/// The data unit in a frame.
pub open spec fn tcp_adu(frame: Seq<u8>) -> Adu {
    Adu {
        transaction: Some(be_word_at(frame, 0)),
        unit: frame[6],
        fc: frame[7],
        data: frame.skip(8),
    }
}

/// The frames of a byte stream. Where no frame can follow, everything that is
/// left is dropped and reported as one error.
pub open spec fn tcp_scan(buffer: Seq<u8>) -> Scan
    decreases buffer.len(),
{
    match tcp_front(buffer) {
        ExtractResult::Frame(total) => {
            let frame = buffer.take(total as int);
            if 0 < total <= buffer.len() {
                tcp_scan(buffer.skip(total as int)).after(
                    Event::Framing(FramedAdu { adu: tcp_adu(frame), raw: frame }),
                )
            } else {
                Scan { events: Seq::empty(), rest: buffer }
            }
        },
        ExtractResult::Insufficient => Scan { events: Seq::empty(), rest: buffer },
        ExtractResult::Invalid => Scan {
            events: seq![Event::FramingError(ModbusError::InvalidData)],
            rest: Seq::empty(),
        },
    }
}

/// The frame that carries `adu` under the transaction id `transaction`.
pub open spec fn tcp_frame(transaction: u16, adu: Adu) -> Seq<u8> {
    be_bytes(transaction) + seq![0u8, 0u8] + be_bytes(((adu.data.len() + 2) % 0x1_0000) as u16)
        + seq![adu.unit, adu.fc] + adu.data
}

/// The data unit in `data`, which has to be exactly one frame.
pub open spec fn tcp_decoded(data: Seq<u8>) -> Result<Adu, ModbusError> {
    if data.len() < 8 {
        Err(ModbusError::InsufficientData)
    } else if be_word_at(data, 2) != 0 || be_word_at(data, 4) + 6 != data.len() {
        Err(ModbusError::InvalidData)
    } else {
        Ok(tcp_adu(data))
    }
}

fn try_extract_frame(buffer: &[u8]) -> (r: ExtractResult)
    ensures
        r == tcp_front(buffer@),
{
    if buffer.len() < 8 {
        return ExtractResult::Insufficient;
    }
    if buffer[2] != 0 || buffer[3] != 0 {
        return ExtractResult::Invalid;
    }
    let length: usize = from_bytes(buffer[4], buffer[5]) as usize;
    let total: usize = 6 + length;
    if total > MAX_TCP_FRAME || length < 2 {
        return ExtractResult::Invalid;
    }
    if buffer.len() < total {
        return ExtractResult::Insufficient;
    }
    ExtractResult::Frame(total)
}

/// The data unit in the frame `data`.
fn adu_of_frame(data: &[u8]) -> (r: ApplicationDataUnit)
    requires
        data@.len() >= 8,
    ensures
        r@ == tcp_adu(data@),
{
    let r = ApplicationDataUnit {
        transaction: Some(from_bytes(data[0], data[1])),
        unit: data[6],
        fc: data[7],
        data: copy_range(data, 8, data.len()),
    };
    assert(r@.data =~= data@.skip(8));
    r
}

fn decode_inner(data: &[u8]) -> (r: Result<ApplicationDataUnit, ModbusError>)
    ensures
        match tcp_decoded(data@) {
            Ok(adu) => r matches Ok(a) && a@ == adu,
            Err(e) => r matches Err(f) && f == e,
        },
{
    if data.len() < 8 {
        return Err(ModbusError::InsufficientData);
    }
    if data[2] != 0 || data[3] != 0 {
        return Err(ModbusError::InvalidData);
    }
    let len: usize = from_bytes(data[4], data[5]) as usize;
    if len + 6 != data.len() {
        return Err(ModbusError::InvalidData);
    }
    Ok(adu_of_frame(data))
}

/// The header's length field for `data_len` data bytes.
fn length_field(data_len: usize) -> (r: u16)
    ensures
        r == (data_len + 2) % 0x1_0000,
{
    ((data_len % 0x1_0000 + 2) % 0x1_0000) as u16
}

/// The frame that carries `adu` under the transaction id `transaction`.
fn build_frame(transaction: u16, adu: &ApplicationDataUnit) -> (r: Vec<u8>)
    ensures
        r@ == tcp_frame(transaction, adu@),
{
    let length: u16 = length_field(adu.data.len());
    let mut buf: Vec<u8> = Vec::new();
    buf.push(hi_byte(transaction));
    buf.push(lo_byte(transaction));
    buf.push(0);
    buf.push(0);
    buf.push(hi_byte(length));
    buf.push(lo_byte(length));
    buf.push(adu.unit);
    buf.push(adu.fc);
    assert(buf@ =~= be_bytes(transaction) + seq![0u8, 0u8] + be_bytes(length) + seq![
        adu.unit,
        adu.fc,
    ]);
    append_bytes(&mut buf, &adu.data);
    buf
}

/// The application layer of Modbus TCP.
pub struct TcpApplicationLayer {
    role: Option<ApplicationRole>,
    transaction_id: u16,
    buffers: Table<ConnectionId, Vec<u8>>,
    destroyed: bool,
}

impl TcpApplicationLayer {
    pub closed spec fn wf(&self) -> bool {
        &&& self.buffers.wf()
        &&& forall|c: Seq<char>| #[trigger]
            self.buffers@.dom().contains(c) ==> 0 < self.buffers@[c]@.len() < MAX_TCP_FRAME
    }

    /// The bytes of connection `c` that wait for more.
    pub closed spec fn pending(&self, c: Seq<char>) -> Seq<u8> {
        if self.buffers@.dom().contains(c) {
            self.buffers@[c]@
        } else {
            Seq::empty()
        }
    }

    pub closed spec fn bound_role(&self) -> Option<ApplicationRole> {
        self.role
    }

    /// The transaction id that was given out last.
    pub closed spec fn last_transaction(&self) -> u16 {
        self.transaction_id
    }

    /// The layer has been destroyed.
    pub closed spec fn is_destroyed(&self) -> bool {
        self.destroyed
    }

    pub fn new() -> (r: Self)
        ensures
            r.wf(),
            r.bound_role() is None,
            r.last_transaction() == 0,
            !r.is_destroyed(),
            forall|c: Seq<char>| #[trigger] r.pending(c) == Seq::<u8>::empty(),
    {
        TcpApplicationLayer {
            role: None,
            transaction_id: 0,
            buffers: Table::new(),
            destroyed: false,
        }
    }

    pub fn set_role(&mut self, role: ApplicationRole) -> (r: Result<(), ModbusError>)
        ensures
            role_set(old(self).bound_role(), final(self).bound_role(), role, r),
            final(self).wf() == old(self).wf(),
            final(self).last_transaction() == old(self).last_transaction(),
            final(self).is_destroyed() == old(self).is_destroyed(),
            forall|c: Seq<char>| #[trigger] final(self).pending(c) == old(self).pending(c),
    {
        set_role_impl(&mut self.role, role)
    }

    pub fn role(&self) -> (r: Option<ApplicationRole>)
        ensures
            r == self.bound_role(),
    {
        self.role
    }

    pub fn protocol(&self) -> (r: ApplicationProtocol)
        ensures
            r == ApplicationProtocol::Tcp,
    {
        ApplicationProtocol::Tcp
    }

    /// The frame that carries `adu`. A data unit without a transaction id gets
    /// the next one, counting from 1.
    pub fn encode(&mut self, adu: &ApplicationDataUnit) -> (r: Vec<u8>)
        ensures
            match adu.transaction {
                Some(t) => {
                    &&& r@ == tcp_frame(t, adu@)
                    &&& final(self).last_transaction() == old(self).last_transaction()
                },
                None => {
                    &&& r@ == tcp_frame(final(self).last_transaction(), adu@)
                    &&& final(self).last_transaction() == (old(self).last_transaction() + 1)
                        % 0x1_0000
                },
            },
            final(self).wf() == old(self).wf(),
            final(self).bound_role() == old(self).bound_role(),
            final(self).is_destroyed() == old(self).is_destroyed(),
            forall|c: Seq<char>| #[trigger] final(self).pending(c) == old(self).pending(c),
    {
        let transaction: u16 = match adu.transaction {
            Some(t) => t,
            None => {
                self.transaction_id = self.transaction_id.wrapping_add(1);
                self.transaction_id
            },
        };
        build_frame(transaction, adu)
    }

    /// Decode `data`, which has to be exactly one frame.
    pub fn decode(&self, data: &[u8]) -> (r: Result<FramedDataUnit, ModbusError>)
        ensures
            match tcp_decoded(data@) {
                Ok(adu) => r matches Ok(f) && f@ == (FramedAdu { adu, raw: data@ }),
                Err(e) => r matches Err(f) && f == e,
            },
    {
        match decode_inner(data) {
            Ok(adu) => Ok(FramedDataUnit { adu, raw: copy_all(data) }),
            Err(e) => Err(e),
        }
    }

    /// Bytes arrived on `connection`: report the frames that are complete now.
    pub fn process_data_event(&mut self, data: &[u8], connection: &ConnectionId) -> (r: Vec<
        FrameEvent,
    >)
        requires
            old(self).wf(),
        ensures
            final(self).wf(),
            events_of(r@) == tcp_scan(old(self).pending(connection@) + data@).events,
            final(self).pending(connection@) == tcp_scan(
                old(self).pending(connection@) + data@,
            ).rest,
            forall|c: Seq<char>|
                c != connection@ ==> #[trigger] final(self).pending(c) == old(self).pending(c),
            final(self).bound_role() == old(self).bound_role(),
            final(self).last_transaction() == old(self).last_transaction(),
            final(self).is_destroyed() == old(self).is_destroyed(),
    {
        let mut buffer: Vec<u8> = match self.buffers.remove(connection) {
            Some(b) => b,
            None => Vec::new(),
        };
        assert(buffer@ =~= old(self).pending(connection@));
        append_bytes(&mut buffer, data);
        let ghost whole = tcp_scan(buffer@);
        let mut events: Vec<FrameEvent> = Vec::new();
        assert(events_of(events@) + whole.events =~= whole.events);
        let mut more: bool = true;
        while more
            invariant
                more ==> events_of(events@) + tcp_scan(buffer@).events == whole.events && tcp_scan(
                    buffer@,
                ).rest == whole.rest,
                !more ==> events_of(events@) == whole.events && buffer@ == whole.rest
                    && buffer@.len() < MAX_TCP_FRAME,
            decreases
                (if more {
                    1int
                } else {
                    0int
                }),
                buffer@.len(),
        {
            match try_extract_frame(&buffer) {
                ExtractResult::Frame(total) => {
                    let ghost before = buffer@;
                    let ghost seen = events_of(events@);
                    let tail: Vec<u8> = copy_range(&buffer, total, buffer.len());
                    let frame: Vec<u8> = copy_range(&buffer, 0, total);
                    assert(tail@ =~= before.skip(total as int));
                    assert(frame@ =~= before.take(total as int));
                    let adu: ApplicationDataUnit = adu_of_frame(&frame);
                    let event: FrameEvent = FrameEvent::Framing(FramedDataUnit { adu, raw: frame });
                    let ghost e = event@;
                    events.push(event);
                    buffer = tail;
                    proof {
                        assert(events_of(events@) =~= seen.push(e));
                        assert(tcp_scan(before) == tcp_scan(buffer@).after(e));
                        assert(seen + (seq![e] + tcp_scan(buffer@).events) =~= seen.push(e)
                            + tcp_scan(buffer@).events);
                    }
                },
                ExtractResult::Insufficient => {
                    assert(events_of(events@) + Seq::<Event>::empty() =~= events_of(events@));
                    more = false;
                },
                ExtractResult::Invalid => {
                    let ghost seen = events_of(events@);
                    events.push(FrameEvent::FramingError(ModbusError::InvalidData));
                    assert(events_of(events@) =~= seen + seq![
                        Event::FramingError(ModbusError::InvalidData),
                    ]);
                    buffer = Vec::new();
                    assert(buffer@ =~= Seq::<u8>::empty());
                    more = false;
                },
            }
        }
        if buffer.len() > 0 {
            self.buffers.insert(connection.clone(), buffer);
        }
        assert(final(self).pending(connection@) =~= whole.rest);
        events
    }

    /// The connection is gone: forget its bytes.
    pub fn connection_closed(&mut self, connection: &ConnectionId)
        requires
            old(self).wf(),
        ensures
            final(self).wf(),
            final(self).pending(connection@) == Seq::<u8>::empty(),
            forall|c: Seq<char>|
                c != connection@ ==> #[trigger] final(self).pending(c) == old(self).pending(c),
            final(self).bound_role() == old(self).bound_role(),
            final(self).last_transaction() == old(self).last_transaction(),
            final(self).is_destroyed() == old(self).is_destroyed(),
    {
        self.buffers.remove(connection);
    }

    /// Forget the bytes of all connections.
    pub fn flush(&mut self)
        ensures
            final(self).wf(),
            forall|c: Seq<char>| #[trigger] final(self).pending(c) == Seq::<u8>::empty(),
            final(self).bound_role() == old(self).bound_role(),
            final(self).last_transaction() == old(self).last_transaction(),
            final(self).is_destroyed() == old(self).is_destroyed(),
    {
        self.buffers.clear();
    }

    /// Forget the bytes of all connections, for good. The result tells whether to
    /// stop listening to the layer below; a second time there is nothing to do.
    pub fn destroy(&mut self) -> (r: bool)
        requires
            old(self).wf(),
        ensures
            final(self).wf(),
            r == !old(self).is_destroyed(),
            final(self).is_destroyed(),
            forall|c: Seq<char>| #[trigger]
                final(self).pending(c) == if r {
                    Seq::empty()
                } else {
                    old(self).pending(c)
                },
            final(self).bound_role() == old(self).bound_role(),
            final(self).last_transaction() == old(self).last_transaction(),
    {
        if self.destroyed {
            return false;
        }
        self.destroyed = true;
        self.buffers.clear();
        true
    }
}

/// Decoding what was encoded gives the data unit back, under the transaction id
/// that the frame carries. (With more than 65533 data bytes the header's length
/// field wraps around.)
pub proof fn law_tcp_round_trip(transaction: u16, adu: Adu)
    requires
        adu.data.len() + 2 < 0x1_0000,
    ensures
        tcp_decoded(tcp_frame(transaction, adu)) == Ok::<Adu, ModbusError>(
            Adu { transaction: Some(transaction), ..adu },
        ),
{
    let frame = tcp_frame(transaction, adu);
    law_word_round_trip(transaction, 0, 0);
    law_word_round_trip((adu.data.len() + 2) as u16, 0, 0);
    assert(frame.skip(8) =~= adu.data);
}

/// A frame that fits the size limit is taken from the stream as soon as it is
/// complete, and what follows it is scanned as if it came first.
pub proof fn law_tcp_frame_is_found(transaction: u16, adu: Adu, more: Seq<u8>)
    requires
        8 + adu.data.len() <= MAX_TCP_FRAME,
    ensures
        tcp_scan(tcp_frame(transaction, adu) + more) == tcp_scan(more).after(
            Event::Framing(
                FramedAdu {
                    adu: Adu { transaction: Some(transaction), ..adu },
                    raw: tcp_frame(transaction, adu),
                },
            ),
        ),
{
    let frame = tcp_frame(transaction, adu);
    let buffer = frame + more;
    law_tcp_round_trip(transaction, adu);
    law_word_round_trip((adu.data.len() + 2) as u16, 0, 0);
    assert(buffer.take(frame.len() as int) =~= frame);
    assert(buffer.skip(frame.len() as int) =~= more);
    assert(be_word_at(buffer, 2) == 0);
    assert(be_word_at(buffer, 4) == adu.data.len() + 2);
    assert(tcp_front(buffer) == ExtractResult::Frame(frame.len() as usize));
}

/// It does not matter how a stream is cut into chunks: as long as the first
/// chunk brings no error, scanning it and then the rest finds the frames that
/// scanning both at once finds, and leaves the same bytes.
pub proof fn law_tcp_chunks(a: Seq<u8>, b: Seq<u8>)
    requires
        error_free(tcp_scan(a).events),
    ensures
        tcp_scan(a + b).events == tcp_scan(a).events + tcp_scan(tcp_scan(a).rest + b).events,
        tcp_scan(a + b).rest == tcp_scan(tcp_scan(a).rest + b).rest,
    decreases a.len(),
{
    match tcp_front(a) {
        ExtractResult::Frame(total) => {
            let n = total as int;
            let tail = a.skip(n);
            assert(tcp_front(a + b) == tcp_front(a));
            assert((a + b).skip(n) =~= tail + b);
            assert((a + b).take(n) =~= a.take(n));
            let first = tcp_scan(a).events[0];
            assert(tcp_scan(a).events.skip(1) =~= tcp_scan(tail).events);
            assert(tcp_scan(a) == tcp_scan(tail).after(first));
            assert(tcp_scan(a + b) == tcp_scan(tail + b).after(first));
            assert forall|i: int| 0 <= i < tcp_scan(tail).events.len() implies (
            #[trigger] tcp_scan(tail).events[i]) is Framing by {
                assert(tcp_scan(a).events[i + 1] is Framing);
            }
            law_tcp_chunks(tail, b);
            assert(tcp_scan(a + b).events =~= tcp_scan(a).events + tcp_scan(
                tcp_scan(a).rest + b,
            ).events);
        },
        ExtractResult::Insufficient => {
            assert(tcp_scan(a).rest == a);
            assert(tcp_scan(a + b).events =~= tcp_scan(a).events + tcp_scan(a + b).events);
        },
        ExtractResult::Invalid => {
            assert(!(tcp_scan(a).events[0] is Framing));
        },
    }
}

/// The bytes that wait for more are always fewer than the longest frame has.
pub proof fn law_tcp_rest_bounded(buffer: Seq<u8>)
    ensures
        tcp_scan(buffer).rest.len() < MAX_TCP_FRAME,
    decreases buffer.len(),
{
    match tcp_front(buffer) {
        ExtractResult::Frame(total) => {
            law_tcp_rest_bounded(buffer.skip(total as int));
        },
        _ => {},
    }
}

} // verus!
