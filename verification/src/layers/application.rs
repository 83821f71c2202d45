//! Application layers: they turn data units into bytes and byte streams into
//! data units.
use vstd::prelude::*;

use crate::error::ModbusError;
use crate::layers::physical::ConnectionId;
use crate::types::{ApplicationDataUnit, FramedAdu, FramedDataUnit};

pub mod ascii;
pub mod rtu;
pub mod tcp;

pub use self::ascii::{AsciiApplicationLayer, AsciiApplicationLayerOptions};
pub use self::rtu::{FrameInterval, RtuApplicationLayer, RtuApplicationLayerOptions};
pub use self::tcp::TcpApplicationLayer;

verus! {

/// Which side an application layer serves. In RTU a request and a response
/// with the same function code may have different lengths, so the framing
/// depends on it.
#[derive(Clone, Copy, Debug, PartialEq, Eq, Structural)]
pub enum ApplicationRole {
    Master,
    Slave,
}

impl ApplicationRole {
    /// The name of this role.
    pub open spec fn name(self) -> Seq<char> {
        match self {
            ApplicationRole::Master => "Master"@,
            ApplicationRole::Slave => "Slave"@,
        }
    }

    fn name_str(self) -> (r: &'static str)
        ensures
            r@ == self.name(),
    {
        match self {
            ApplicationRole::Master => "Master",
            ApplicationRole::Slave => "Slave",
        }
    }
}

/// The complaint about a layer that serves `existing` and is asked to serve
/// `role`.
pub open spec fn role_conflict(existing: ApplicationRole, role: ApplicationRole) -> Seq<char> {
    "application layer role already set to "@ + existing.name() + ", cannot change to "@
        + role.name()
}

/// What setting the role `role` gives for a layer whose role is `current`.
pub open spec fn role_set(
    before: Option<ApplicationRole>,
    after: Option<ApplicationRole>,
    role: ApplicationRole,
    result: Result<(), ModbusError>,
) -> bool {
    if before is None || before == Some(role) {
        result is Ok && after == Some(role)
    } else {
        &&& after == before
        &&& result matches Err(ModbusError::InvalidState(text)) && text@ == role_conflict(
            before->0,
            role,
        )
    }
}

/// Bind a layer to a role. The first call settles the role; setting the same
/// role again changes nothing; setting the other one is refused.
pub(crate) fn set_role_impl(
    current: &mut Option<ApplicationRole>,
    role: ApplicationRole,
) -> (r: Result<(), ModbusError>)
    ensures
        role_set(*old(current), *final(current), role, r),
{
    match *current {
        Some(existing) => {
            if existing == role {
                Ok(())
            } else {
                let mut text: String = "application layer role already set to ".to_owned();
                text.append(existing.name_str());
                text.append(", cannot change to ");
                text.append(role.name_str());
                Err(ModbusError::InvalidState(text))
            }
        },
        None => {
            *current = Some(role);
            Ok(())
        },
    }
}

/// Wire protocol of an application layer.
#[derive(Clone, Copy, Debug, PartialEq, Eq, Structural)]
pub enum ApplicationProtocol {
    Tcp,
    Rtu,
    Ascii,
}

/// Several requests may be under way at once only where transaction ids tell
/// their answers apart.
pub open spec fn concurrency_fits(concurrent: bool, protocol: ApplicationProtocol) -> bool {
    concurrent ==> protocol == ApplicationProtocol::Tcp
}

/// Whether a master or slave with the given setting can use a layer of the
/// given protocol.
pub fn supports_concurrency(concurrent: bool, protocol: ApplicationProtocol) -> (r: bool)
    ensures
        r == concurrency_fits(concurrent, protocol),
{
    !concurrent || protocol == ApplicationProtocol::Tcp
}

/// A data unit taken from a connection, with the bytes it was read from and
/// the handle `response` by which an answer goes back.
pub struct Framing<R> {
    pub adu: ApplicationDataUnit,
    pub raw: Vec<u8>,
    pub response: R,
    pub connection: ConnectionId,
}

impl<R: Clone> Clone for Framing<R> {
    fn clone(&self) -> (r: Self)
        ensures
            r.adu@ == self.adu@,
            r.raw@ == self.raw@,
            call_ensures(R::clone, (&self.response,), r.response),
            r.connection == self.connection,
    {
        Framing {
            adu: self.adu.clone(),
            raw: crate::utils::copy_all(&self.raw),
            response: self.response.clone(),
            connection: self.connection.clone(),
        }
    }
}

/// What an application layer reports of the bytes it is given.
#[derive(Debug)]
pub enum FrameEvent {
    /// A complete frame arrived.
    Framing(FramedDataUnit),
    /// Bytes arrived that make up no frame.
    FramingError(ModbusError),
}

/// The contents of a [`FrameEvent`].
pub enum Event {
    Framing(FramedAdu),
    FramingError(ModbusError),
}

impl View for FrameEvent {
    type V = Event;

    open spec fn view(&self) -> Event {
        match self {
            FrameEvent::Framing(frame) => Event::Framing(frame@),
            FrameEvent::FramingError(err) => Event::FramingError(*err),
        }
    }
}

/// The contents of a list of events.
pub open spec fn events_of(events: Seq<FrameEvent>) -> Seq<Event> {
    events.map_values(|e: FrameEvent| e@)
}

/// No event reports an error.
pub open spec fn error_free(events: Seq<Event>) -> bool {
    forall|i: int| 0 <= i < events.len() ==> (#[trigger] events[i]) is Framing
}

/// What remains of a byte stream after the frames in it were taken out.
pub struct Scan {
    /// The frames and errors, in the order in which they are reported.
    pub events: Seq<Event>,
    /// The bytes that wait for more.
    pub rest: Seq<u8>,
}

impl Scan {
    /// This scan, with the event `e` before all others.
    pub open spec fn after(self, e: Event) -> Scan {
        Scan { events: seq![e] + self.events, rest: self.rest }
    }
}

/// The bytes of `chunks`, one behind the other.
pub open spec fn stream_of(chunks: Seq<Seq<u8>>) -> Seq<u8>
    decreases chunks.len(),
{
    if chunks.len() == 0 {
        Seq::empty()
    } else {
        stream_of(chunks.drop_last()) + chunks.last()
    }
}

/// The frames among `events`, in their order.
pub open spec fn framings(events: Seq<Event>) -> Seq<Event>
    decreases events.len(),
{
    if events.len() == 0 {
        Seq::empty()
    } else if events.last() is Framing {
        framings(events.drop_last()).push(events.last())
    } else {
        framings(events.drop_last())
    }
}

pub(crate) proof fn lemma_framings_join(a: Seq<Event>, b: Seq<Event>)
    ensures
        framings(a + b) == framings(a) + framings(b),
    decreases b.len(),
{
    if b.len() == 0 {
        assert(a + b =~= a);
        assert(framings(a) + framings(b) =~= framings(a));
    } else {
        lemma_framings_join(a, b.drop_last());
        assert((a + b).drop_last() =~= a + b.drop_last());
        assert(framings(a + b) =~= framings(a) + framings(b));
    }
}

pub(crate) proof fn lemma_no_framings(events: Seq<Event>)
    requires
        forall|i: int| 0 <= i < events.len() ==> (#[trigger] events[i]) is FramingError,
    ensures
        framings(events) == Seq::<Event>::empty(),
    decreases events.len(),
{
    if events.len() > 0 {
        let init = events.drop_last();
        assert forall|i: int| 0 <= i < init.len() implies (#[trigger] init[i]) is FramingError by {
            assert(init[i] == events[i]);
        }
        lemma_no_framings(init);
        assert(events[events.len() - 1] is FramingError);
    }
}

} // verus!
