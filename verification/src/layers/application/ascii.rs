//! Modbus ASCII: data units as hex digits between a colon and a line end.
use vstd::prelude::*;

use crate::error::ModbusError;
use crate::layers::application::{
    events_of, framings, lemma_framings_join, lemma_no_framings, role_set, set_role_impl,
    stream_of, ApplicationProtocol, ApplicationRole, Event, FrameEvent,
};
use crate::layers::physical::ConnectionId;
use crate::table::Table;
use crate::types::{Adu, ApplicationDataUnit, FramedAdu, FramedDataUnit};
use crate::utils::{append_bytes, copy_all, copy_range, lrc, lrc_of};

verus! {

pub const COLON: u8 = 0x3a;

pub const CR: u8 = 0x0d;

pub const LF: u8 = 0x0a;

/// Most characters between the colon and the line end that are kept. A frame
/// carries at most 256 bytes, which is 512 hex digits; a peer that never ends
/// its line cannot make the buffer grow beyond that.
pub const MAX_ASCII_PAYLOAD: usize = 512;

/// Settings of an [`AsciiApplicationLayer`].
#[derive(Clone, Copy, Debug)]
pub struct AsciiApplicationLayerOptions {
    /// Accept lowercase hex digits as well. The standard has uppercase only,
    /// but some devices send lowercase.
    pub lenient_hex: bool,
}

impl Default for AsciiApplicationLayerOptions {
    fn default() -> (r: Self)
        ensures
            !r.lenient_hex,
    {
        AsciiApplicationLayerOptions { lenient_hex: false }
    }
}

/// `c` is one of the digits 0 to 9 or the letters A to F.
pub open spec fn is_upper_hex(c: u8) -> bool {
    0x30 <= c <= 0x39 || 0x41 <= c <= 0x46
}

/// `c` is one of the letters a to f.
pub open spec fn is_lower_hex(c: u8) -> bool {
    0x61 <= c <= 0x66
}

/// The character `c` is accepted as a hex digit.
pub open spec fn accepted_hex(c: u8, lenient: bool) -> bool {
    is_upper_hex(c) || (lenient && is_lower_hex(c))
}

/// The value of a hex digit, in either case.
pub open spec fn hex_value(c: u8) -> int {
    if c <= 0x39 {
        c - 0x30
    } else if c <= 0x46 {
        c - 0x41 + 10
    } else {
        c - 0x61 + 10
    }
}

/// Every character is a hex digit, in either case.
pub open spec fn all_hex(payload: Seq<u8>) -> bool {
    forall|i: int| 0 <= i < payload.len() ==> accepted_hex(#[trigger] payload[i], true)
}

/// The bytes that hex digits stand for, two digits to a byte.
pub open spec fn hex_bytes(payload: Seq<u8>) -> Seq<u8> {
    Seq::new(
        payload.len() / 2,
        |i: int| (16 * hex_value(payload[2 * i]) + hex_value(payload[2 * i + 1])) as u8,
    )
}

/// The uppercase hex digit for `n`.
pub open spec fn hex_char(n: int) -> u8 {
    if n < 10 {
        (0x30 + n) as u8
    } else {
        (0x41 + n - 10) as u8
    }
}

/// Bytes as uppercase hex digits, two digits to a byte.
pub open spec fn hex_text(bytes: Seq<u8>) -> Seq<u8> {
    Seq::new(
        2 * bytes.len(),
        |i: int|
            if i % 2 == 0 {
                hex_char(bytes[i / 2] as int / 16)
            } else {
                hex_char(bytes[i / 2] as int % 16)
            },
    )
}

/// The data unit in `payload`, the characters between the colon and the line
/// end: unit, function code, data and checksum.
pub open spec fn ascii_payload(payload: Seq<u8>) -> Result<Adu, ModbusError> {
    let bytes = hex_bytes(payload);
    if payload.len() % 2 != 0 {
        Err(ModbusError::InvalidData)
    } else if !all_hex(payload) {
        Err(ModbusError::InvalidHex)
    } else if bytes.len() < 3 {
        Err(ModbusError::InsufficientData)
    } else if bytes.last() != lrc_of(bytes.drop_last()) {
        Err(ModbusError::LrcCheckFailed)
    } else {
        Ok(
            Adu {
                transaction: None,
                unit: bytes[0],
                fc: bytes[1],
                data: bytes.subrange(2, bytes.len() - 1),
            },
        )
    }
}

/// `payload` with the characters that frame it.
pub open spec fn ascii_line(payload: Seq<u8>) -> Seq<u8> {
    seq![COLON] + payload + seq![CR, LF]
}

/// The bytes of a data unit that the checksum covers.
pub open spec fn ascii_body(adu: Adu) -> Seq<u8> {
    seq![adu.unit, adu.fc] + adu.data
}

/// The frame that carries `adu`.
pub open spec fn ascii_frame(adu: Adu) -> Seq<u8> {
    ascii_line(hex_text(ascii_body(adu).push(lrc_of(ascii_body(adu)))))
}

/// The data unit in `data`, which has to be exactly one frame.
pub open spec fn ascii_decoded(data: Seq<u8>) -> Result<Adu, ModbusError> {
    if data.len() < 9 {
        Err(ModbusError::InsufficientData)
    } else if data[0] != COLON || data[data.len() - 2] != CR || data[data.len() - 1] != LF {
        Err(ModbusError::InvalidData)
    } else {
        ascii_payload(data.subrange(1, data.len() - 2))
    }
}

/// Where the reception of a line stands.
#[derive(Clone, Copy, Debug, PartialEq, Eq, Structural)]
pub enum FsmStatus {
    /// Waiting for a colon.
    Idle,
    /// Collecting hex digits.
    Reception,
    /// A carriage return came; a line feed has to follow.
    WaitingEnd,
}

/// The reception state of a connection.
pub struct Reception {
    pub status: FsmStatus,
    /// The digits collected so far.
    pub frame: Seq<u8>,
}

/// The state before the first byte.
pub open spec fn idle() -> Reception {
    Reception { status: FsmStatus::Idle, frame: Seq::empty() }
}

/// What became of a run of bytes.
pub struct Run {
    pub state: Reception,
    /// Lines given up for their length.
    pub overflows: nat,
    /// Lines given up for a character that is no hex digit.
    pub invalid_hex: nat,
    /// The payloads of the complete lines.
    pub completed: Seq<Seq<u8>>,
}

/// The run after one more byte.
pub open spec fn ascii_step(run: Run, byte: u8, lenient: bool) -> Run {
    let reset = Reception { status: FsmStatus::Reception, frame: Seq::empty() };
    match run.state.status {
        FsmStatus::Idle => if byte == COLON {
            Run { state: reset, ..run }
        } else {
            run
        },
        FsmStatus::Reception => if byte == COLON {
            Run { state: reset, ..run }
        } else if byte == CR {
            Run {
                state: Reception { status: FsmStatus::WaitingEnd, frame: run.state.frame },
                ..run
            }
        } else if run.state.frame.len() >= MAX_ASCII_PAYLOAD {
            Run { state: idle(), overflows: run.overflows + 1, ..run }
        } else if !accepted_hex(byte, lenient) {
            Run { state: idle(), invalid_hex: run.invalid_hex + 1, ..run }
        } else {
            Run {
                state: Reception {
                    status: FsmStatus::Reception,
                    frame: run.state.frame.push(byte),
                },
                ..run
            }
        },
        FsmStatus::WaitingEnd => if byte == COLON {
            Run { state: reset, ..run }
        } else if byte == LF {
            Run { state: idle(), completed: run.completed.push(run.state.frame), ..run }
        } else {
            Run { state: idle(), ..run }
        },
    }
}

/// The run over all of `data`, from the state `start`.
pub open spec fn ascii_run(start: Reception, data: Seq<u8>, lenient: bool) -> Run
    decreases data.len(),
{
    if data.len() == 0 {
        Run { state: start, overflows: 0, invalid_hex: 0, completed: Seq::empty() }
    } else {
        ascii_step(ascii_run(start, data.drop_last(), lenient), data.last(), lenient)
    }
}

/// What is reported of a complete line.
pub open spec fn line_event(payload: Seq<u8>) -> Event {
    match ascii_payload(payload) {
        Ok(adu) => Event::Framing(FramedAdu { adu, raw: ascii_line(payload) }),
        Err(e) => Event::FramingError(e),
    }
}

/// What is reported of a run: first the lines that were too long, then those
/// with a bad character, then the complete lines in the order of their arrival.
pub open spec fn run_events(run: Run) -> Seq<Event> {
    Seq::new(run.overflows, |i: int| Event::FramingError(ModbusError::InvalidData)) + Seq::new(
        run.invalid_hex,
        |i: int| Event::FramingError(ModbusError::InvalidHex),
    ) + run.completed.map_values(|p: Seq<u8>| line_event(p))
}

/// The reception state of a connection.
struct ConnectionState {
    status: FsmStatus,
    frame: Vec<u8>,
}

impl View for ConnectionState {
    type V = Reception;

    closed spec fn view(&self) -> Reception {
        Reception { status: self.status, frame: self.frame@ }
    }
}

/// The value of one hex digit, in either case.
fn hex_digit(c: u8) -> (r: Option<u8>)
    ensures
        r is Some == accepted_hex(c, true),
        r matches Some(v) ==> v == hex_value(c) && v < 16,
{
    if c >= 0x30 && c <= 0x39 {
        Some(c - 0x30)
    } else if c >= 0x41 && c <= 0x46 {
        Some(c - 0x41 + 10)
    } else if c >= 0x61 && c <= 0x66 {
        Some(c - 0x61 + 10)
    } else {
        None
    }
}

fn hex_decode_byte(hi: u8, lo: u8) -> (r: Option<u8>)
    ensures
        r is Some == (accepted_hex(hi, true) && accepted_hex(lo, true)),
        r matches Some(b) ==> b == 16 * hex_value(hi) + hex_value(lo),
{
    match (hex_digit(hi), hex_digit(lo)) {
        (Some(h), Some(l)) => Some(h * 16 + l),
        _ => None,
    }
}

fn is_hex_char(b: u8, lenient: bool) -> (r: bool)
    ensures
        r == accepted_hex(b, lenient),
{
    (b >= 0x30 && b <= 0x39) || (b >= 0x41 && b <= 0x46) || (lenient && b >= 0x61 && b <= 0x66)
}

/// Decode the characters between the colon and the line end. The second part
/// of the result is the whole line.
fn decode_payload(payload: &[u8]) -> (r: Result<(ApplicationDataUnit, Vec<u8>), ModbusError>)
    ensures
        match ascii_payload(payload@) {
            Ok(adu) => r matches Ok(p) && p.0@ == adu && p.1@ == ascii_line(payload@),
            Err(e) => r matches Err(f) && f == e,
        },
{
    if payload.len() % 2 != 0 {
        return Err(ModbusError::InvalidData);
    }
    let mut bytes: Vec<u8> = Vec::new();
    let ghost all = hex_bytes(payload@);
    let mut i: usize = 0;
    while i < payload.len()
        invariant
            i <= payload@.len(),
            i % 2 == 0,
            payload@.len() % 2 == 0,
            all == hex_bytes(payload@),
            bytes@ == all.subrange(0, i as int / 2),
            forall|k: int| 0 <= k < i ==> accepted_hex(#[trigger] payload@[k], true),
        decreases payload@.len() - i,
    {
        match hex_decode_byte(payload[i], payload[i + 1]) {
            Some(b) => {
                bytes.push(b);
                assert(all[i as int / 2] == b);
            },
            None => {
                assert(!accepted_hex(payload@[i as int], true) || !accepted_hex(
                    payload@[i + 1],
                    true,
                ));
                return Err(ModbusError::InvalidHex);
            },
        }
        i += 2;
        assert(bytes@ =~= all.subrange(0, i as int / 2));
    }
    assert(bytes@ =~= all);
    if bytes.len() < 3 {
        return Err(ModbusError::InsufficientData);
    }
    let last: usize = bytes.len() - 1;
    let body: Vec<u8> = copy_range(&bytes, 0, last);
    assert(body@ =~= all.drop_last());
    if bytes[last] != lrc(&body) {
        return Err(ModbusError::LrcCheckFailed);
    }
    let adu = ApplicationDataUnit {
        transaction: None,
        unit: bytes[0],
        fc: bytes[1],
        data: copy_range(&bytes, 2, last),
    };
    let mut raw: Vec<u8> = Vec::new();
    raw.push(COLON);
    append_bytes(&mut raw, payload);
    raw.push(CR);
    raw.push(LF);
    assert(raw@ =~= ascii_line(payload@));
    Ok((adu, raw))
}

/// The uppercase hex digit for `n`.
fn hex_digit_char(n: u8) -> (r: u8)
    requires
        n < 16,
    ensures
        r == hex_char(n as int),
{
    if n < 10 {
        0x30 + n
    } else {
        0x41 + (n - 10)
    }
}

/// The application layer of Modbus ASCII.
pub struct AsciiApplicationLayer {
    role: Option<ApplicationRole>,
    states: Table<ConnectionId, ConnectionState>,
    pub lenient_hex: bool,
    destroyed: bool,
}

impl AsciiApplicationLayer {
    pub closed spec fn wf(&self) -> bool {
        &&& self.states.wf()
        &&& forall|c: Seq<char>| #[trigger]
            self.states@.dom().contains(c) ==> self.states@[c].status != FsmStatus::Idle
                && self.states@[c].frame@.len() <= MAX_ASCII_PAYLOAD
    }

    /// The reception state of connection `c`.
    pub closed spec fn state_of(&self, c: Seq<char>) -> Reception {
        if self.states@.dom().contains(c) {
            self.states@[c]@
        } else {
            idle()
        }
    }

    pub closed spec fn bound_role(&self) -> Option<ApplicationRole> {
        self.role
    }

    /// Lowercase hex digits are accepted.
    pub closed spec fn lenient(&self) -> bool {
        self.lenient_hex
    }

    /// The layer has been destroyed.
    pub closed spec fn is_destroyed(&self) -> bool {
        self.destroyed
    }

    pub fn new() -> (r: Self)
        ensures
            r.wf(),
            r.bound_role() is None,
            !r.lenient(),
            !r.is_destroyed(),
            forall|c: Seq<char>| #[trigger] r.state_of(c) == idle(),
    {
        AsciiApplicationLayer::with_options(AsciiApplicationLayerOptions::default())
    }

    pub fn with_options(options: AsciiApplicationLayerOptions) -> (r: Self)
        ensures
            r.wf(),
            r.bound_role() is None,
            r.lenient() == options.lenient_hex,
            !r.is_destroyed(),
            forall|c: Seq<char>| #[trigger] r.state_of(c) == idle(),
    {
        AsciiApplicationLayer {
            role: None,
            states: Table::new(),
            lenient_hex: options.lenient_hex,
            destroyed: false,
        }
    }

    pub fn set_role(&mut self, role: ApplicationRole) -> (r: Result<(), ModbusError>)
        ensures
            role_set(old(self).bound_role(), final(self).bound_role(), role, r),
            final(self).wf() == old(self).wf(),
            final(self).lenient() == old(self).lenient(),
            final(self).is_destroyed() == old(self).is_destroyed(),
            forall|c: Seq<char>| #[trigger] final(self).state_of(c) == old(self).state_of(c),
    {
        set_role_impl(&mut self.role, role)
    }

    pub fn role(&self) -> (r: Option<ApplicationRole>)
        ensures
            r == self.bound_role(),
    {
        self.role
    }

    pub fn protocol(&self) -> (r: ApplicationProtocol)
        ensures
            r == ApplicationProtocol::Ascii,
    {
        ApplicationProtocol::Ascii
    }

    /// The frame that carries `adu`.
    pub fn encode(&self, adu: &ApplicationDataUnit) -> (r: Vec<u8>)
        ensures
            r@ == ascii_frame(adu@),
    {
        let mut bytes: Vec<u8> = Vec::new();
        bytes.push(adu.unit);
        bytes.push(adu.fc);
        assert(bytes@ =~= seq![adu.unit, adu.fc]);
        append_bytes(&mut bytes, &adu.data);
        let check: u8 = lrc(&bytes);
        bytes.push(check);
        let ghost text = hex_text(bytes@);
        let mut frame: Vec<u8> = Vec::new();
        frame.push(COLON);
        let mut i: usize = 0;
        while i < bytes.len()
            invariant
                i <= bytes@.len(),
                text == hex_text(bytes@),
                frame@ == seq![COLON] + text.subrange(0, 2 * i as int),
            decreases bytes@.len() - i,
        {
            let b: u8 = bytes[i];
            frame.push(hex_digit_char(b / 16));
            frame.push(hex_digit_char(b % 16));
            assert(text[2 * i as int] == hex_char(b as int / 16));
            assert(text[2 * i + 1] == hex_char(b as int % 16));
            i += 1;
            assert(frame@ =~= seq![COLON] + text.subrange(0, 2 * i as int));
        }
        assert(text.subrange(0, 2 * bytes@.len() as int) =~= text);
        frame.push(CR);
        frame.push(LF);
        assert(frame@ =~= ascii_line(text));
        frame
    }

    /// Decode `data`, which has to be exactly one frame.
    pub fn decode(&self, data: &[u8]) -> (r: Result<FramedDataUnit, ModbusError>)
        ensures
            match ascii_decoded(data@) {
                Ok(adu) => r matches Ok(f) && f@ == (FramedAdu { adu, raw: data@ }),
                Err(e) => r matches Err(f) && f == e,
            },
    {
        if data.len() < 9 {
            return Err(ModbusError::InsufficientData);
        }
        if data[0] != COLON || data[data.len() - 2] != CR || data[data.len() - 1] != LF {
            return Err(ModbusError::InvalidData);
        }
        let payload: Vec<u8> = copy_range(data, 1, data.len() - 2);
        match decode_payload(&payload) {
            Ok((adu, _)) => Ok(FramedDataUnit { adu, raw: copy_all(data) }),
            Err(e) => Err(e),
        }
    }

    /// Bytes arrived on `connection`: report the lines that are complete or
    /// had to be given up.
    pub fn process_data_event(&mut self, data: &[u8], connection: &ConnectionId) -> (r: Vec<
        FrameEvent,
    >)
        requires
            old(self).wf(),
        ensures
            final(self).wf(),
            events_of(r@) == run_events(
                ascii_run(old(self).state_of(connection@), data@, old(self).lenient()),
            ),
            final(self).state_of(connection@) == ascii_run(
                old(self).state_of(connection@),
                data@,
                old(self).lenient(),
            ).state,
            forall|c: Seq<char>|
                c != connection@ ==> #[trigger] final(self).state_of(c) == old(self).state_of(c),
            final(self).bound_role() == old(self).bound_role(),
            final(self).lenient() == old(self).lenient(),
            final(self).is_destroyed() == old(self).is_destroyed(),
    {
        let mut state: ConnectionState = match self.states.remove(connection) {
            Some(s) => s,
            None => ConnectionState { status: FsmStatus::Idle, frame: Vec::new() },
        };
        let ghost start = old(self).state_of(connection@);
        assert(state@.frame =~= start.frame);
        let lenient: bool = self.lenient_hex;
        let (mut events, completed): (Vec<FrameEvent>, Vec<Vec<u8>>) = drive_fsm(
            &mut state,
            data,
            lenient,
        );
        let ghost run = ascii_run(start, data@, lenient);
        let ghost errors = events_of(events@);
        let ghost lines = run.completed.map_values(|p: Seq<u8>| line_event(p));
        let mut i: usize = 0;
        assert(errors + lines.subrange(0, 0) =~= errors);
        while i < completed.len()
            invariant
                i <= completed@.len(),
                completed@.len() == run.completed.len(),
                forall|k: int|
                    0 <= k < completed@.len() ==> (#[trigger] completed@[k])@ == run.completed[k],
                lines == run.completed.map_values(|p: Seq<u8>| line_event(p)),
                events_of(events@) == errors + lines.subrange(0, i as int),
            decreases completed@.len() - i,
        {
            let ghost seen = events@;
            let event: FrameEvent = match decode_payload(&completed[i]) {
                Ok((adu, raw)) => FrameEvent::Framing(FramedDataUnit { adu, raw }),
                Err(e) => FrameEvent::FramingError(e),
            };
            assert(event@ == line_event(run.completed[i as int]));
            let ghost e = event@;
            events.push(event);
            i += 1;
            assert(events_of(events@) =~= events_of(seen).push(e));
            assert(events_of(events@) =~= errors + lines.subrange(0, i as int));
        }
        assert(lines.subrange(0, lines.len() as int) =~= lines);
        if state.status != FsmStatus::Idle {
            self.states.insert(connection.clone(), state);
        }
        proof {
            law_ascii_state_bounded(start, data@, lenient);
        }
        assert(final(self).state_of(connection@).frame =~= run.state.frame);
        events
    }

    /// The connection is gone: forget its state.
    pub fn connection_closed(&mut self, connection: &ConnectionId)
        requires
            old(self).wf(),
        ensures
            final(self).wf(),
            final(self).state_of(connection@) == idle(),
            forall|c: Seq<char>|
                c != connection@ ==> #[trigger] final(self).state_of(c) == old(self).state_of(c),
            final(self).bound_role() == old(self).bound_role(),
            final(self).lenient() == old(self).lenient(),
            final(self).is_destroyed() == old(self).is_destroyed(),
    {
        self.states.remove(connection);
    }

    /// Forget the state of all connections.
    pub fn flush(&mut self)
        ensures
            final(self).wf(),
            forall|c: Seq<char>| #[trigger] final(self).state_of(c) == idle(),
            final(self).bound_role() == old(self).bound_role(),
            final(self).lenient() == old(self).lenient(),
            final(self).is_destroyed() == old(self).is_destroyed(),
    {
        self.states.clear();
    }

    /// Forget the state of all connections, for good. The result tells whether to
    /// stop listening to the layer below; a second time there is nothing to do.
    pub fn destroy(&mut self) -> (r: bool)
        requires
            old(self).wf(),
        ensures
            final(self).wf(),
            r == !old(self).is_destroyed(),
            final(self).is_destroyed(),
            forall|c: Seq<char>| #[trigger]
                final(self).state_of(c) == if r {
                    idle()
                } else {
                    old(self).state_of(c)
                },
            final(self).bound_role() == old(self).bound_role(),
            final(self).lenient() == old(self).lenient(),
    {
        if self.destroyed {
            return false;
        }
        self.destroyed = true;
        self.states.clear();
        true
    }
}

/// Feed `data` to the state machine of one connection. Hands out the errors
/// and the payloads of the complete lines.
fn drive_fsm(state: &mut ConnectionState, data: &[u8], lenient: bool) -> (r: (
    Vec<FrameEvent>,
    Vec<Vec<u8>>,
))
    ensures
        final(state)@ == ascii_run(old(state)@, data@, lenient).state,
        ({
            let run = ascii_run(old(state)@, data@, lenient);
            &&& events_of(r.0@) == run_events(Run { completed: Seq::empty(), ..run })
            &&& r.1@.len() == run.completed.len()
            &&& forall|k: int| 0 <= k < r.1@.len() ==> (#[trigger] r.1@[k])@ == run.completed[k]
        }),
{
    let mut completed: Vec<Vec<u8>> = Vec::new();
    let mut overflows: usize = 0;
    let mut invalid_hex: usize = 0;
    let mut i: usize = 0;
    while i < data.len()
        invariant
            i <= data@.len(),
            ({
                let run = ascii_run(old(state)@, data@.subrange(0, i as int), lenient);
                &&& state@ == run.state
                &&& overflows == run.overflows
                &&& invalid_hex == run.invalid_hex
                &&& overflows + invalid_hex <= i
                &&& completed@.len() == run.completed.len()
                &&& forall|k: int|
                    0 <= k < completed@.len() ==> (#[trigger] completed@[k])@ == run.completed[k]
            }),
        decreases data@.len() - i,
    {
        let byte: u8 = data[i];
        let ghost run = ascii_run(old(state)@, data@.subrange(0, i as int), lenient);
        proof {
            let done = data@.subrange(0, i + 1);
            assert(done.drop_last() =~= data@.subrange(0, i as int));
            assert(ascii_run(old(state)@, done, lenient) == ascii_step(run, byte, lenient));
        }
        match state.status {
            FsmStatus::Idle => {
                if byte == COLON {
                    state.status = FsmStatus::Reception;
                    state.frame = Vec::new();
                }
            },
            FsmStatus::Reception => {
                if byte == COLON {
                    state.frame = Vec::new();
                } else if byte == CR {
                    state.status = FsmStatus::WaitingEnd;
                } else if state.frame.len() >= MAX_ASCII_PAYLOAD {
                    state.status = FsmStatus::Idle;
                    state.frame = Vec::new();
                    overflows += 1;
                } else if !is_hex_char(byte, lenient) {
                    state.status = FsmStatus::Idle;
                    state.frame = Vec::new();
                    invalid_hex += 1;
                } else {
                    state.frame.push(byte);
                }
            },
            FsmStatus::WaitingEnd => {
                if byte == COLON {
                    state.status = FsmStatus::Reception;
                    state.frame = Vec::new();
                } else if byte == LF {
                    let mut line: Vec<u8> = Vec::new();
                    std::mem::swap(&mut line, &mut state.frame);
                    completed.push(line);
                    state.status = FsmStatus::Idle;
                } else {
                    state.status = FsmStatus::Idle;
                    state.frame = Vec::new();
                }
            },
        }
        i += 1;
        assert(state@.frame =~= ascii_step(run, byte, lenient).state.frame);
    }
    assert(data@.subrange(0, data@.len() as int) =~= data@);
    let mut events: Vec<FrameEvent> = Vec::new();
    let mut n: usize = 0;
    while n < overflows
        invariant
            n <= overflows,
            events@.len() == n,
            forall|k: int|
                0 <= k < n ==> (#[trigger] events@[k])@ == Event::FramingError(
                    ModbusError::InvalidData,
                ),
        decreases overflows - n,
    {
        events.push(FrameEvent::FramingError(ModbusError::InvalidData));
        n += 1;
    }
    let mut m: usize = 0;
    while m < invalid_hex
        invariant
            m <= invalid_hex,
            events@.len() == overflows + m,
            forall|k: int|
                0 <= k < overflows ==> (#[trigger] events@[k])@ == Event::FramingError(
                    ModbusError::InvalidData,
                ),
            forall|k: int|
                overflows <= k < overflows + m ==> (#[trigger] events@[k])@ == Event::FramingError(
                    ModbusError::InvalidHex,
                ),
        decreases invalid_hex - m,
    {
        events.push(FrameEvent::FramingError(ModbusError::InvalidHex));
        m += 1;
    }
    proof {
        let run = ascii_run(old(state)@, data@, lenient);
        assert(events_of(events@) =~= run_events(Run { completed: Seq::empty(), ..run }));
    }
    (events, completed)
}

/// Reception never keeps more digits than the limit, and an idle connection
/// keeps none.
pub proof fn law_ascii_state_bounded(start: Reception, data: Seq<u8>, lenient: bool)
    requires
        start.frame.len() <= MAX_ASCII_PAYLOAD,
        start.status == FsmStatus::Idle ==> start.frame.len() == 0,
    ensures
        ascii_run(start, data, lenient).state.frame.len() <= MAX_ASCII_PAYLOAD,
        ascii_run(start, data, lenient).state.status == FsmStatus::Idle ==> ascii_run(
            start,
            data,
            lenient,
        ).state.frame.len() == 0,
    decreases data.len(),
{
    if data.len() > 0 {
        law_ascii_state_bounded(start, data.drop_last(), lenient);
    }
}

/// It does not matter how a stream is cut into chunks: the second chunk goes on
/// where the first one ended, and the complete lines are the same.
pub proof fn law_ascii_chunks(start: Reception, a: Seq<u8>, b: Seq<u8>, lenient: bool)
    ensures
        ({
            let first = ascii_run(start, a, lenient);
            let second = ascii_run(first.state, b, lenient);
            let whole = ascii_run(start, a + b, lenient);
            &&& whole.state == second.state
            &&& whole.completed == first.completed + second.completed
            &&& whole.overflows == first.overflows + second.overflows
            &&& whole.invalid_hex == first.invalid_hex + second.invalid_hex
        }),
    decreases b.len(),
{
    let first = ascii_run(start, a, lenient);
    if b.len() == 0 {
        assert(a + b =~= a);
        assert(first.completed + Seq::<Seq<u8>>::empty() =~= first.completed);
    } else {
        law_ascii_chunks(start, a, b.drop_last(), lenient);
        assert((a + b).drop_last() =~= a + b.drop_last());
        let second = ascii_run(first.state, b, lenient);
        let whole = ascii_run(start, a + b, lenient);
        assert(whole.completed =~= first.completed + second.completed);
    }
}

/// What became of `chunks` that arrived one after the other, taken together.
pub open spec fn ascii_runs(start: Reception, chunks: Seq<Seq<u8>>, lenient: bool) -> Run
    decreases chunks.len(),
{
    if chunks.len() == 0 {
        ascii_run(start, Seq::empty(), lenient)
    } else {
        let before = ascii_runs(start, chunks.drop_last(), lenient);
        let last = ascii_run(before.state, chunks.last(), lenient);
        Run {
            state: last.state,
            overflows: before.overflows + last.overflows,
            invalid_hex: before.invalid_hex + last.invalid_hex,
            completed: before.completed + last.completed,
        }
    }
}

/// What is reported of `chunks` that arrive one after the other.
pub open spec fn ascii_reports(start: Reception, chunks: Seq<Seq<u8>>, lenient: bool) -> Seq<Event>
    decreases chunks.len(),
{
    if chunks.len() == 0 {
        Seq::empty()
    } else {
        let before = ascii_runs(start, chunks.drop_last(), lenient);
        ascii_reports(start, chunks.drop_last(), lenient) + run_events(
            ascii_run(before.state, chunks.last(), lenient),
        )
    }
}

/// However a stream is cut, and into however many chunks: the reception ends in
/// the same state, the same frames are reported in the same order, and every
/// error is reported equally often.
pub proof fn law_ascii_any_chunks(start: Reception, chunks: Seq<Seq<u8>>, lenient: bool)
    ensures
        ({
            let whole = ascii_run(start, stream_of(chunks), lenient);
            let reports = ascii_reports(start, chunks, lenient);
            &&& ascii_runs(start, chunks, lenient) == whole
            &&& framings(reports) == framings(run_events(whole))
            &&& reports.to_multiset() == run_events(whole).to_multiset()
        }),
    decreases chunks.len(),
{
    let whole = ascii_run(start, stream_of(chunks), lenient);
    let reports = ascii_reports(start, chunks, lenient);
    if chunks.len() == 0 {
        assert(run_events(whole) =~= Seq::<Event>::empty());
        assert(reports =~= run_events(whole));
    } else {
        let init = chunks.drop_last();
        law_ascii_any_chunks(start, init, lenient);
        law_ascii_chunks(start, stream_of(init), chunks.last(), lenient);
        let first = ascii_run(start, stream_of(init), lenient);
        let second = ascii_run(first.state, chunks.last(), lenient);
        lemma_run_events_join(first, second, whole);
        let before = ascii_reports(start, init, lenient);
        lemma_framings_join(before, run_events(second));
        vstd::seq_lib::lemma_multiset_commutative(before, run_events(second));
    }
}

/// The events of a run that goes on where another one ended.
proof fn lemma_run_events_join(first: Run, second: Run, whole: Run)
    requires
        whole.completed == first.completed + second.completed,
        whole.overflows == first.overflows + second.overflows,
        whole.invalid_hex == first.invalid_hex + second.invalid_hex,
    ensures
        framings(run_events(whole)) == framings(run_events(first)) + framings(run_events(second)),
        run_events(whole).to_multiset() == run_events(first).to_multiset().add(
            run_events(second).to_multiset(),
        ),
{
    let (a, b, c) = (run_parts(first), run_parts(second), run_parts(whole));
    lemma_framings_of_parts(first);
    lemma_framings_of_parts(second);
    lemma_framings_of_parts(whole);
    assert(c.0 =~= a.0 + b.0);
    assert(c.1 =~= a.1 + b.1);
    assert(c.2 =~= a.2 + b.2);
    lemma_framings_join(a.2, b.2);
    vstd::seq_lib::lemma_multiset_commutative(a.0, b.0);
    vstd::seq_lib::lemma_multiset_commutative(a.1, b.1);
    vstd::seq_lib::lemma_multiset_commutative(a.2, b.2);
    assert(run_events(whole).to_multiset() =~= run_events(first).to_multiset().add(
        run_events(second).to_multiset(),
    ));
}

/// The three parts of what is reported of a run.
spec fn run_parts(run: Run) -> (Seq<Event>, Seq<Event>, Seq<Event>) {
    (
        Seq::new(run.overflows, |i: int| Event::FramingError(ModbusError::InvalidData)),
        Seq::new(run.invalid_hex, |i: int| Event::FramingError(ModbusError::InvalidHex)),
        run.completed.map_values(|p: Seq<u8>| line_event(p)),
    )
}

proof fn lemma_framings_of_parts(run: Run)
    ensures
        ({
            let (a, b, c) = run_parts(run);
            &&& run_events(run) == a + b + c
            &&& framings(run_events(run)) == framings(c)
            &&& run_events(run).to_multiset() == a.to_multiset().add(b.to_multiset()).add(
                c.to_multiset(),
            )
        }),
{
    let (a, b, c) = run_parts(run);
    assert(run_events(run) =~= a + b + c);
    lemma_framings_join(a + b, c);
    lemma_framings_join(a, b);
    lemma_no_framings(a);
    lemma_no_framings(b);
    assert(framings(a) + framings(b) + framings(c) =~= framings(c));
    vstd::seq_lib::lemma_multiset_commutative(a, b);
    vstd::seq_lib::lemma_multiset_commutative(a + b, c);
}

/// The digits of any bytes are uppercase hex digits, and they stand for these
/// bytes.
pub proof fn law_hex_round_trip(bytes: Seq<u8>)
    ensures
        hex_bytes(hex_text(bytes)) == bytes,
        forall|i: int|
            0 <= i < hex_text(bytes).len() ==> is_upper_hex(#[trigger] hex_text(bytes)[i]),
{
    let text = hex_text(bytes);
    assert forall|i: int| 0 <= i < text.len() implies is_upper_hex(#[trigger] text[i]) by {
        let b = bytes[i / 2] as int;
        assert(0 <= b / 16 < 16 && 0 <= b % 16 < 16);
    }
    assert forall|i: int| 0 <= i < bytes.len() implies hex_bytes(text)[i] == bytes[i] by {
        let b = bytes[i] as int;
        assert(0 <= b / 16 < 16 && 0 <= b % 16 < 16);
        assert(text[2 * i] == hex_char(b / 16));
        assert(text[2 * i + 1] == hex_char(b % 16));
        assert(hex_value(hex_char(b / 16)) == b / 16);
        assert(hex_value(hex_char(b % 16)) == b % 16);
    }
    assert(hex_bytes(text) =~= bytes);
}

/// The payload of a frame decodes to the data unit that the frame carries.
proof fn lemma_ascii_payload(adu: Adu)
    ensures
        ({
            let payload = hex_text(ascii_body(adu).push(lrc_of(ascii_body(adu))));
            &&& ascii_payload(payload) == Ok::<Adu, ModbusError>(Adu { transaction: None, ..adu })
            &&& payload.len() == 2 * (adu.data.len() + 3)
            &&& forall|i: int| 0 <= i < payload.len() ==> is_upper_hex(#[trigger] payload[i])
        }),
{
    let body = ascii_body(adu);
    let bytes = body.push(lrc_of(body));
    let payload = hex_text(bytes);
    law_hex_round_trip(bytes);
    lemma_checked_payload(payload, bytes, adu);
}

proof fn lemma_checked_payload(payload: Seq<u8>, bytes: Seq<u8>, adu: Adu)
    requires
        hex_bytes(payload) == bytes,
        payload.len() == 2 * bytes.len(),
        bytes == ascii_body(adu).push(lrc_of(ascii_body(adu))),
        forall|i: int| 0 <= i < payload.len() ==> is_upper_hex(#[trigger] payload[i]),
    ensures
        ascii_payload(payload) == Ok::<Adu, ModbusError>(Adu { transaction: None, ..adu }),
{
    let body = ascii_body(adu);
    assert(body.len() == adu.data.len() + 2);
    assert(bytes.drop_last() =~= body);
    assert(bytes.last() == lrc_of(body));
    assert(bytes.subrange(2, bytes.len() - 1) =~= adu.data);
    assert(bytes[0] == adu.unit && bytes[1] == adu.fc);
    assert(all_hex(payload));
}

/// Decoding what was encoded gives the data unit back, without a transaction
/// id.
pub proof fn law_ascii_round_trip(adu: Adu)
    ensures
        ascii_decoded(ascii_frame(adu)) == Ok::<Adu, ModbusError>(Adu { transaction: None, ..adu }),
{
    lemma_ascii_payload(adu);
    let frame = ascii_frame(adu);
    let payload = hex_text(ascii_body(adu).push(lrc_of(ascii_body(adu))));
    assert(frame.subrange(1, frame.len() - 2) =~= payload);
}

/// A run over accepted digits collects them.
proof fn lemma_ascii_collect(frame: Seq<u8>, digits: Seq<u8>, lenient: bool)
    requires
        frame.len() + digits.len() <= MAX_ASCII_PAYLOAD,
        forall|i: int| 0 <= i < digits.len() ==> is_upper_hex(#[trigger] digits[i]),
    ensures
        ascii_run(Reception { status: FsmStatus::Reception, frame }, digits, lenient) == (Run {
            state: Reception { status: FsmStatus::Reception, frame: frame + digits },
            overflows: 0,
            invalid_hex: 0,
            completed: Seq::empty(),
        }),
    decreases digits.len(),
{
    if digits.len() == 0 {
        assert(frame + digits =~= frame);
    } else {
        lemma_ascii_collect(frame, digits.drop_last(), lenient);
        assert(is_upper_hex(digits[digits.len() - 1]));
        assert((frame + digits.drop_last()).push(digits.last()) =~= frame + digits);
    }
}

/// Whatever came before it, a frame that fits the size limit is reported when
/// its line end arrives, and reception is idle then.
pub proof fn law_ascii_frame_is_found(start: Reception, adu: Adu, lenient: bool)
    requires
        2 * (adu.data.len() + 3) <= MAX_ASCII_PAYLOAD,
    ensures
        ({
            let run = ascii_run(start, ascii_frame(adu), lenient);
            &&& run.state == idle()
            &&& run_events(run) == seq![
                Event::Framing(
                    FramedAdu {
                        adu: Adu { transaction: None, ..adu },
                        raw: ascii_frame(adu),
                    },
                ),
            ]
        }),
{
    lemma_ascii_payload(adu);
    let payload = hex_text(ascii_body(adu).push(lrc_of(ascii_body(adu))));
    let colon = seq![COLON];
    let end = seq![CR, LF];
    let reset = Reception { status: FsmStatus::Reception, frame: Seq::<u8>::empty() };
    assert(ascii_frame(adu) =~= colon + (payload + end));
    law_ascii_chunks(start, colon, payload + end, lenient);
    assert(colon.drop_last() =~= Seq::<u8>::empty());
    reveal_with_fuel(ascii_run, 2);
    assert(ascii_run(start, colon, lenient).state == reset);
    law_ascii_chunks(reset, payload, end, lenient);
    lemma_ascii_collect(Seq::empty(), payload, lenient);
    assert(Seq::<u8>::empty() + payload =~= payload);
    let full = Reception { status: FsmStatus::Reception, frame: payload };
    assert(end.drop_last() =~= seq![CR]);
    assert(end.drop_last().drop_last() =~= Seq::<u8>::empty());
    reveal_with_fuel(ascii_run, 3);
    let last = ascii_run(full, end, lenient);
    assert(last.completed =~= seq![payload]);
    let run = ascii_run(start, ascii_frame(adu), lenient);
    assert(run.completed =~= seq![payload]);
    assert(run_events(run) =~= seq![line_event(payload)]);
}

} // verus!
