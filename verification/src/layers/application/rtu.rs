//! Modbus RTU: data units followed by a CRC. Function codes, and on serial
//! lines silence, tell where a frame ends.
use std::collections::HashMap;
use vstd::prelude::*;

use crate::error::ModbusError;
use crate::layers::application::rtu::stream::{
    agrees, asked_of, crc_holds, descending, frame_due, is_custom, is_feeding, is_flush,
    is_underway, lemma_agrees_with_parts, lemma_feed_begins, lemma_feed_copies, lemma_feed_flushes,
    lemma_feed_is_done, lemma_flush_begins, lemma_flush_is_done, lemma_flush_step,
    lemma_said_by_agrees, rtu_adu, rtu_decoded, rtu_event, rtu_feed, rtu_flush, rtu_frame,
    rtu_front, said_by, with_answer, Answer, ExtractResult, Mode, Predictions, Question,
};
use crate::layers::application::{
    events_of, role_set, set_role_impl, ApplicationProtocol, ApplicationRole, Event, FrameEvent,
    Scan,
};
use crate::layers::physical::{ConnectionId, PhysicalLayerType};
use crate::table::Table;
use crate::types::{
    ApplicationDataUnit, CustomFcPredict, CustomFunctionCode, FramedAdu, FramedDataUnit,
    LengthPredictor,
};
use crate::utils::{
    append_bytes, copy_all, copy_range, crc, from_bytes, hi_byte, high_byte, lo_byte, low_byte,
    predict_frame, PredictResult,
};

pub mod stream;

verus! {

/// Longest frame, checksum included.
pub const MAX_FRAME_LENGTH: usize = 256;

/// Shortest frame, checksum included.
pub const MIN_FRAME_LENGTH: usize = 4;

/// Bytes that are kept per connection.
pub const POOL_SIZE: usize = 512;

// ----- timing -----
/// A span of time on a serial line: a number of bit times, or milliseconds.
/// Bit times may be fractional, so their type is up to the caller.
#[derive(Debug)]
pub enum FrameInterval<B> {
    Bits(B),
    Ms(u32),
}

impl<B: Copy> Clone for FrameInterval<B> {
    fn clone(&self) -> (r: Self)
        ensures
            r == *self,
    {
        *self
    }
}

impl<B: Copy> Copy for FrameInterval<B> {

}

/// Settings of an [`RtuApplicationLayer`].
#[derive(Debug)]
pub struct RtuApplicationLayerOptions<B> {
    /// Silence that ends a frame (t3.5), in place of the computed default.
    pub interval_between_frames: Option<FrameInterval<B>>,
    /// Longest silence inside a frame (t1.5). Not supervised when `None`.
    pub inter_char_timeout: Option<FrameInterval<B>>,
    /// Speed of the line, 9600 by default. Without meaning on networks.
    pub baud_rate: Option<u32>,
}

impl<B: Copy> Clone for RtuApplicationLayerOptions<B> {
    fn clone(&self) -> (r: Self)
        ensures
            r == *self,
    {
        *self
    }
}

impl<B: Copy> Copy for RtuApplicationLayerOptions<B> {

}

impl<B> Default for RtuApplicationLayerOptions<B> {
    fn default() -> (r: Self)
        ensures
            r.interval_between_frames is None,
            r.inter_char_timeout is None,
            r.baud_rate is None,
    {
        RtuApplicationLayerOptions {
            interval_between_frames: None,
            inter_char_timeout: None,
            baud_rate: None,
        }
    }
}

/// A time-out in milliseconds, or the bit times it has to be computed from:
/// `ceil(bits * 1000 / baud_rate)`.
#[derive(Debug)]
pub enum IntervalMs<B> {
    Ms(u32),
    Bits { baud_rate: u32, bits: B },
}

impl<B: Copy> Clone for IntervalMs<B> {
    fn clone(&self) -> (r: Self)
        ensures
            r == *self,
    {
        *self
    }
}

impl<B: Copy> Copy for IntervalMs<B> {

}

/// The default of t3.5 in milliseconds, rounded up: 38.5 bit times.
pub open spec fn default_interval(baud_rate: u32) -> u32 {
    if baud_rate == 0 {
        u32::MAX
    } else {
        ((38500 + baud_rate - 1) / baud_rate as int) as u32
    }
}

/// The time-outs that settings mean: t3.5 and t1.5. On networks there are none.
/// Above 19200 baud two values are fixed, and the whole milliseconds of them count:
/// the default of t3.5, which is 1.75 ms, and a t1.5 in bit times, which is 0.75 ms.
pub open spec fn intervals<B>(
    layer_type: PhysicalLayerType,
    options: RtuApplicationLayerOptions<B>,
) -> (IntervalMs<B>, IntervalMs<B>) {
    let baud_rate = match options.baud_rate {
        Some(b) => b,
        None => 9600,
    };
    match layer_type {
        PhysicalLayerType::Net => (IntervalMs::Ms(0), IntervalMs::Ms(0)),
        PhysicalLayerType::Serial => (
            match options.interval_between_frames {
                Some(FrameInterval::Ms(n)) => IntervalMs::Ms(n),
                Some(FrameInterval::Bits(bits)) => IntervalMs::Bits { baud_rate, bits },
                None => if baud_rate > 19200 {
                    IntervalMs::Ms(1)
                } else {
                    IntervalMs::Ms(default_interval(baud_rate))
                },
            },
            match options.inter_char_timeout {
                Some(FrameInterval::Ms(n)) => IntervalMs::Ms(n),
                Some(FrameInterval::Bits(bits)) => if baud_rate > 19200 {
                    IntervalMs::Ms(0)
                } else {
                    IntervalMs::Bits { baud_rate, bits }
                },
                None => IntervalMs::Ms(0),
            },
        ),
    }
}

pub fn compute_interval_ms<B>(
    layer_type: PhysicalLayerType,
    options: RtuApplicationLayerOptions<B>,
) -> (r: (IntervalMs<B>, IntervalMs<B>))
    ensures
        r == intervals(layer_type, options),
{
    match layer_type {
        PhysicalLayerType::Net => (IntervalMs::Ms(0), IntervalMs::Ms(0)),
        PhysicalLayerType::Serial => {
            let baud_rate: u32 = match options.baud_rate {
                Some(b) => b,
                None => 9600,
            };
            let three_point_five_t: IntervalMs<B> = match options.interval_between_frames {
                Some(FrameInterval::Ms(n)) => IntervalMs::Ms(n),
                Some(FrameInterval::Bits(bits)) => IntervalMs::Bits { baud_rate, bits },
                None => {
                    if baud_rate > 19200 {
                        IntervalMs::Ms(1)
                    } else if baud_rate == 0 {
                        IntervalMs::Ms(u32::MAX)
                    } else {
                        IntervalMs::Ms((38500 + baud_rate - 1) / baud_rate)
                    }
                },
            };
            let one_point_five_t: IntervalMs<B> = match options.inter_char_timeout {
                Some(FrameInterval::Ms(n)) => IntervalMs::Ms(n),
                Some(FrameInterval::Bits(bits)) => {
                    if baud_rate > 19200 {
                        IntervalMs::Ms(0)
                    } else {
                        IntervalMs::Bits { baud_rate, bits }
                    }
                },
                None => IntervalMs::Ms(0),
            };
            (three_point_five_t, one_point_five_t)
        },
    }
}

// ----- frames -----
fn crc_matches(buffer: &[u8], length: usize) -> (r: bool)
    ensures
        r == (2 <= length <= buffer@.len() && crc_holds(buffer@, length as int)),
{
    if length < 2 || length > buffer.len() {
        return false;
    }
    let frame_crc: u16 = from_bytes(buffer[length - 1], buffer[length - 2]);
    let body: Vec<u8> = copy_range(buffer, 0, length - 2);
    assert(body@ =~= buffer@.take(length - 2));
    frame_crc == crc(&body)
}

fn check_expected(buffer: &[u8], expected: usize) -> (r: ExtractResult)
    ensures
        r == frame_due(buffer@, expected),
{
    if expected > MAX_FRAME_LENGTH || expected < MIN_FRAME_LENGTH {
        return ExtractResult::Invalid;
    }
    if buffer.len() < expected {
        return ExtractResult::Insufficient;
    }
    if crc_matches(buffer, expected) {
        return ExtractResult::Frame(expected);
    }
    ExtractResult::Skip
}

/// What stands at the front of `buffer`. `custom` is what the predictor of the
/// custom function code says, if the frame has one.
pub fn try_extract(buffer: &[u8], is_response: bool, custom: Option<CustomFcPredict>) -> (r:
    ExtractResult)
    ensures
        r == rtu_front(buffer@, is_response, custom),
{
    if buffer.len() < MIN_FRAME_LENGTH {
        return ExtractResult::Insufficient;
    }
    match custom {
        Some(CustomFcPredict::NeedMore) => ExtractResult::Insufficient,
        Some(CustomFcPredict::Length(n)) => check_expected(buffer, n),
        None => match predict_frame(buffer, is_response) {
            PredictResult::Length(n) => check_expected(buffer, n),
            PredictResult::NeedMore => ExtractResult::Insufficient,
            PredictResult::Unknown => ExtractResult::Invalid,
        },
    }
}

/// The custom function codes of a layer.
pub type Customs<P, H> = Map<u8, CustomFunctionCode<P, H>>;

/// The predictor `p` may say `said` of `buffer`.
pub open spec fn predictor_may_say<P: LengthPredictor>(
    p: &P,
    buffer: Seq<u8>,
    said: CustomFcPredict,
) -> bool {
    exists|bytes: &[u8]|
        bytes@ == buffer && #[trigger] call_ensures(P::predict, (p, bytes), said)
}

/// The predictor of `custom` for requests, or for responses, may say `said` of
/// `buffer`.
pub open spec fn may_say<P: LengthPredictor, H>(
    custom: CustomFunctionCode<P, H>,
    is_response: bool,
    buffer: Seq<u8>,
    said: CustomFcPredict,
) -> bool {
    if is_response {
        predictor_may_say(&custom.predict_response_length, buffer, said)
    } else {
        predictor_may_say(&custom.predict_request_length, buffer, said)
    }
}

/// All these questions are for registered function codes, and `predict` says what
/// their predictors may say.
pub open spec fn answered<P: LengthPredictor, H>(
    asked: Seq<Question>,
    is_response: bool,
    customs: Customs<P, H>,
    predict: Predictions,
) -> bool {
    forall|i: int|
        0 <= i < asked.len() ==> {
            let q = #[trigger] asked[i];
            customs.dom().contains(q.buffer[1]) && may_say(
                customs[q.buffer[1]],
                is_response,
                q.buffer,
                predict(q.ahead, q.buffer),
            )
        }
}

/// All these answers are for registered function codes, and their predictors may
/// have given them.
spec fn genuine<P: LengthPredictor, H>(
    answers: Seq<Answer>,
    is_response: bool,
    customs: Customs<P, H>,
) -> bool {
    forall|i: int|
        0 <= i < answers.len() ==> {
            let a = #[trigger] answers[i];
            customs.dom().contains(a.question.buffer[1]) && may_say(
                customs[a.question.buffer[1]],
                is_response,
                a.question.buffer,
                a.said,
            )
        }
}

proof fn lemma_genuine_is_answered<P: LengthPredictor, H>(
    answers: Seq<Answer>,
    is_response: bool,
    customs: Customs<P, H>,
    predict: Predictions,
)
    requires
        genuine(answers, is_response, customs),
        agrees(predict, answers),
    ensures
        answered(asked_of(answers), is_response, customs, predict),
{
    let asked = asked_of(answers);
    assert forall|i: int| 0 <= i < asked.len() implies {
        let q = #[trigger] asked[i];
        customs.dom().contains(q.buffer[1]) && may_say(
            customs[q.buffer[1]],
            is_response,
            q.buffer,
            predict(q.ahead, q.buffer),
        )
    } by {
        assert(asked[i] == answers[i].question);
    }
}

/// Answers to later questions may be put behind those to earlier ones.
proof fn lemma_answers_join<P: LengthPredictor, H>(
    a: Seq<Answer>,
    b: Seq<Answer>,
    is_response: bool,
    customs: Customs<P, H>,
)
    requires
        genuine(a, is_response, customs),
        genuine(b, is_response, customs),
        descending(a),
        descending(b),
        forall|i: int, j: int|
            0 <= i < a.len() && 0 <= j < b.len() ==> (#[trigger] a[i]).question.ahead > (
            #[trigger] b[j]).question.ahead,
    ensures
        genuine(a + b, is_response, customs),
        descending(a + b),
{
    let all = a + b;
    assert forall|i: int| 0 <= i < all.len() implies {
        let x = #[trigger] all[i];
        customs.dom().contains(x.question.buffer[1]) && may_say(
            customs[x.question.buffer[1]],
            is_response,
            x.question.buffer,
            x.said,
        )
    } by {
        if i < a.len() {
            assert(all[i] == a[i]);
        } else {
            assert(all[i] == b[i - a.len()]);
        }
    }
    assert forall|i: int, j: int| 0 <= i < j < all.len() implies {
        let (p, q) = ((#[trigger] all[i]).question, (#[trigger] all[j]).question);
        p.ahead > q.ahead || (p.ahead == q.ahead && p.buffer.len() > q.buffer.len())
    } by {
        if j < a.len() {
            assert(all[i] == a[i] && all[j] == a[j]);
        } else if i < a.len() {
            assert(all[i] == a[i] && all[j] == b[j - a.len()]);
        } else {
            assert(all[i] == b[i - a.len()] && all[j] == b[j - a.len()]);
        }
    }
}

/// Ask the predictor of the frame's function code, if it is a registered one.
fn ask_predictor<P: LengthPredictor, H>(
    buffer: &[u8],
    is_response: bool,
    custom_fcs: &HashMap<u8, CustomFunctionCode<P, H>>,
) -> (r: Option<CustomFcPredict>)
    ensures
        r is Some == is_custom(buffer@, custom_fcs@.dom()),
        r matches Some(said) ==> may_say(custom_fcs@[buffer@[1]], is_response, buffer@, said),
{
    broadcast use vstd::std_specs::hash::group_hash_axioms;

    if buffer.len() < MIN_FRAME_LENGTH {
        return None;
    }
    match custom_fcs.get(&buffer[1]) {
        Some(custom) => {
            if is_response {
                let said: CustomFcPredict = custom.predict_response_length.predict(buffer);
                assert(call_ensures(
                    P::predict,
                    (&custom.predict_response_length, buffer),
                    said,
                ));
                Some(said)
            } else {
                let said: CustomFcPredict = custom.predict_request_length.predict(buffer);
                assert(call_ensures(
                    P::predict,
                    (&custom.predict_request_length, buffer),
                    said,
                ));
                Some(said)
            }
        },
        None => None,
    }
}

/// The data unit in the frame `data`.
fn adu_of_frame(data: &[u8]) -> (r: ApplicationDataUnit)
    requires
        data@.len() >= 4,
    ensures
        r@ == rtu_adu(data@),
{
    ApplicationDataUnit {
        transaction: None,
        unit: data[0],
        fc: data[1],
        data: copy_range(data, 2, data.len() - 2),
    }
}

fn decode_inner(data: &[u8]) -> (r: Result<ApplicationDataUnit, ModbusError>)
    ensures
        match rtu_decoded(data@) {
            Ok(adu) => r matches Ok(a) && a@ == adu,
            Err(e) => r matches Err(f) && f == e,
        },
{
    if data.len() < 4 {
        return Err(ModbusError::InsufficientData);
    }
    if !crc_matches(data, data.len()) {
        return Err(ModbusError::CrcCheckFailed);
    }
    Ok(adu_of_frame(data))
}

// ----- the pool -----
/// The bytes of one connection, in a pool of fixed size: they lie between
/// `start` and `end`.
struct RtuBuffer {
    pool: Vec<u8>,
    start: usize,
    end: usize,
    t15_expired: bool,
}

impl View for RtuBuffer {
    type V = Seq<u8>;

    closed spec fn view(&self) -> Seq<u8> {
        self.pool@.subrange(self.start as int, self.end as int)
    }
}

impl RtuBuffer {
    spec fn wf(&self) -> bool {
        self.pool@.len() == POOL_SIZE && self.start <= self.end <= POOL_SIZE
    }

    fn new() -> (r: Self)
        ensures
            r.wf(),
            r@ == Seq::<u8>::empty(),
            r.start == 0,
            !r.t15_expired,
    {
        let mut pool: Vec<u8> = Vec::new();
        while pool.len() < POOL_SIZE
            invariant
                pool@.len() <= POOL_SIZE,
            decreases POOL_SIZE - pool@.len(),
        {
            pool.push(0);
        }
        let r = RtuBuffer { pool, start: 0, end: 0, t15_expired: false };
        assert(r@ =~= Seq::<u8>::empty());
        r
    }

    fn len(&self) -> (r: usize)
        requires
            self.wf(),
        ensures
            r == self@.len(),
    {
        self.end - self.start
    }

    fn is_empty(&self) -> (r: bool)
        requires
            self.wf(),
        ensures
            r == (self@.len() == 0),
    {
        self.start == self.end
    }

    fn as_slice(&self) -> (r: &[u8])
        requires
            self.wf(),
        ensures
            r@ == self@,
    {
        vstd::slice::slice_subrange(self.pool.as_slice(), self.start, self.end)
    }

    /// Free space behind the bytes.
    fn available(&self) -> (r: usize)
        requires
            self.wf(),
        ensures
            r == POOL_SIZE - self.end,
    {
        POOL_SIZE - self.end
    }

    /// Take over as many bytes of `data`, from `from` on, as there is space for
    /// behind the bytes that are there. Returns their number.
    fn extend_from_slice(&mut self, data: &[u8], from: usize) -> (n: usize)
        requires
            old(self).wf(),
            from <= data@.len(),
        ensures
            final(self).wf(),
            n == if data@.len() - from <= POOL_SIZE - old(self).end {
                data@.len() - from
            } else {
                POOL_SIZE - old(self).end
            },
            final(self)@ == old(self)@ + data@.subrange(from as int, from + n),
            final(self).start == old(self).start,
            final(self).end == old(self).end + n,
            final(self).t15_expired == old(self).t15_expired,
    {
        let total: usize = data.len();
        let left: usize = total - from;
        let space: usize = self.available();
        let n: usize = if left <= space {
            left
        } else {
            space
        };
        let mut i: usize = 0;
        while i < n
            invariant
                i <= n,
                total == data@.len(),
                n <= total - from,
                n <= POOL_SIZE - old(self).end,
                old(self).wf(),
                self.pool@.len() == POOL_SIZE,
                self.start == old(self).start,
                self.end == old(self).end,
                self.t15_expired == old(self).t15_expired,
                forall|k: int|
                    0 <= k < old(self).end ==> #[trigger] self.pool@[k] == old(self).pool@[k],
                forall|k: int|
                    old(self).end <= k < old(self).end + i ==> #[trigger] self.pool@[k]
                        == data@[from + (k - old(self).end)],
            decreases n - i,
        {
            let at: usize = self.end + i;
            self.pool.set(at, data[from + i]);
            i += 1;
        }
        self.end = self.end + n;
        assert(self@ =~= old(self)@ + data@.subrange(from as int, from + n));
        n
    }

    /// Give up the first `n` bytes.
    fn drain(&mut self, n: usize)
        requires
            old(self).wf(),
            n <= old(self)@.len(),
        ensures
            final(self).wf(),
            final(self)@ == old(self)@.skip(n as int),
            final(self).t15_expired == old(self).t15_expired,
    {
        self.start = self.start + n;
        assert(self@ =~= old(self)@.skip(n as int));
    }

    /// Move the bytes to the front of the pool, so that all free space lies
    /// behind them.
    fn compact(&mut self)
        requires
            old(self).wf(),
        ensures
            final(self).wf(),
            final(self)@ == old(self)@,
            final(self).start == 0,
            final(self).t15_expired == old(self).t15_expired,
    {
        if self.start > 0 {
            let len: usize = self.end - self.start;
            let mut i: usize = 0;
            while i < len
                invariant
                    i <= len,
                    old(self).wf(),
                    len == old(self).end - old(self).start,
                    self.start == old(self).start,
                    self.start > 0,
                    self.end == old(self).end,
                    self.t15_expired == old(self).t15_expired,
                    self.pool@.len() == POOL_SIZE,
                    forall|k: int|
                        0 <= k < i ==> #[trigger] self.pool@[k] == old(self).pool@[k
                            + old(self).start],
                    forall|k: int|
                        old(self).start + i <= k < POOL_SIZE ==> #[trigger] self.pool@[k]
                            == old(self).pool@[k],
                decreases len - i,
            {
                let b: u8 = self.pool[self.start + i];
                self.pool.set(i, b);
                i += 1;
            }
            self.start = 0;
            self.end = len;
        }
        assert(self@ =~= old(self)@);
    }

    /// Give up all bytes.
    fn clear(&mut self)
        requires
            old(self).wf(),
        ensures
            final(self).wf(),
            final(self)@ == Seq::<u8>::empty(),
            final(self).start == 0,
            final(self).t15_expired == old(self).t15_expired,
    {
        self.start = 0;
        self.end = 0;
        assert(self@ =~= Seq::<u8>::empty());
    }
}

/// Take the complete frames out of the pool, and compact it. The second part of
/// the result is what predictors said.
fn flush_pool<P: LengthPredictor, H>(
    buffer: &mut RtuBuffer,
    strict: bool,
    is_response: bool,
    custom_fcs: &HashMap<u8, CustomFunctionCode<P, H>>,
    Ghost(ahead): Ghost<nat>,
) -> (r: (Vec<FrameEvent>, Ghost<Seq<Answer>>))
    requires
        old(buffer).wf(),
    ensures
        final(buffer).wf(),
        final(buffer).start == 0,
        is_flush(
            old(buffer)@,
            old(buffer).t15_expired,
            ahead,
            Mode { strict, is_response, codes: custom_fcs@.dom() },
            r.1@,
            events_of(r.0@),
            final(buffer)@,
        ),
        genuine(r.1@, is_response, custom_fcs@),
        descending(r.1@),
        forall|i: int| 0 <= i < r.1@.len() ==> (#[trigger] r.1@[i]).question.ahead == ahead,
        final(buffer)@.len() < MAX_FRAME_LENGTH,
        final(buffer)@.len() > 0 ==> !final(buffer).t15_expired,
{
    let ghost mode = Mode { strict, is_response, codes: custom_fcs@.dom() };
    let ghost start = buffer@;
    let ghost expired = buffer.t15_expired;
    let ghost mut answers: Seq<Answer> = Seq::empty();
    let mut events: Vec<FrameEvent> = Vec::new();
    proof {
        lemma_flush_begins(start, expired, ahead, mode);
        assert(events_of(events@) =~= Seq::<Event>::empty());
    }
    let mut more: bool = true;
    while more
        invariant
            buffer.wf(),
            mode == (Mode { strict, is_response, codes: custom_fcs@.dom() }),
            genuine(answers, is_response, custom_fcs@),
            descending(answers),
            forall|i: int|
                0 <= i < answers.len() ==> {
                    let q = (#[trigger] answers[i]).question;
                    q.ahead == ahead && (more ==> q.buffer.len() > buffer@.len())
                },
            more ==> buffer.t15_expired == expired && is_underway(
                start,
                expired,
                ahead,
                mode,
                answers,
                events_of(events@),
                buffer@,
            ),
            !more ==> is_flush(
                start,
                expired,
                ahead,
                mode,
                answers,
                events_of(events@),
                buffer@,
            ) && buffer@.len() < MAX_FRAME_LENGTH && (buffer@.len() > 0 ==> !buffer.t15_expired),
        decreases
            (if more {
                1int
            } else {
                0int
            }),
            buffer@.len(),
    {
        let ghost seen = events_of(events@);
        let ghost before = buffer@;
        if buffer.is_empty() {
            more = false;
            proof {
                lemma_flush_is_done(start, expired, ahead, mode, answers, seen, before);
            }
        } else {
            let custom: Option<CustomFcPredict> = ask_predictor(
                buffer.as_slice(),
                is_response,
                custom_fcs,
            );
            proof {
                lemma_flush_step(start, expired, ahead, mode, answers, seen, before, custom);
                answers = with_answer(answers, before, ahead, custom);
            }
            let mut error: Option<ModbusError> = None;
            let mut skip: usize = 0;
            match try_extract(buffer.as_slice(), is_response, custom) {
                ExtractResult::Frame(n) => {
                    let frame: Vec<u8> = copy_range(buffer.as_slice(), 0, n);
                    assert(frame@ =~= before.take(n as int));
                    let adu: ApplicationDataUnit = adu_of_frame(&frame);
                    events.push(FrameEvent::Framing(FramedDataUnit { adu, raw: frame }));
                    assert(events_of(events@) =~= seen + seq![rtu_event(before.take(n as int))]);
                    skip = n;
                },
                ExtractResult::Skip => {
                    if strict {
                        error = Some(ModbusError::CrcCheckFailed);
                    } else {
                        skip = 1;
                    }
                },
                ExtractResult::Insufficient => {
                    if buffer.len() >= MAX_FRAME_LENGTH {
                        skip = 1;
                    } else if buffer.t15_expired {
                        error = Some(ModbusError::T1_5Exceeded);
                        buffer.t15_expired = false;
                    } else if strict {
                        error = Some(ModbusError::IncompleteFrame);
                    }
                },
                ExtractResult::Invalid => {
                    error = Some(ModbusError::InvalidData);
                },
            }
            assert(seen + Seq::<Event>::empty() =~= seen);
            match error {
                Some(e) => {
                    events.push(FrameEvent::FramingError(e));
                    assert(events_of(events@) =~= seen + seq![Event::FramingError(e)]);
                    buffer.clear();
                    more = false;
                },
                None => {
                    if skip > 0 {
                        buffer.drain(skip);
                    } else {
                        more = false;
                    }
                },
            }
        }
    }
    buffer.compact();
    (events, Ghost(answers))
}

/// What a data event asks for beside its frames.
#[derive(Debug)]
pub struct DataOutcome {
    pub events: Vec<FrameEvent>,
    /// Report t3.5 as elapsed after this many milliseconds without data.
    pub interval_timer: Option<u32>,
    /// Report t1.5 as elapsed after this many milliseconds without data.
    pub inter_char_timer: Option<u32>,
}

/// The error that is due at the start of a data event: t1.5 ran out inside a
/// frame.
pub open spec fn late_data(pending: Seq<u8>, expired: bool) -> Scan {
    if expired && pending.len() > 0 {
        Scan {
            events: seq![Event::FramingError(ModbusError::T1_5Exceeded)],
            rest: Seq::empty(),
        }
    } else {
        Scan { events: Seq::empty(), rest: pending }
    }
}

/// The application layer of Modbus RTU.
pub struct RtuApplicationLayer<P, H> {
    role: Option<ApplicationRole>,
    buffers: Table<ConnectionId, RtuBuffer>,
    custom_function_codes: HashMap<u8, CustomFunctionCode<P, H>>,
    interval_ms: u32,
    inter_char_ms: u32,
    destroyed: bool,
}

impl<P: LengthPredictor, H> RtuApplicationLayer<P, H> {
    pub closed spec fn wf(&self) -> bool {
        &&& self.buffers.wf()
        &&& forall|c: Seq<char>| #[trigger]
            self.buffers@.dom().contains(c) ==> {
                let b = self.buffers@[c];
                b.wf() && b.start == 0 && b@.len() < MAX_FRAME_LENGTH
            }
    }

    /// The bytes of connection `c` that wait for more.
    pub closed spec fn pending(&self, c: Seq<char>) -> Seq<u8> {
        if self.buffers@.dom().contains(c) {
            self.buffers@[c]@
        } else {
            Seq::empty()
        }
    }

    /// The layer keeps a buffer for connection `c`.
    pub closed spec fn known(&self, c: Seq<char>) -> bool {
        self.buffers@.dom().contains(c)
    }

    /// t1.5 ran out since the last bytes of connection `c`.
    pub closed spec fn expired(&self, c: Seq<char>) -> bool {
        self.buffers@.dom().contains(c) && self.buffers@[c].t15_expired
    }

    pub closed spec fn bound_role(&self) -> Option<ApplicationRole> {
        self.role
    }

    pub closed spec fn customs(&self) -> Customs<P, H> {
        self.custom_function_codes@
    }

    /// t3.5 in milliseconds; zero on networks.
    pub closed spec fn interval(&self) -> u32 {
        self.interval_ms
    }

    /// t1.5 in milliseconds; zero where it is not supervised.
    pub closed spec fn inter_char(&self) -> u32 {
        self.inter_char_ms
    }

    /// The layer has been destroyed.
    pub closed spec fn is_destroyed(&self) -> bool {
        self.destroyed
    }

    /// Only a master receives responses.
    pub open spec fn is_response(&self) -> bool {
        self.bound_role() == Some(ApplicationRole::Master)
    }

    /// Silence separates the frames.
    pub open spec fn strict(&self) -> bool {
        self.interval() > 0
    }

    /// How this layer reads its streams.
    pub open spec fn mode(&self) -> Mode {
        Mode {
            strict: self.strict(),
            is_response: self.is_response(),
            codes: self.customs().dom(),
        }
    }

    /// What a data event on connection `id` does to this layer, which becomes
    /// `after`, and what it asks for, where predictors say `predict`.
    pub open spec fn data_processed(
        &self,
        after: &Self,
        data: Seq<u8>,
        id: Seq<char>,
        r: DataOutcome,
        predict: Predictions,
    ) -> bool {
        let late = late_data(self.pending(id), self.expired(id));
        let fed = rtu_feed(late.rest, data, self.mode(), predict);
        let flushed = rtu_flush(fed.rest, false, 0, self.mode(), predict);
        &&& answered(fed.asked, self.is_response(), self.customs(), predict)
        &&& !after.expired(id)
        &&& if self.strict() && fed.rest.len() < MAX_FRAME_LENGTH {
            &&& events_of(r.events@) == late.events + fed.events
            &&& after.pending(id) == fed.rest
            &&& after.known(id)
            &&& r.interval_timer == Some(self.interval())
            &&& r.inter_char_timer == if self.inter_char() > 0 {
                Some(self.inter_char())
            } else {
                None
            }
        } else {
            &&& answered(flushed.asked, self.is_response(), self.customs(), predict)
            &&& events_of(r.events@) == late.events + fed.events + flushed.events
            &&& after.pending(id) == flushed.rest
            &&& after.known(id) == (flushed.rest.len() > 0)
            &&& r.interval_timer is None
            &&& r.inter_char_timer is None
        }
    }

    /// What the end of t3.5 on connection `id` does to this layer, which becomes
    /// `after`, where predictors say `predict`.
    pub open spec fn interval_processed(
        &self,
        after: &Self,
        id: Seq<char>,
        events: Seq<Event>,
        predict: Predictions,
    ) -> bool {
        let flushed = rtu_flush(self.pending(id), self.expired(id), 0, self.mode(), predict);
        &&& answered(flushed.asked, self.is_response(), self.customs(), predict)
        &&& events == flushed.events
        &&& after.pending(id) == flushed.rest
        &&& after.known(id) == (flushed.rest.len() > 0)
        &&& !after.expired(id)
    }

    /// The settings of `self` are those of `other`.
    pub open spec fn same_settings(&self, other: &Self) -> bool {
        &&& self.bound_role() == other.bound_role()
        &&& self.customs() == other.customs()
        &&& self.interval() == other.interval()
        &&& self.inter_char() == other.inter_char()
        &&& self.is_destroyed() == other.is_destroyed()
    }

    /// The buffer of connection `c` is that of `other`.
    pub open spec fn same_buffer(&self, other: &Self, c: Seq<char>) -> bool {
        &&& self.pending(c) == other.pending(c)
        &&& self.known(c) == other.known(c)
        &&& self.expired(c) == other.expired(c)
    }

    /// A layer with the time-outs t3.5 and t1.5 in milliseconds, as
    /// [`compute_interval_ms`] gives them.
    pub fn new(interval_ms: u32, inter_char_ms: u32) -> (r: Self)
        ensures
            r.wf(),
            r.bound_role() is None,
            r.customs() == Customs::<P, H>::empty(),
            r.interval() == interval_ms,
            r.inter_char() == inter_char_ms,
            !r.is_destroyed(),
            forall|c: Seq<char>| !#[trigger] r.known(c),
            forall|c: Seq<char>| #[trigger] r.pending(c) == Seq::<u8>::empty(),
    {
        RtuApplicationLayer {
            role: None,
            buffers: Table::new(),
            custom_function_codes: HashMap::new(),
            interval_ms,
            inter_char_ms,
            destroyed: false,
        }
    }

    pub fn set_role(&mut self, role: ApplicationRole) -> (r: Result<(), ModbusError>)
        ensures
            role_set(old(self).bound_role(), final(self).bound_role(), role, r),
            final(self).wf() == old(self).wf(),
            final(self).customs() == old(self).customs(),
            final(self).interval() == old(self).interval(),
            final(self).inter_char() == old(self).inter_char(),
            final(self).is_destroyed() == old(self).is_destroyed(),
            forall|c: Seq<char>| #[trigger] final(self).same_buffer(old(self), c),
    {
        set_role_impl(&mut self.role, role)
    }

    pub fn role(&self) -> (r: Option<ApplicationRole>)
        ensures
            r == self.bound_role(),
    {
        self.role
    }

    pub fn protocol(&self) -> (r: ApplicationProtocol)
        ensures
            r == ApplicationProtocol::Rtu,
    {
        ApplicationProtocol::Rtu
    }

    /// Register a custom function code; it replaces an earlier registration of
    /// the same code.
    pub fn add_custom_function_code(&mut self, cfc: CustomFunctionCode<P, H>)
        ensures
            final(self).customs() == old(self).customs().insert(cfc.fc, cfc),
            final(self).wf() == old(self).wf(),
            final(self).bound_role() == old(self).bound_role(),
            final(self).interval() == old(self).interval(),
            final(self).inter_char() == old(self).inter_char(),
            final(self).is_destroyed() == old(self).is_destroyed(),
            forall|c: Seq<char>| #[trigger] final(self).same_buffer(old(self), c),
    {
        broadcast use vstd::std_specs::hash::group_hash_axioms;

        self.custom_function_codes.insert(cfc.fc, cfc);
    }

    pub fn remove_custom_function_code(&mut self, fc: u8)
        ensures
            final(self).customs() == old(self).customs().remove(fc),
            final(self).wf() == old(self).wf(),
            final(self).bound_role() == old(self).bound_role(),
            final(self).interval() == old(self).interval(),
            final(self).inter_char() == old(self).inter_char(),
            final(self).is_destroyed() == old(self).is_destroyed(),
            forall|c: Seq<char>| #[trigger] final(self).same_buffer(old(self), c),
    {
        broadcast use vstd::std_specs::hash::group_hash_axioms;

        self.custom_function_codes.remove(&fc);
    }

    /// The frame that carries `adu`.
    pub fn encode(&self, adu: &ApplicationDataUnit) -> (r: Vec<u8>)
        ensures
            r@ == rtu_frame(adu@),
    {
        let mut buf: Vec<u8> = Vec::new();
        buf.push(adu.unit);
        buf.push(adu.fc);
        assert(buf@ =~= seq![adu.unit, adu.fc]);
        append_bytes(&mut buf, &adu.data);
        let ghost body = buf@;
        let c: u16 = crc(&buf);
        buf.push(lo_byte(c));
        buf.push(hi_byte(c));
        assert(buf@ =~= body + seq![low_byte(c), high_byte(c)]);
        buf
    }

    /// Decode `data`, which has to be exactly one frame.
    pub fn decode(&self, data: &[u8]) -> (r: Result<FramedDataUnit, ModbusError>)
        ensures
            match rtu_decoded(data@) {
                Ok(adu) => r matches Ok(f) && f@ == (FramedAdu { adu, raw: data@ }),
                Err(e) => r matches Err(f) && f == e,
            },
    {
        match decode_inner(data) {
            Ok(adu) => Ok(FramedDataUnit { adu, raw: copy_all(data) }),
            Err(e) => Err(e),
        }
    }

    /// Bytes arrived on `connection`. Timers that run for it are void now.
    ///
    /// On networks, and where a whole frame's worth of bytes has come together,
    /// the complete frames are reported at once. Otherwise the bytes wait until
    /// t3.5 has elapsed.
    pub fn process_data_event(&mut self, data: &[u8], connection: &ConnectionId) -> (r: DataOutcome)
        requires
            old(self).wf(),
        ensures
            final(self).wf(),
            final(self).same_settings(old(self)),
            forall|c: Seq<char>|
                c != connection@ ==> #[trigger] final(self).same_buffer(old(self), c),
            exists|predict: Predictions| #[trigger]
                old(self).data_processed(final(self), data@, connection@, r, predict),
    {
        let strict: bool = self.interval_ms > 0;
        let is_response: bool = match self.role {
            Some(ApplicationRole::Master) => true,
            _ => false,
        };
        let ghost mode = self.mode();
        let ghost customs = self.customs();
        let ghost id = connection@;
        let mut buffer: RtuBuffer = match self.buffers.remove(connection) {
            Some(b) => b,
            None => RtuBuffer::new(),
        };
        assert(buffer@ =~= old(self).pending(id));
        let mut events: Vec<FrameEvent> = Vec::new();
        let ghost late = late_data(old(self).pending(id), old(self).expired(id));
        if buffer.t15_expired && buffer.len() > 0 {
            buffer.clear();
            events.push(FrameEvent::FramingError(ModbusError::T1_5Exceeded));
        }
        buffer.t15_expired = false;
        assert(events_of(events@) =~= late.events);
        assert(buffer@ =~= late.rest);
        let ghost mut answers: Seq<Answer> = Seq::empty();
        let ghost mut fed: Seq<Event> = Seq::empty();
        proof {
            lemma_feed_begins(late.rest, data@, mode);
            assert(late.events + fed =~= late.events);
            assert(data@.skip(0) =~= data@);
        }
        let mut offset: usize = 0;
        while offset < data.len()
            invariant
                offset <= data@.len(),
                buffer.wf(),
                buffer.start == 0,
                !buffer.t15_expired,
                self.custom_function_codes@ == customs,
                mode == (Mode { strict, is_response, codes: customs.dom() }),
                events_of(events@) == late.events + fed,
                is_feeding(
                    late.rest,
                    data@,
                    mode,
                    answers,
                    fed,
                    buffer@,
                    data@.skip(offset as int),
                ),
                genuine(answers, is_response, customs),
                descending(answers),
                forall|i: int|
                    0 <= i < answers.len() ==> {
                        let q = (#[trigger] answers[i]).question;
                        &&& q.ahead > 0
                        &&& q.ahead >= data@.len() - offset
                        &&& q.ahead == data@.len() - offset ==> buffer@.len() < POOL_SIZE
                    },
            decreases data@.len() - offset, buffer@.len(),
        {
            let ghost before = buffer@;
            let ghost ahead = data@.skip(offset as int);
            let copied: usize = buffer.extend_from_slice(data, offset);
            let ghost n = copied as int;
            assert(data@.subrange(offset as int, offset + n) =~= ahead.take(n));
            assert(data@.skip(offset + n) =~= ahead.skip(n));
            if copied == 0 {
                assert(buffer@ =~= before);
                let (mut flushed, Ghost(said)): (Vec<FrameEvent>, Ghost<Seq<Answer>>) = flush_pool(
                    &mut buffer,
                    strict,
                    is_response,
                    &self.custom_function_codes,
                    Ghost(ahead.len()),
                );
                let ghost more = events_of(flushed@);
                let ghost kept = events@;
                proof {
                    lemma_feed_flushes(
                        late.rest,
                        data@,
                        mode,
                        answers,
                        fed,
                        before,
                        ahead,
                        said,
                        more,
                        buffer@,
                    );
                    lemma_answers_join(answers, said, is_response, customs);
                    answers = answers + said;
                }
                let ghost all = flushed@;
                events.append(&mut flushed);
                buffer.t15_expired = false;
                proof {
                    assert(events@ == kept + all);
                    assert(events_of(events@) =~= events_of(kept) + more);
                    assert(late.events + fed + more =~= late.events + (fed + more));
                    fed = fed + more;
                }
            } else {
                proof {
                    lemma_feed_copies(late.rest, data@, mode, answers, fed, before, ahead, n);
                }
                offset = offset + copied;
            }
        }
        proof {
            lemma_feed_is_done(
                late.rest,
                data@,
                mode,
                answers,
                fed,
                buffer@,
                data@.skip(offset as int),
            );
        }
        let ghost filled = buffer@;
        let ghost mut last: Seq<Answer> = Seq::empty();
        let ghost mut flushed_events: Seq<Event> = Seq::empty();
        let deferred: bool = strict && buffer.len() < MAX_FRAME_LENGTH;
        if !deferred {
            let (mut flushed, Ghost(said)): (Vec<FrameEvent>, Ghost<Seq<Answer>>) = flush_pool(
                &mut buffer,
                strict,
                is_response,
                &self.custom_function_codes,
                Ghost(0),
            );
            let ghost all = flushed@;
            let ghost kept = events@;
            events.append(&mut flushed);
            proof {
                last = said;
                flushed_events = events_of(all);
                assert(events@ == kept + all);
                assert(events_of(events@) =~= events_of(kept) + flushed_events);
            }
        }
        let ghost left = buffer@;
        let keep: bool = deferred || !buffer.is_empty();
        if keep {
            self.buffers.insert(connection.clone(), buffer);
        }
        let inter_char_timer: Option<u32> = if deferred && self.inter_char_ms > 0 {
            Some(self.inter_char_ms)
        } else {
            None
        };
        let interval_timer: Option<u32> = if deferred {
            Some(self.interval_ms)
        } else {
            None
        };
        let r = DataOutcome { events, interval_timer, inter_char_timer };
        proof {
            assert(self.pending(id) =~= left);
            lemma_answers_join(answers, last, is_response, customs);
            let all = answers + last;
            let predict = said_by(all);
            lemma_said_by_agrees(all);
            lemma_agrees_with_parts(predict, answers, last);
            lemma_genuine_is_answered(answers, is_response, customs, predict);
            if !deferred {
                lemma_genuine_is_answered(last, is_response, customs, predict);
            }
            assert(old(self).data_processed(&*self, data@, id, r, predict));
        }
        r
    }

    /// t3.5 has elapsed since the last bytes of `connection`: report what they
    /// make up.
    pub fn interval_elapsed(&mut self, connection: &ConnectionId) -> (r: Vec<FrameEvent>)
        requires
            old(self).wf(),
        ensures
            final(self).wf(),
            final(self).same_settings(old(self)),
            forall|c: Seq<char>|
                c != connection@ ==> #[trigger] final(self).same_buffer(old(self), c),
            exists|predict: Predictions| #[trigger]
                old(self).interval_processed(
                    final(self),
                    connection@,
                    events_of(r@),
                    predict,
                ),
    {
        let strict: bool = self.interval_ms > 0;
        let is_response: bool = match self.role {
            Some(ApplicationRole::Master) => true,
            _ => false,
        };
        let ghost customs = self.customs();
        let ghost id = connection@;
        match self.buffers.remove(connection) {
            Some(b) => {
                let mut buffer: RtuBuffer = b;
                let (events, Ghost(said)): (Vec<FrameEvent>, Ghost<Seq<Answer>>) = flush_pool(
                    &mut buffer,
                    strict,
                    is_response,
                    &self.custom_function_codes,
                    Ghost(0),
                );
                let ghost left = buffer@;
                if !buffer.is_empty() {
                    self.buffers.insert(connection.clone(), buffer);
                }
                proof {
                    assert(self.pending(id) =~= left);
                    let predict = said_by(said);
                    lemma_said_by_agrees(said);
                    lemma_genuine_is_answered(said, is_response, customs, predict);
                    assert(old(self).interval_processed(
                        &*self,
                        id,
                        events_of(events@),
                        predict,
                    ));
                }
                events
            },
            None => {
                let events: Vec<FrameEvent> = Vec::new();
                proof {
                    assert(events_of(events@) =~= Seq::<Event>::empty());
                    let predict = said_by(Seq::empty());
                    assert(old(self).interval_processed(
                        &*self,
                        id,
                        events_of(events@),
                        predict,
                    ));
                }
                events
            },
        }
    }

    /// t1.5 has elapsed since the last bytes of `connection`.
    pub fn inter_char_elapsed(&mut self, connection: &ConnectionId)
        requires
            old(self).wf(),
        ensures
            final(self).wf(),
            final(self).same_settings(old(self)),
            forall|c: Seq<char>|
                c != connection@ ==> #[trigger] final(self).same_buffer(old(self), c),
            final(self).pending(connection@) == old(self).pending(connection@),
            final(self).known(connection@) == old(self).known(connection@),
            final(self).expired(connection@) == old(self).known(connection@),
    {
        match self.buffers.remove(connection) {
            Some(b) => {
                let mut buffer: RtuBuffer = b;
                buffer.t15_expired = true;
                self.buffers.insert(connection.clone(), buffer);
            },
            None => {},
        }
    }

    /// The connection is gone: forget its bytes.
    pub fn connection_closed(&mut self, connection: &ConnectionId)
        requires
            old(self).wf(),
        ensures
            final(self).wf(),
            final(self).same_settings(old(self)),
            forall|c: Seq<char>|
                c != connection@ ==> #[trigger] final(self).same_buffer(old(self), c),
            final(self).pending(connection@) == Seq::<u8>::empty(),
            !final(self).known(connection@),
    {
        self.buffers.remove(connection);
    }

    /// Forget the bytes of all connections.
    pub fn flush(&mut self)
        ensures
            final(self).wf(),
            final(self).same_settings(old(self)),
            forall|c: Seq<char>| !#[trigger] final(self).known(c),
            forall|c: Seq<char>| #[trigger] final(self).pending(c) == Seq::<u8>::empty(),
    {
        self.buffers.clear();
    }

    /// Give up everything that the layer holds for its users, bytes and custom
    /// function codes, for good. The result tells whether to stop listening to the
    /// layer below; a second time there is nothing to do.
    pub fn destroy(&mut self) -> (r: bool)
        requires
            old(self).wf(),
        ensures
            final(self).wf(),
            r == !old(self).is_destroyed(),
            final(self).is_destroyed(),
            final(self).bound_role() == old(self).bound_role(),
            final(self).interval() == old(self).interval(),
            final(self).inter_char() == old(self).inter_char(),
            if r {
                &&& final(self).customs() == Customs::<P, H>::empty()
                &&& forall|c: Seq<char>| !#[trigger] final(self).known(c)
                &&& forall|c: Seq<char>| #[trigger] final(self).pending(c) == Seq::<u8>::empty()
            } else {
                &&& final(self).customs() == old(self).customs()
                &&& forall|c: Seq<char>| #[trigger] final(self).same_buffer(old(self), c)
            },
    {
        if self.destroyed {
            return false;
        }
        self.destroyed = true;
        self.buffers.clear();
        self.custom_function_codes.clear();
        true
    }
}

} // verus!
