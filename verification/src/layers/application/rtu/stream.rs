//! The frames in a stream of RTU bytes.
use vstd::prelude::*;

use crate::error::ModbusError;
use crate::layers::application::rtu::{MAX_FRAME_LENGTH, MIN_FRAME_LENGTH, POOL_SIZE};
use crate::layers::application::{error_free, Event};
use crate::types::{Adu, CustomFcPredict, FramedAdu};
use crate::utils::{
    crc_of, high_byte, law_prediction_bounds, law_prediction_is_stable, law_word_round_trip,
    low_byte, prediction, word, PredictResult,
};

verus! {

/// What stands at the front of a byte stream.
#[derive(Debug, Clone, Copy, PartialEq, Eq, Structural)]
pub enum ExtractResult {
    /// A complete frame of this many bytes.
    Frame(usize),
    /// The beginning of a frame.
    Insufficient,
    /// Bytes that have the length of a frame but not its checksum.
    Skip,
    /// No frame.
    Invalid,
}

/// The first `n` bytes of `buffer` end in the CRC of those before them, low
/// byte first.
pub open spec fn crc_holds(buffer: Seq<u8>, n: int) -> bool {
    word(buffer[n - 1], buffer[n - 2]) == crc_of(buffer.take(n - 2))
}

/// What stands at the front of `buffer` where a frame of `expected` bytes is
/// due.
pub open spec fn frame_due(buffer: Seq<u8>, expected: usize) -> ExtractResult {
    if expected > MAX_FRAME_LENGTH || expected < MIN_FRAME_LENGTH {
        ExtractResult::Invalid
    } else if buffer.len() < expected {
        ExtractResult::Insufficient
    } else if crc_holds(buffer, expected as int) {
        ExtractResult::Frame(expected)
    } else {
        ExtractResult::Skip
    }
}

/// What stands at the front of `buffer`. What a predictor of a custom function
/// code said, where one was asked, goes before the built-in knowledge of lengths.
pub open spec fn rtu_front(
    buffer: Seq<u8>,
    is_response: bool,
    custom: Option<CustomFcPredict>,
) -> ExtractResult {
    if buffer.len() < MIN_FRAME_LENGTH {
        ExtractResult::Insufficient
    } else {
        match custom {
            Some(CustomFcPredict::NeedMore) => ExtractResult::Insufficient,
            Some(CustomFcPredict::Length(n)) => frame_due(buffer, n),
            None => match prediction(buffer, is_response) {
                PredictResult::Length(n) => frame_due(buffer, n),
                PredictResult::NeedMore => ExtractResult::Insufficient,
                PredictResult::Unknown => ExtractResult::Invalid,
            },
        }
    }
}

/// The data unit in a frame.
pub open spec fn rtu_adu(frame: Seq<u8>) -> Adu {
    Adu {
        transaction: None,
        unit: frame[0],
        fc: frame[1],
        data: frame.subrange(2, frame.len() - 2),
    }
}

/// What is reported of a frame.
pub open spec fn rtu_event(frame: Seq<u8>) -> Event {
    Event::Framing(FramedAdu { adu: rtu_adu(frame), raw: frame })
}

/// The frame that carries `adu`.
pub open spec fn rtu_frame(adu: Adu) -> Seq<u8> {
    let body = seq![adu.unit, adu.fc] + adu.data;
    body + seq![low_byte(crc_of(body)), high_byte(crc_of(body))]
}

/// The data unit in `data`, which has to be exactly one frame.
pub open spec fn rtu_decoded(data: Seq<u8>) -> Result<Adu, ModbusError> {
    if data.len() < 4 {
        Err(ModbusError::InsufficientData)
    } else if !crc_holds(data, data.len() as int) {
        Err(ModbusError::CrcCheckFailed)
    } else {
        Ok(rtu_adu(data))
    }
}

/// How a stream is read.
pub struct Mode {
    /// Silence separates the frames.
    pub strict: bool,
    /// The frames are responses.
    pub is_response: bool,
    /// The custom function codes.
    pub codes: Set<u8>,
}

/// The bytes for which a predictor was asked, and how many more bytes were at
/// hand that the pool had no room for.
pub struct Question {
    pub ahead: nat,
    pub buffer: Seq<u8>,
}

/// What the predictors say. They may say different things of the same bytes at
/// different times, so this goes by the number of bytes at hand too.
pub type Predictions = spec_fn(nat, Seq<u8>) -> CustomFcPredict;

/// What became of some bytes.
pub struct RtuRun {
    /// The frames and errors, in the order in which they are reported.
    pub events: Seq<Event>,
    /// The bytes that wait for more.
    pub rest: Seq<u8>,
    /// What predictors were asked, in this order.
    pub asked: Seq<Question>,
}

/// The run that leaves `rest` and reports nothing.
pub open spec fn waiting(rest: Seq<u8>) -> RtuRun {
    RtuRun { events: Seq::empty(), rest, asked: Seq::empty() }
}

/// A predictor is asked for `buffer`.
pub open spec fn is_custom(buffer: Seq<u8>, codes: Set<u8>) -> bool {
    buffer.len() >= MIN_FRAME_LENGTH && codes.contains(buffer[1])
}

/// What is asked for `buffer`: one predictor or none.
pub open spec fn questions(buffer: Seq<u8>, ahead: nat, codes: Set<u8>) -> Seq<Question> {
    if is_custom(buffer, codes) {
        seq![Question { ahead, buffer }]
    } else {
        Seq::empty()
    }
}

/// What stands at the front of `buffer`, where the predictors say `predict`.
pub open spec fn front(buffer: Seq<u8>, ahead: nat, mode: Mode, predict: Predictions) -> ExtractResult {
    rtu_front(
        buffer,
        mode.is_response,
        if is_custom(buffer, mode.codes) {
            Some(predict(ahead, buffer))
        } else {
            None
        },
    )
}

/// What is done about the bytes at the front.
pub enum Step {
    /// Report this, and go on `skip` bytes further.
    Go { events: Seq<Event>, skip: nat },
    /// Report this, and leave these bytes.
    Stop { events: Seq<Event>, rest: Seq<u8> },
}

/// Give the bytes up for `e`.
pub open spec fn give_up(e: ModbusError) -> Step {
    Step::Stop { events: seq![Event::FramingError(e)], rest: Seq::empty() }
}

/// What is done about `buffer`, at whose front stands `front`. On serial lines
/// (`strict`) the silence that ended the bytes ends the frame too, so whatever is
/// no complete frame is given up; on networks a frame that fails its checksum is
/// searched for one byte further on, and the beginning of a frame waits for more.
/// `expired` tells that t1.5 ran out inside the bytes.
pub open spec fn rtu_step(
    buffer: Seq<u8>,
    expired: bool,
    strict: bool,
    front: ExtractResult,
) -> Step {
    match front {
        ExtractResult::Frame(n) => Step::Go {
            events: seq![rtu_event(buffer.take(n as int))],
            skip: n as nat,
        },
        ExtractResult::Skip => if strict {
            give_up(ModbusError::CrcCheckFailed)
        } else {
            Step::Go { events: Seq::empty(), skip: 1 }
        },
        ExtractResult::Insufficient => if buffer.len() >= MAX_FRAME_LENGTH {
            Step::Go { events: Seq::empty(), skip: 1 }
        } else if expired {
            give_up(ModbusError::T1_5Exceeded)
        } else if strict {
            give_up(ModbusError::IncompleteFrame)
        } else {
            Step::Stop { events: Seq::empty(), rest: buffer }
        },
        ExtractResult::Invalid => give_up(ModbusError::InvalidData),
    }
}

/// The frames of `buffer`, step by step.
pub open spec fn rtu_flush(
    buffer: Seq<u8>,
    expired: bool,
    ahead: nat,
    mode: Mode,
    predict: Predictions,
) -> RtuRun
    decreases buffer.len(),
{
    if buffer.len() == 0 {
        waiting(buffer)
    } else {
        let asked = questions(buffer, ahead, mode.codes);
        match rtu_step(buffer, expired, mode.strict, front(buffer, ahead, mode, predict)) {
            Step::Go { events, skip } => if 0 < skip <= buffer.len() {
                let later = rtu_flush(buffer.skip(skip as int), expired, ahead, mode, predict);
                RtuRun {
                    events: events + later.events,
                    rest: later.rest,
                    asked: asked + later.asked,
                }
            } else {
                waiting(buffer)
            },
            Step::Stop { events, rest } => RtuRun { events, rest, asked },
        }
    }
}

/// What becomes of `data` that arrives behind `buffer`: it fills the pool, and
/// each time the pool is full and data is left over, the frames are taken out
/// to make room.
pub open spec fn rtu_feed(
    buffer: Seq<u8>,
    data: Seq<u8>,
    mode: Mode,
    predict: Predictions,
) -> RtuRun
    decreases data.len(), buffer.len(),
{
    if buffer.len() + data.len() <= POOL_SIZE || buffer.len() > POOL_SIZE {
        waiting(buffer + data)
    } else {
        let space = POOL_SIZE - buffer.len();
        let flushed = rtu_flush(
            buffer + data.take(space),
            false,
            (data.len() - space) as nat,
            mode,
            predict,
        );
        if flushed.rest.len() < MAX_FRAME_LENGTH {
            let next = rtu_feed(flushed.rest, data.skip(space), mode, predict);
            RtuRun {
                events: flushed.events + next.events,
                rest: next.rest,
                asked: flushed.asked + next.asked,
            }
        } else {
            flushed
        }
    }
}

// ----- laws -----
/// A flush always leaves less than one frame, and on a serial line nothing.
pub proof fn law_rtu_flush_makes_room(
    buffer: Seq<u8>,
    expired: bool,
    ahead: nat,
    mode: Mode,
    predict: Predictions,
)
    ensures
        rtu_flush(buffer, expired, ahead, mode, predict).rest.len() < MAX_FRAME_LENGTH,
        mode.strict || expired ==> rtu_flush(
            buffer,
            expired,
            ahead,
            mode,
            predict,
        ).rest.len() == 0,
    decreases buffer.len(),
{
    if buffer.len() > 0 {
        match front(buffer, ahead, mode, predict) {
            ExtractResult::Frame(n) => {
                law_rtu_flush_makes_room(buffer.skip(n as int), expired, ahead, mode, predict);
            },
            ExtractResult::Skip => {
                law_rtu_flush_makes_room(buffer.skip(1), expired, ahead, mode, predict);
            },
            ExtractResult::Insufficient => {
                if buffer.len() >= MAX_FRAME_LENGTH {
                    law_rtu_flush_makes_room(buffer.skip(1), expired, ahead, mode, predict);
                }
            },
            ExtractResult::Invalid => {},
        }
    }
}

/// Without custom function codes nobody is asked, and so it does not matter what
/// predictors would say.
pub proof fn law_rtu_standard_codes_need_no_predictor(
    buffer: Seq<u8>,
    expired: bool,
    ahead: nat,
    mode: Mode,
    p: Predictions,
    q: Predictions,
)
    requires
        mode.codes == Set::<u8>::empty(),
    ensures
        rtu_flush(buffer, expired, ahead, mode, p) == rtu_flush(buffer, expired, ahead, mode, q),
        rtu_flush(buffer, expired, ahead, mode, p).asked.len() == 0,
    decreases buffer.len(),
{
    if buffer.len() > 0 {
        match front(buffer, ahead, mode, p) {
            ExtractResult::Frame(n) => {
                law_rtu_standard_codes_need_no_predictor(
                    buffer.skip(n as int),
                    expired,
                    ahead,
                    mode,
                    p,
                    q,
                );
            },
            _ => {
                law_rtu_standard_codes_need_no_predictor(
                    buffer.skip(1),
                    expired,
                    ahead,
                    mode,
                    p,
                    q,
                );
            },
        }
    }
}

proof fn lemma_frame_crc(adu: Adu)
    ensures
        rtu_frame(adu).len() == adu.data.len() + 4,
        crc_holds(rtu_frame(adu), rtu_frame(adu).len() as int),
{
    let body = seq![adu.unit, adu.fc] + adu.data;
    let frame = rtu_frame(adu);
    law_word_round_trip(crc_of(body), 0, 0);
    assert(frame.len() == body.len() + 2);
    assert(frame.take(frame.len() - 2) =~= body);
}

/// Decoding what was encoded gives the data unit back, without a transaction
/// id.
pub proof fn law_rtu_round_trip(adu: Adu)
    ensures
        rtu_decoded(rtu_frame(adu)) == Ok::<Adu, ModbusError>(Adu { transaction: None, ..adu }),
{
    let frame = rtu_frame(adu);
    lemma_frame_crc(adu);
    assert(frame.len() == adu.data.len() + 4);
    assert(frame.subrange(2, frame.len() - 2) =~= adu.data);
}

/// A frame whose length is told rightly is taken from the stream as soon as it is
/// complete, and what follows it is flushed as if it came first.
pub proof fn law_rtu_frame_is_found(
    adu: Adu,
    more: Seq<u8>,
    expired: bool,
    ahead: nat,
    mode: Mode,
    predict: Predictions,
)
    requires
        adu.data.len() + 4 <= MAX_FRAME_LENGTH,
        if mode.codes.contains(adu.fc) {
            predict(ahead, rtu_frame(adu) + more) == CustomFcPredict::Length(
                (adu.data.len() + 4) as usize,
            )
        } else {
            prediction(rtu_frame(adu), mode.is_response) == PredictResult::Length(
                (adu.data.len() + 4) as usize,
            )
        },
    ensures
        ({
            let whole = rtu_flush(rtu_frame(adu) + more, expired, ahead, mode, predict);
            let later = rtu_flush(more, expired, ahead, mode, predict);
            &&& whole.events == seq![
                Event::Framing(
                    FramedAdu { adu: Adu { transaction: None, ..adu }, raw: rtu_frame(adu) },
                ),
            ] + later.events
            &&& whole.rest == later.rest
        }),
{
    let frame = rtu_frame(adu);
    let buffer = frame + more;
    let n = frame.len() as int;
    lemma_frame_crc(adu);
    law_rtu_round_trip(adu);
    law_prediction_is_stable(frame, more, mode.is_response);
    assert(buffer.take(n) =~= frame);
    assert(buffer.skip(n) =~= more);
    assert(buffer.take(n - 2) =~= frame.take(n - 2));
    assert(buffer[1] == adu.fc);
    assert(crc_holds(buffer, n));
    assert(front(buffer, ahead, mode, predict) == ExtractResult::Frame(n as usize));
}

/// The predictors go by the bytes alone, decide on a whole frame's worth of bytes
/// at the latest, and do not change their decision when more bytes come.
pub open spec fn decisive(codes: Set<u8>, predict: Predictions) -> bool {
    &&& forall|m: nat, n: nat, buffer: Seq<u8>|
        codes.contains(buffer[1]) ==> #[trigger] predict(m, buffer) == #[trigger] predict(n, buffer)
    &&& forall|n: nat, buffer: Seq<u8>|
        codes.contains(buffer[1]) && buffer.len() >= MAX_FRAME_LENGTH ==> (#[trigger] predict(
            n,
            buffer,
        )) is Length
    &&& forall|n: nat, buffer: Seq<u8>, more: Seq<u8>|
        #![trigger predict(n, buffer + more)]
        codes.contains(buffer[1]) && buffer.len() >= MIN_FRAME_LENGTH && predict(
            n,
            buffer,
        ) is Length ==> predict(n, buffer + more) == predict(n, buffer)
}

/// Once the bytes at the front are told, later bytes do not change the verdict,
/// and a whole frame's worth of bytes is always told.
proof fn lemma_front_stable(
    a: Seq<u8>,
    b: Seq<u8>,
    n: nat,
    mode: Mode,
    predict: Predictions,
)
    requires
        decisive(mode.codes, predict),
    ensures
        front(a, n, mode, predict) != ExtractResult::Insufficient ==> front(
            a + b,
            n,
            mode,
            predict,
        ) == front(a, n, mode, predict),
        a.len() >= MAX_FRAME_LENGTH ==> front(a, n, mode, predict) != ExtractResult::Insufficient,
{
    if a.len() >= MIN_FRAME_LENGTH {
        assert((a + b)[1] == a[1]);
        law_prediction_is_stable(a, b, mode.is_response);
        law_prediction_bounds(a, mode.is_response);
        if mode.codes.contains(a[1]) {
            assert(a.len() >= MAX_FRAME_LENGTH ==> predict(n, a) is Length);
            assert(predict(n, a) is Length ==> predict(n, a + b) == predict(n, a));
        }
        assert forall|k: usize|
            #![trigger frame_due(a, k)]
            frame_due(a, k) != ExtractResult::Insufficient implies frame_due(a + b, k) == frame_due(
            a,
            k,
        ) by {
            if MIN_FRAME_LENGTH <= k <= MAX_FRAME_LENGTH && k <= a.len() {
                assert((a + b).take(k - 2) =~= a.take(k - 2));
            }
        }
    }
}

/// How many bytes are at hand does not matter to decisive predictors.
proof fn lemma_ahead_is_irrelevant(
    buffer: Seq<u8>,
    expired: bool,
    m: nat,
    n: nat,
    mode: Mode,
    predict: Predictions,
)
    requires
        decisive(mode.codes, predict),
    ensures
        rtu_flush(buffer, expired, m, mode, predict).events == rtu_flush(
            buffer,
            expired,
            n,
            mode,
            predict,
        ).events,
        rtu_flush(buffer, expired, m, mode, predict).rest == rtu_flush(
            buffer,
            expired,
            n,
            mode,
            predict,
        ).rest,
    decreases buffer.len(),
{
    if buffer.len() > 0 {
        if is_custom(buffer, mode.codes) {
            assert(predict(m, buffer) == predict(n, buffer));
        }
        match front(buffer, m, mode, predict) {
            ExtractResult::Frame(k) => {
                lemma_ahead_is_irrelevant(buffer.skip(k as int), expired, m, n, mode, predict);
            },
            _ => {
                lemma_ahead_is_irrelevant(buffer.skip(1), expired, m, n, mode, predict);
            },
        }
    }
}

/// It does not matter how a stream on a network is cut into chunks: as long as
/// the first chunk brings no error, flushing it and then the rest finds the
/// frames that flushing both at once finds, and leaves the same bytes. If both
/// at once bring no error, the first chunk brings none either.
pub proof fn law_rtu_chunks(a: Seq<u8>, b: Seq<u8>, ahead: nat, mode: Mode, predict: Predictions)
    requires
        !mode.strict,
        decisive(mode.codes, predict),
    ensures
        ({
            let first = rtu_flush(a, false, ahead, mode, predict);
            let second = rtu_flush(first.rest + b, false, ahead, mode, predict);
            let whole = rtu_flush(a + b, false, ahead, mode, predict);
            &&& error_free(whole.events) ==> error_free(first.events)
            &&& error_free(first.events) ==> whole.events == first.events + second.events
                && whole.rest == second.rest
        }),
    decreases a.len(),
{
    let first = rtu_flush(a, false, ahead, mode, predict);
    let second = rtu_flush(first.rest + b, false, ahead, mode, predict);
    let whole = rtu_flush(a + b, false, ahead, mode, predict);
    if a.len() == 0 {
        assert(a + b =~= b);
        assert(first.rest + b =~= b);
        assert(first.events + second.events =~= second.events);
    } else {
        lemma_front_stable(a, b, ahead, mode, predict);
        match front(a, ahead, mode, predict) {
            ExtractResult::Frame(total) => {
                let n = total as int;
                let tail = a.skip(n);
                let e = rtu_event(a.take(n));
                assert((a + b).skip(n) =~= tail + b);
                assert((a + b).take(n) =~= a.take(n));
                let tail_first = rtu_flush(tail, false, ahead, mode, predict);
                let tail_whole = rtu_flush(tail + b, false, ahead, mode, predict);
                assert(first.events == seq![e] + tail_first.events);
                assert(whole.events == seq![e] + tail_whole.events);
                law_rtu_chunks(tail, b, ahead, mode, predict);
                if error_free(whole.events) {
                    assert forall|i: int| 0 <= i < tail_whole.events.len() implies (
                    #[trigger] tail_whole.events[i]) is Framing by {
                        assert(whole.events[i + 1] is Framing);
                    }
                }
                if error_free(first.events) {
                    assert forall|i: int| 0 <= i < tail_first.events.len() implies (
                    #[trigger] tail_first.events[i]) is Framing by {
                        assert(first.events[i + 1] is Framing);
                    }
                    assert(whole.events =~= first.events + second.events);
                }
            },
            ExtractResult::Skip => {
                let tail = a.skip(1);
                assert((a + b).skip(1) =~= tail + b);
                law_rtu_chunks(tail, b, ahead, mode, predict);
                assert(first.events =~= rtu_flush(tail, false, ahead, mode, predict).events);
                assert(whole.events =~= rtu_flush(tail + b, false, ahead, mode, predict).events);
            },
            ExtractResult::Insufficient => {
                assert(first.events + second.events =~= second.events);
            },
            ExtractResult::Invalid => {
                assert(!(first.events[0] is Framing));
                assert(!(whole.events[0] is Framing));
            },
        }
    }
}

/// A chunk larger than the pool loses nothing on a network: if all its bytes
/// could be kept and flushed without an error, feeding it through the pool finds
/// the same frames and leaves the same bytes.
pub proof fn law_rtu_large_chunk(buffer: Seq<u8>, data: Seq<u8>, mode: Mode, predict: Predictions)
    requires
        !mode.strict,
        decisive(mode.codes, predict),
        buffer.len() <= POOL_SIZE,
        error_free(rtu_flush(buffer + data, false, 0, mode, predict).events),
    ensures
        ({
            let whole = rtu_flush(buffer + data, false, 0, mode, predict);
            let fed = rtu_feed(buffer, data, mode, predict);
            let flushed = rtu_flush(fed.rest, false, 0, mode, predict);
            fed.events + flushed.events == whole.events && flushed.rest == whole.rest
        }),
    decreases data.len(), buffer.len(),
{
    let whole = rtu_flush(buffer + data, false, 0, mode, predict);
    let fed = rtu_feed(buffer, data, mode, predict);
    if buffer.len() + data.len() <= POOL_SIZE {
        assert(fed.events + whole.events =~= whole.events);
    } else {
        let space = POOL_SIZE - buffer.len();
        let full = buffer + data.take(space);
        let tail = data.skip(space);
        let ahead = (data.len() - space) as nat;
        let first = rtu_flush(full, false, 0, mode, predict);
        assert(full + tail =~= buffer + data);
        law_rtu_chunks(full, tail, 0, mode, predict);
        law_rtu_flush_makes_room(full, false, 0, mode, predict);
        lemma_ahead_is_irrelevant(full, false, ahead, 0, mode, predict);
        let second = rtu_flush(first.rest + tail, false, 0, mode, predict);
        assert forall|i: int| 0 <= i < second.events.len() implies (
        #[trigger] second.events[i]) is Framing by {
            assert(whole.events[first.events.len() + i] is Framing);
        }
        law_rtu_large_chunk(first.rest, tail, mode, predict);
        let next = rtu_feed(first.rest, tail, mode, predict);
        let flushed = rtu_flush(next.rest, false, 0, mode, predict);
        assert(fed.events == first.events + next.events);
        assert(first.events + next.events + flushed.events =~= first.events + (next.events
            + flushed.events));
    }
}

// ----- answers of predictors -----
/// An answer that a predictor gave.
pub struct Answer {
    pub question: Question,
    pub said: CustomFcPredict,
}

/// `predict` says what the answers say.
pub open spec fn agrees(predict: Predictions, answers: Seq<Answer>) -> bool {
    forall|i: int|
        0 <= i < answers.len() ==> predict(
            (#[trigger] answers[i]).question.ahead,
            answers[i].question.buffer,
        ) == answers[i].said
}

/// The questions that were answered.
pub open spec fn asked_of(answers: Seq<Answer>) -> Seq<Question> {
    answers.map_values(|a: Answer| a.question)
}

/// Fewer bytes are at hand with every question, or else fewer are asked about.
pub open spec fn descending(answers: Seq<Answer>) -> bool {
    forall|i: int, j: int|
        0 <= i < j < answers.len() ==> {
            let (p, q) = ((#[trigger] answers[i]).question, (#[trigger] answers[j]).question);
            p.ahead > q.ahead || (p.ahead == q.ahead && p.buffer.len() > q.buffer.len())
        }
}

/// What the answers say, and nothing definite elsewhere.
pub open spec fn said_by(answers: Seq<Answer>) -> Predictions {
    |ahead: nat, buffer: Seq<u8>|
        if exists|i: int|
            0 <= i < answers.len() && (#[trigger] answers[i]).question == (Question {
                ahead,
                buffer,
            }) {
            answers[choose|i: int|
                0 <= i < answers.len() && (#[trigger] answers[i]).question == (Question {
                    ahead,
                    buffer,
                })].said
        } else {
            CustomFcPredict::NeedMore
        }
}

pub(crate) proof fn lemma_said_by_agrees(answers: Seq<Answer>)
    requires
        descending(answers),
    ensures
        agrees(said_by(answers), answers),
{
    let predict = said_by(answers);
    assert forall|i: int| 0 <= i < answers.len() implies predict(
        (#[trigger] answers[i]).question.ahead,
        answers[i].question.buffer,
    ) == answers[i].said by {
        let q = answers[i].question;
        assert(answers[i].question == (Question { ahead: q.ahead, buffer: q.buffer }));
        let k = choose|k: int|
            0 <= k < answers.len() && (#[trigger] answers[k]).question == (Question {
                ahead: q.ahead,
                buffer: q.buffer,
            });
        assert(k == i) by {
            if k < i {
                assert(answers[k].question != answers[i].question);
            } else if i < k {
                assert(answers[i].question != answers[k].question);
            }
        }
    }
}

/// Whatever predictors say beyond these answers, `events` and `rest` are what
/// becomes of `buffer`.
pub(crate) open spec fn is_flush(
    buffer: Seq<u8>,
    expired: bool,
    ahead: nat,
    mode: Mode,
    answers: Seq<Answer>,
    events: Seq<Event>,
    rest: Seq<u8>,
) -> bool {
    forall|predict: Predictions| #[trigger]
        agrees(predict, answers) ==> rtu_flush(buffer, expired, ahead, mode, predict) == (RtuRun {
            events,
            rest,
            asked: asked_of(answers),
        })
}

/// Whatever predictors say beyond these answers, reporting `events` and then going
/// on with `left` is what becomes of `buffer`.
pub(crate) open spec fn is_underway(
    buffer: Seq<u8>,
    expired: bool,
    ahead: nat,
    mode: Mode,
    answers: Seq<Answer>,
    events: Seq<Event>,
    left: Seq<u8>,
) -> bool {
    forall|predict: Predictions| #[trigger]
        agrees(predict, answers) ==> {
            let later = rtu_flush(left, expired, ahead, mode, predict);
            rtu_flush(buffer, expired, ahead, mode, predict) == (RtuRun {
                events: events + later.events,
                rest: later.rest,
                asked: asked_of(answers) + later.asked,
            })
        }
}

pub(crate) proof fn lemma_flush_begins(buffer: Seq<u8>, expired: bool, ahead: nat, mode: Mode)
    ensures
        is_underway(buffer, expired, ahead, mode, Seq::empty(), Seq::empty(), buffer),
{
    let none = Seq::<Answer>::empty();
    assert forall|predict: Predictions| #[trigger] agrees(predict, none) implies {
        let later = rtu_flush(buffer, expired, ahead, mode, predict);
        later == (RtuRun {
            events: Seq::<Event>::empty() + later.events,
            rest: later.rest,
            asked: asked_of(none) + later.asked,
        })
    } by {
        let later = rtu_flush(buffer, expired, ahead, mode, predict);
        assert(Seq::<Event>::empty() + later.events =~= later.events);
        assert(asked_of(none) + later.asked =~= later.asked);
    }
}

/// The answers after a predictor was asked for `left`, or was not.
pub(crate) open spec fn with_answer(
    answers: Seq<Answer>,
    left: Seq<u8>,
    ahead: nat,
    custom: Option<CustomFcPredict>,
) -> Seq<Answer> {
    match custom {
        Some(said) => answers.push(Answer { question: Question { ahead, buffer: left }, said }),
        None => answers,
    }
}

/// One step of a flush that is under way.
pub(crate) proof fn lemma_flush_step(
    buffer: Seq<u8>,
    expired: bool,
    ahead: nat,
    mode: Mode,
    answers: Seq<Answer>,
    events: Seq<Event>,
    left: Seq<u8>,
    custom: Option<CustomFcPredict>,
)
    requires
        is_underway(buffer, expired, ahead, mode, answers, events, left),
        left.len() > 0,
        custom is Some == is_custom(left, mode.codes),
    ensures
        ({
            let after = with_answer(answers, left, ahead, custom);
            match rtu_step(
                left,
                expired,
                mode.strict,
                rtu_front(left, mode.is_response, custom),
            ) {
                Step::Go { events: e, skip } => 0 < skip <= left.len() ==> is_underway(
                    buffer,
                    expired,
                    ahead,
                    mode,
                    after,
                    events + e,
                    left.skip(skip as int),
                ),
                Step::Stop { events: e, rest } => is_flush(
                    buffer,
                    expired,
                    ahead,
                    mode,
                    after,
                    events + e,
                    rest,
                ),
            }
        }),
{
    let after = with_answer(answers, left, ahead, custom);
    let asked = questions(left, ahead, mode.codes);
    assert(asked_of(after) =~= asked_of(answers) + asked);
    assert forall|predict: Predictions| #[trigger] agrees(predict, after) implies agrees(
        predict,
        answers,
    ) && front(left, ahead, mode, predict) == rtu_front(left, mode.is_response, custom) by {
        assert forall|i: int| 0 <= i < answers.len() implies predict(
            (#[trigger] answers[i]).question.ahead,
            answers[i].question.buffer,
        ) == answers[i].said by {
            assert(after[i] == answers[i]);
        }
        if let Some(said) = custom {
            assert(after[answers.len() as int].said == said);
        }
    }
    match rtu_step(left, expired, mode.strict, rtu_front(left, mode.is_response, custom)) {
        Step::Go { events: e, skip } => {
            if 0 < skip <= left.len() {
                let next = left.skip(skip as int);
                assert forall|predict: Predictions| #[trigger] agrees(predict, after) implies {
                    let later = rtu_flush(next, expired, ahead, mode, predict);
                    rtu_flush(buffer, expired, ahead, mode, predict) == (RtuRun {
                        events: events + e + later.events,
                        rest: later.rest,
                        asked: asked_of(after) + later.asked,
                    })
                } by {
                    assert(agrees(predict, answers));
                    let later = rtu_flush(next, expired, ahead, mode, predict);
                    assert(events + (e + later.events) =~= events + e + later.events);
                    assert(asked_of(answers) + (asked + later.asked) =~= asked_of(answers) + asked
                        + later.asked);
                }
            }
        },
        Step::Stop { events: e, rest } => {
            assert forall|predict: Predictions| #[trigger] agrees(predict, after) implies rtu_flush(
                buffer,
                expired,
                ahead,
                mode,
                predict,
            ) == (RtuRun { events: events + e, rest, asked: asked_of(after) }) by {
                assert(agrees(predict, answers));
            }
        },
    }
}

pub(crate) proof fn lemma_flush_is_done(
    buffer: Seq<u8>,
    expired: bool,
    ahead: nat,
    mode: Mode,
    answers: Seq<Answer>,
    events: Seq<Event>,
    left: Seq<u8>,
)
    requires
        is_underway(buffer, expired, ahead, mode, answers, events, left),
        left.len() == 0,
    ensures
        is_flush(buffer, expired, ahead, mode, answers, events, left),
{
    assert forall|predict: Predictions| #[trigger] agrees(predict, answers) implies rtu_flush(
        buffer,
        expired,
        ahead,
        mode,
        predict,
    ) == (RtuRun { events, rest: left, asked: asked_of(answers) }) by {
        assert(events + Seq::<Event>::empty() =~= events);
        assert(asked_of(answers) + Seq::<Question>::empty() =~= asked_of(answers));
    }
}

/// Data may be handed over in two steps, as long as the first one fits the
/// pool.
pub(crate) proof fn lemma_feed_step(
    buffer: Seq<u8>,
    data: Seq<u8>,
    n: int,
    mode: Mode,
    predict: Predictions,
)
    requires
        0 <= n <= data.len(),
        buffer.len() + n <= POOL_SIZE,
        n == data.len() || buffer.len() + n == POOL_SIZE,
    ensures
        rtu_feed(buffer + data.take(n), data.skip(n), mode, predict) == rtu_feed(
            buffer,
            data,
            mode,
            predict,
        ),
{
    let joined = buffer + data.take(n);
    let tail = data.skip(n);
    if n == data.len() {
        assert(joined + tail =~= buffer + data);
    } else {
        assert(joined + tail.take(0) =~= joined);
        assert(tail.skip(0) =~= tail);
    }
}

/// Whatever predictors say beyond these answers, `events` and `rest` are what
/// becomes of `data` behind `buffer`.
pub(crate) open spec fn is_feed(
    buffer: Seq<u8>,
    data: Seq<u8>,
    mode: Mode,
    answers: Seq<Answer>,
    events: Seq<Event>,
    rest: Seq<u8>,
) -> bool {
    forall|predict: Predictions| #[trigger]
        agrees(predict, answers) ==> rtu_feed(buffer, data, mode, predict) == (RtuRun {
            events,
            rest,
            asked: asked_of(answers),
        })
}

/// Whatever predictors say beyond these answers, reporting `events` and then going
/// on with `left` behind `kept` is what becomes of `data` behind `buffer`.
pub(crate) open spec fn is_feeding(
    buffer: Seq<u8>,
    data: Seq<u8>,
    mode: Mode,
    answers: Seq<Answer>,
    events: Seq<Event>,
    kept: Seq<u8>,
    left: Seq<u8>,
) -> bool {
    forall|predict: Predictions| #[trigger]
        agrees(predict, answers) ==> {
            let later = rtu_feed(kept, left, mode, predict);
            rtu_feed(buffer, data, mode, predict) == (RtuRun {
                events: events + later.events,
                rest: later.rest,
                asked: asked_of(answers) + later.asked,
            })
        }
}

pub(crate) proof fn lemma_agrees_with_parts(predict: Predictions, a: Seq<Answer>, b: Seq<Answer>)
    requires
        agrees(predict, a + b),
    ensures
        agrees(predict, a),
        agrees(predict, b),
{
    assert forall|i: int| 0 <= i < a.len() implies predict(
        (#[trigger] a[i]).question.ahead,
        a[i].question.buffer,
    ) == a[i].said by {
        assert((a + b)[i] == a[i]);
    }
    assert forall|i: int| 0 <= i < b.len() implies predict(
        (#[trigger] b[i]).question.ahead,
        b[i].question.buffer,
    ) == b[i].said by {
        assert((a + b)[a.len() + i] == b[i]);
    }
}

pub(crate) proof fn lemma_feed_begins(buffer: Seq<u8>, data: Seq<u8>, mode: Mode)
    ensures
        is_feeding(buffer, data, mode, Seq::empty(), Seq::empty(), buffer, data),
{
    let none = Seq::<Answer>::empty();
    assert forall|predict: Predictions| #[trigger] agrees(predict, none) implies {
        let later = rtu_feed(buffer, data, mode, predict);
        later == (RtuRun {
            events: Seq::<Event>::empty() + later.events,
            rest: later.rest,
            asked: asked_of(none) + later.asked,
        })
    } by {
        let later = rtu_feed(buffer, data, mode, predict);
        assert(Seq::<Event>::empty() + later.events =~= later.events);
        assert(asked_of(none) + later.asked =~= later.asked);
    }
}

/// As many bytes as fit were moved to the pool.
pub(crate) proof fn lemma_feed_copies(
    buffer: Seq<u8>,
    data: Seq<u8>,
    mode: Mode,
    answers: Seq<Answer>,
    events: Seq<Event>,
    kept: Seq<u8>,
    left: Seq<u8>,
    n: int,
)
    requires
        is_feeding(buffer, data, mode, answers, events, kept, left),
        0 <= n <= left.len(),
        kept.len() + n <= POOL_SIZE,
        n == left.len() || kept.len() + n == POOL_SIZE,
    ensures
        is_feeding(buffer, data, mode, answers, events, kept + left.take(n), left.skip(n)),
{
    assert forall|predict: Predictions| #[trigger] agrees(predict, answers) implies {
        let later = rtu_feed(kept + left.take(n), left.skip(n), mode, predict);
        rtu_feed(buffer, data, mode, predict) == (RtuRun {
            events: events + later.events,
            rest: later.rest,
            asked: asked_of(answers) + later.asked,
        })
    } by {
        lemma_feed_step(kept, left, n, mode, predict);
    }
}

/// The pool was full and has been flushed.
pub(crate) proof fn lemma_feed_flushes(
    buffer: Seq<u8>,
    data: Seq<u8>,
    mode: Mode,
    answers: Seq<Answer>,
    events: Seq<Event>,
    kept: Seq<u8>,
    left: Seq<u8>,
    more_answers: Seq<Answer>,
    more_events: Seq<Event>,
    rest: Seq<u8>,
)
    requires
        is_feeding(buffer, data, mode, answers, events, kept, left),
        kept.len() == POOL_SIZE,
        left.len() > 0,
        is_flush(kept, false, left.len(), mode, more_answers, more_events, rest),
        rest.len() < MAX_FRAME_LENGTH,
    ensures
        is_feeding(
            buffer,
            data,
            mode,
            answers + more_answers,
            events + more_events,
            rest,
            left,
        ),
{
    let all = answers + more_answers;
    assert forall|predict: Predictions| #[trigger] agrees(predict, all) implies {
        let later = rtu_feed(rest, left, mode, predict);
        rtu_feed(buffer, data, mode, predict) == (RtuRun {
            events: events + more_events + later.events,
            rest: later.rest,
            asked: asked_of(all) + later.asked,
        })
    } by {
        lemma_agrees_with_parts(predict, answers, more_answers);
        let later = rtu_feed(rest, left, mode, predict);
        assert(kept + left.take(0) =~= kept);
        assert(left.skip(0) =~= left);
        let now = rtu_feed(kept, left, mode, predict);
        assert(now.events == more_events + later.events);
        assert(now.asked == asked_of(more_answers) + later.asked);
        assert(events + (more_events + later.events) =~= events + more_events + later.events);
        assert(asked_of(answers) + (asked_of(more_answers) + later.asked) =~= asked_of(all)
            + later.asked);
    }
}

pub(crate) proof fn lemma_feed_is_done(
    buffer: Seq<u8>,
    data: Seq<u8>,
    mode: Mode,
    answers: Seq<Answer>,
    events: Seq<Event>,
    kept: Seq<u8>,
    left: Seq<u8>,
)
    requires
        is_feeding(buffer, data, mode, answers, events, kept, left),
        kept.len() <= POOL_SIZE,
        left.len() == 0,
    ensures
        is_feed(buffer, data, mode, answers, events, kept),
{
    assert forall|predict: Predictions| #[trigger] agrees(predict, answers) implies rtu_feed(
        buffer,
        data,
        mode,
        predict,
    ) == (RtuRun { events, rest: kept, asked: asked_of(answers) }) by {
        assert(kept + left =~= kept);
        assert(events + Seq::<Event>::empty() =~= events);
        assert(asked_of(answers) + Seq::<Question>::empty() =~= asked_of(answers));
    }
}

} // verus!
