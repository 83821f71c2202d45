//! Frames on the wire, and what becomes of streams of bytes.
use vstd::prelude::*;

use crate::error::ModbusError;
use crate::layers::application::ascii::{
    accepted_hex, all_hex, ascii_body, ascii_decoded, ascii_frame, ascii_line, ascii_payload,
    ascii_run,
    hex_bytes, hex_text, line_event, run_events, FsmStatus, Reception, Run,
};
use crate::layers::application::rtu::stream::{
    crc_holds, front, rtu_decoded, rtu_feed, rtu_flush, rtu_frame, Mode, Predictions, Question,
};
use crate::layers::application::rtu::{
    intervals, late_data, FrameInterval, IntervalMs, RtuApplicationLayerOptions,
};
use crate::layers::application::tcp::{tcp_decoded, tcp_frame, tcp_scan};
use crate::layers::application::Event;
use crate::layers::physical::PhysicalLayerType;
use crate::types::{Adu, CustomFcPredict, FramedAdu};
use crate::utils::{crc_of, law_crc_residue, lrc_of, prediction, PredictResult};

verus! {

// ----- TCP -----
/// A TCP frame is the transaction id, the protocol id zero, the number of bytes that
/// follow, the unit, the function code and the data. A number that does not fit the
/// header counts without its multiples of 65536.
pub proof fn law_tcp_frame_layout(transaction: u16, adu: Adu)
    ensures
        ({
            let frame = tcp_frame(transaction, adu);
            let n = adu.data.len() + 2;
            &&& frame.len() == n + 6
            &&& 256 * frame[0] + frame[1] == transaction
            &&& frame[2] == 0 && frame[3] == 0
            &&& 256 * frame[4] + frame[5] == n % 65536
            &&& frame[6] == adu.unit
            &&& frame[7] == adu.fc
            &&& frame.skip(8) == adu.data
        }),
{
    assert(tcp_frame(transaction, adu).skip(8) =~= adu.data);
}

/// Bytes are decoded exactly if they are one TCP frame, and that frame is what the data
/// unit is encoded as. Fewer bytes than a header, a unit and a function code take are too
/// few; all else is invalid.
pub proof fn law_tcp_decoding(data: Seq<u8>)
    ensures
        ({
            let fits = data.len() >= 8 && data[2] == 0 && data[3] == 0 && 256 * data[4] + data[5] + 6
                == data.len();
            match tcp_decoded(data) {
                Ok(adu) => {
                    &&& fits
                    &&& adu.transaction == Some((256 * data[0] + data[1]) as u16)
                    &&& adu.unit == data[6]
                    &&& adu.fc == data[7]
                    &&& adu.data == data.skip(8)
                    &&& data == tcp_frame(adu.transaction->0, adu)
                },
                Err(e) => {
                    &&& !fits
                    &&& e == if data.len() < 8 {
                        ModbusError::InsufficientData
                    } else {
                        ModbusError::InvalidData
                    }
                },
            }
        }),
{
    if let Ok(adu) = tcp_decoded(data) {
        assert(data =~= tcp_frame(adu.transaction->0, adu));
    }
}

/// What becomes of a TCP stream. Less than 8 bytes wait for more. A header with another
/// protocol id than zero, or with an impossible length, gives everything up with one
/// error. Otherwise the bytes wait until there are as many as the header says; these are
/// then reported as a frame, and the stream goes on behind them.
pub proof fn law_tcp_stream(buffer: Seq<u8>)
    ensures
        ({
            let scan = tcp_scan(buffer);
            let n = 256 * buffer[4] + buffer[5];
            let total = n + 6;
            if buffer.len() < 8 {
                scan.events == Seq::<Event>::empty() && scan.rest == buffer
            } else if buffer[2] != 0 || buffer[3] != 0 || n < 2 || n > 254 {
                scan.events == seq![Event::FramingError(ModbusError::InvalidData)]
                    && scan.rest.len() == 0
            } else if buffer.len() < total {
                scan.events == Seq::<Event>::empty() && scan.rest == buffer
            } else {
                let later = tcp_scan(buffer.skip(total));
                &&& scan.rest == later.rest
                &&& scan.events.len() == 1 + later.events.len()
                &&& scan.events.skip(1) == later.events
                &&& scan.events[0] == Event::Framing(
                    FramedAdu {
                        raw: buffer.take(total),
                        adu: Adu {
                            transaction: Some((256 * buffer[0] + buffer[1]) as u16),
                            unit: buffer[6],
                            fc: buffer[7],
                            data: buffer.subrange(8, total),
                        },
                    },
                )
            }
        }),
{
    let n = 256 * buffer[4] + buffer[5];
    let total = n + 6;
    if buffer.len() >= 8 && buffer[2] == 0 && buffer[3] == 0 && 2 <= n <= 254 && buffer.len()
        >= total {
        assert(buffer.take(total).skip(8) =~= buffer.subrange(8, total));
        assert(tcp_scan(buffer).events.skip(1) =~= tcp_scan(buffer.skip(total)).events);
    }
}

// ----- ASCII -----
/// The character `c` is the hex digit `d`, in upper case.
pub open spec fn is_digit(c: u8, d: int) -> bool {
    if d < 10 {
        c == '0' as int + d
    } else {
        c == 'A' as int + (d - 10)
    }
}

/// The character `c` is the hex digit `d`, in either case.
pub open spec fn reads_as(c: u8, d: int) -> bool {
    is_digit(c, d) || (d >= 10 && c == 'a' as int + (d - 10))
}

/// Bytes are written as two uppercase hex digits each, the greater one first. Hex digits
/// are read back in either case.
#[verifier::rlimit(40)]
pub proof fn law_hex_digits(bytes: Seq<u8>, payload: Seq<u8>, c: u8)
    ensures
        hex_text(bytes).len() == 2 * bytes.len(),
        forall|i: int|
            #![trigger bytes[i]]
            0 <= i < bytes.len() ==> is_digit(hex_text(bytes)[2 * i], bytes[i] as int / 16)
                && is_digit(hex_text(bytes)[2 * i + 1], bytes[i] as int % 16),
        accepted_hex(c, false) <==> ('0' as int <= c <= '9' as int) || ('A' as int <= c
            <= 'F' as int),
        accepted_hex(c, true) <==> ('0' as int <= c <= '9' as int) || ('A' as int <= c <= 'F' as int)
            || ('a' as int <= c <= 'f' as int),
        hex_bytes(payload).len() == payload.len() / 2,
        forall|i: int, a: int, b: int|
            #![trigger hex_bytes(payload)[i], reads_as(payload[2 * i], a), reads_as(payload[2 * i + 1], b)]
            0 <= i < payload.len() / 2 && 0 <= a < 16 && 0 <= b < 16 && reads_as(payload[2 * i], a)
                && reads_as(payload[2 * i + 1], b) ==> hex_bytes(payload)[i] == 16 * a + b,
{
    assert forall|i: int|
        #![trigger bytes[i]]
        0 <= i < bytes.len() implies is_digit(hex_text(bytes)[2 * i], bytes[i] as int / 16)
        && is_digit(hex_text(bytes)[2 * i + 1], bytes[i] as int % 16) by {
        assert((2 * i) / 2 == i && (2 * i + 1) / 2 == i);
        let b = bytes[i] as int;
        assert(0 <= b / 16 < 16 && 0 <= b % 16 < 16);
    }
}

/// An ASCII frame is a colon, the hex digits of the unit, the function code, the data and
/// their LRC, a carriage return and a line feed.
#[verifier::rlimit(40)]
pub proof fn law_ascii_frame_layout(adu: Adu)
    ensures
        ({
            let frame = ascii_frame(adu);
            let body = seq![adu.unit, adu.fc] + adu.data;
            let bytes = body.push(lrc_of(body));
            &&& frame.len() == 2 * adu.data.len() + 9
            &&& frame[0] == ':' as int
            &&& frame[frame.len() - 2] == '\r' as int
            &&& frame[frame.len() - 1] == '\n' as int
            &&& forall|i: int|
                #![trigger bytes[i]]
                0 <= i < bytes.len() ==> is_digit(frame[2 * i + 1], bytes[i] as int / 16)
                    && is_digit(frame[2 * i + 2], bytes[i] as int % 16)
        }),
{
    let frame = ascii_frame(adu);
    let body = seq![adu.unit, adu.fc] + adu.data;
    let bytes = body.push(lrc_of(body));
    assert(ascii_body(adu) == body);
    assert(frame == ascii_line(hex_text(bytes)));
    assert forall|i: int| #![trigger bytes[i]] 0 <= i < bytes.len() implies is_digit(
        frame[2 * i + 1],
        bytes[i] as int / 16,
    ) && is_digit(frame[2 * i + 2], bytes[i] as int % 16) by {
        lemma_digits_of(bytes, i);
    }
}

proof fn lemma_digits_of(bytes: Seq<u8>, i: int)
    requires
        0 <= i < bytes.len(),
    ensures
        is_digit(ascii_line(hex_text(bytes))[2 * i + 1], bytes[i] as int / 16),
        is_digit(ascii_line(hex_text(bytes))[2 * i + 2], bytes[i] as int % 16),
{
    let line = ascii_line(hex_text(bytes));
    assert(line[2 * i + 1] == hex_text(bytes)[2 * i]);
    assert(line[2 * i + 2] == hex_text(bytes)[2 * i + 1]);
    assert((2 * i) / 2 == i && (2 * i + 1) / 2 == i);
    let b = bytes[i] as int;
    assert(0 <= b / 16 < 16 && 0 <= b % 16 < 16);
}

/// A text is decoded exactly if it is one ASCII frame, in digits of either case; in
/// uppercase digits it is the text that the data unit is encoded as. What is wrong with
/// other texts is told in this order: too short, not framed by a colon and a line end or
/// an odd number of digits, a character that is no digit, a wrong LRC.
#[verifier::rlimit(40)]
pub proof fn law_ascii_decoding(data: Seq<u8>)
    ensures
        ({
            let n = data.len() as int;
            let digits = data.subrange(1, n - 2);
            let bytes = hex_bytes(digits);
            let framed = data[0] == ':' as int && data[n - 2] == '\r' as int && data[n - 1]
                == '\n' as int;
            let hex = forall|i: int|
                0 <= i < digits.len() ==> {
                    let c = #[trigger] digits[i];
                    ('0' as int <= c <= '9' as int) || ('A' as int <= c <= 'F' as int) || ('a' as int
                        <= c <= 'f' as int)
                };
            match ascii_decoded(data) {
                Ok(adu) => {
                    &&& n >= 9 && n % 2 == 1
                    &&& framed
                    &&& hex
                    &&& adu.transaction is None
                    &&& adu.unit == bytes[0]
                    &&& adu.fc == bytes[1]
                    &&& adu.data == bytes.subrange(2, bytes.len() - 1)
                    &&& bytes.last() == lrc_of(bytes.drop_last())
                    &&& (forall|i: int| 0 <= i < n ==> #[trigger] data[i] < 'a' as int) ==> data
                        == ascii_frame(adu)
                },
                Err(e) => e == if n < 9 {
                    ModbusError::InsufficientData
                } else if !framed || n % 2 == 0 {
                    ModbusError::InvalidData
                } else if !hex {
                    ModbusError::InvalidHex
                } else {
                    ModbusError::LrcCheckFailed
                },
            }
        }),
{
    let n = data.len() as int;
    let digits = data.subrange(1, n - 2);
    lemma_all_hex(digits);
    if let Ok(adu) = ascii_decoded(data) {
        if forall|i: int| 0 <= i < n ==> #[trigger] data[i] < 'a' as int {
            lemma_uppercase_digits(data, digits);
            lemma_text_of_digits(digits);
            lemma_payload_parts(digits, adu);
            lemma_uppercase_text(data, adu, digits, hex_bytes(digits));
        }
    }
}

proof fn lemma_all_hex(digits: Seq<u8>)
    ensures
        all_hex(digits) <==> forall|i: int|
            0 <= i < digits.len() ==> {
                let c = #[trigger] digits[i];
                ('0' as int <= c <= '9' as int) || ('A' as int <= c <= 'F' as int) || ('a' as int <= c
                    <= 'f' as int)
            },
{
}

#[verifier::rlimit(40)]
proof fn lemma_uppercase_text(data: Seq<u8>, adu: Adu, digits: Seq<u8>, bytes: Seq<u8>)
    requires
        data.len() >= 9,
        data[0] == ':' as int,
        data[data.len() - 2] == '\r' as int,
        data[data.len() - 1] == '\n' as int,
        digits == data.subrange(1, data.len() - 2),
        ascii_body(adu).push(lrc_of(ascii_body(adu))) == bytes,
        hex_text(bytes) == digits,
    ensures
        data == ascii_frame(adu),
{
    assert(ascii_line(digits) =~= data);
}

proof fn lemma_uppercase_digits(data: Seq<u8>, digits: Seq<u8>)
    requires
        data.len() >= 3,
        digits == data.subrange(1, data.len() - 2),
        all_hex(digits),
        forall|i: int| 0 <= i < data.len() ==> #[trigger] data[i] < 'a' as int,
    ensures
        forall|i: int| 0 <= i < digits.len() ==> accepted_hex(#[trigger] digits[i], false),
{
    assert forall|i: int| 0 <= i < digits.len() implies accepted_hex(
        #[trigger] digits[i],
        false,
    ) by {
        assert(digits[i] == data[i + 1]);
        assert(accepted_hex(digits[i], true));
    }
}

proof fn lemma_payload_parts(digits: Seq<u8>, adu: Adu)
    requires
        ascii_payload(digits) == Ok::<Adu, ModbusError>(adu),
    ensures
        ascii_body(adu).push(lrc_of(ascii_body(adu))) == hex_bytes(digits),
{
    lemma_checked_bytes(hex_bytes(digits), adu);
}

proof fn lemma_checked_bytes(bytes: Seq<u8>, adu: Adu)
    requires
        bytes.len() >= 3,
        bytes.last() == lrc_of(bytes.drop_last()),
        adu.unit == bytes[0],
        adu.fc == bytes[1],
        adu.data == bytes.subrange(2, bytes.len() - 1),
    ensures
        ascii_body(adu).push(lrc_of(ascii_body(adu))) == bytes,
{
    assert(ascii_body(adu) =~= bytes.drop_last());
    assert(bytes.drop_last().push(bytes.last()) =~= bytes);
}

#[verifier::rlimit(40)]
proof fn lemma_text_of_digits(digits: Seq<u8>)
    requires
        digits.len() % 2 == 0,
        forall|i: int| 0 <= i < digits.len() ==> accepted_hex(#[trigger] digits[i], false),
    ensures
        hex_text(hex_bytes(digits)) == digits,
{
    let bytes = hex_bytes(digits);
    assert forall|i: int| 0 <= i < digits.len() implies hex_text(bytes)[i] == digits[i] by {
        let k = i / 2;
        lemma_hex_pair(digits, bytes, k);
        assert(i == 2 * k || i == 2 * k + 1);
    }
    assert(hex_text(bytes) =~= digits);
}

proof fn lemma_hex_pair(digits: Seq<u8>, bytes: Seq<u8>, k: int)
    requires
        bytes == hex_bytes(digits),
        digits.len() % 2 == 0,
        0 <= k < bytes.len(),
        accepted_hex(digits[2 * k], false),
        accepted_hex(digits[2 * k + 1], false),
    ensures
        hex_text(bytes)[2 * k] == digits[2 * k],
        hex_text(bytes)[2 * k + 1] == digits[2 * k + 1],
{
    let (x, y) = (digits[2 * k], digits[2 * k + 1]);
    let a = crate::layers::application::ascii::hex_value(x);
    let b = crate::layers::application::ascii::hex_value(y);
    assert(0 <= a < 16 && 0 <= b < 16);
    assert(bytes[k] as int == 16 * a + b);
    assert((16 * a + b) / 16 == a && (16 * a + b) % 16 == b);
    assert((2 * k) / 2 == k && (2 * k + 1) / 2 == k);
}

/// What one more byte does to the reception of a line: a colon begins a line, whatever
/// came before. In a line, digits are collected until a carriage return; more than 512 of
/// them, or a character that is no digit, give the line up, and so does anything but a
/// line feed after the carriage return. The line feed completes the line. Outside of a
/// line nothing but a colon counts.
#[verifier::rlimit(40)]
pub proof fn law_ascii_reception(start: Reception, data: Seq<u8>, b: u8, lenient: bool)
    ensures
        ({
            let before = ascii_run(start, data, lenient);
            let after = ascii_run(start, data.push(b), lenient);
            let digits = before.state.frame;
            let digit = ('0' as int <= b <= '9' as int) || ('A' as int <= b <= 'F' as int) || (lenient
                && 'a' as int <= b <= 'f' as int);
            let given_up = after.state.status == FsmStatus::Idle && after.state.frame.len() == 0;
            let in_line = before.state.status == FsmStatus::Reception;
            let ending = before.state.status == FsmStatus::WaitingEnd;
            let too_long = in_line && b != ':' as int && b != '\r' as int && digits.len() >= 512;
            let no_digit = in_line && b != ':' as int && b != '\r' as int && digits.len() < 512
                && !digit;
            let complete = ending && b == '\n' as int;
            &&& b == ':' as int ==> after.state.status == FsmStatus::Reception
                && after.state.frame.len() == 0
            &&& in_line && b == '\r' as int ==> after.state.status == FsmStatus::WaitingEnd
                && after.state.frame == digits
            &&& in_line && digits.len() < 512 && digit ==> after.state.status
                == FsmStatus::Reception && after.state.frame == digits.push(b)
            &&& too_long || no_digit || (ending && b != ':' as int) ==> given_up
            &&& !in_line && !ending && b != ':' as int ==> after.state == before.state
            &&& after.overflows == before.overflows + if too_long {
                1int
            } else {
                0
            }
            &&& after.invalid_hex == before.invalid_hex + if no_digit {
                1int
            } else {
                0
            }
            &&& after.completed == if complete {
                before.completed.push(digits)
            } else {
                before.completed
            }
        }),
{
    assert(data.push(b).drop_last() =~= data);
}

/// Before any byte nothing has happened. What is reported of a run: one error "invalid
/// data" for each line that was too long, then one error "invalid hex" for each with a
/// bad character, then what each complete line decodes to, with its colon and line end as
/// the raw bytes.
#[verifier::rlimit(40)]
pub proof fn law_ascii_reports(start: Reception, run: Run, lenient: bool, i: int)
    requires
        0 <= i < run_events(run).len(),
    ensures
        ascii_run(start, Seq::empty(), lenient) == (Run {
            state: start,
            overflows: 0,
            invalid_hex: 0,
            completed: Seq::empty(),
        }),
        run_events(run).len() == run.overflows + run.invalid_hex + run.completed.len(),
        i < run.overflows ==> run_events(run)[i] == Event::FramingError(ModbusError::InvalidData),
        run.overflows <= i < run.overflows + run.invalid_hex ==> run_events(run)[i]
            == Event::FramingError(ModbusError::InvalidHex),
        i >= run.overflows + run.invalid_hex ==> ({
            let digits = run.completed[i - run.overflows - run.invalid_hex];
            let line = seq![':' as u8] + digits + seq!['\r' as u8, '\n' as u8];
            match run_events(run)[i] {
                Event::Framing(frame) => frame.raw == line && ascii_payload(digits) == Ok::<
                    Adu,
                    ModbusError,
                >(frame.adu) && (digits.len() >= 6 ==> ascii_decoded(line) == Ok::<Adu, ModbusError>(
                    frame.adu,
                )),
                Event::FramingError(e) => ascii_payload(digits) == Err::<Adu, ModbusError>(e) && (
                digits.len() >= 6 ==> ascii_decoded(line) == Err::<Adu, ModbusError>(e)),
            }
        }),
{
    if i >= run.overflows + run.invalid_hex {
        let digits = run.completed[i - run.overflows - run.invalid_hex];
        let line = seq![':' as u8] + digits + seq!['\r' as u8, '\n' as u8];
        assert(run_events(run)[i] == line_event(digits));
        assert(line =~= ascii_line(digits));
        assert(line.subrange(1, line.len() - 2) =~= digits);
    }
}

/// A line of less than 6 digits holds no frame: it is an error for its odd number of
/// digits, else for a character that is no digit, else for its length.
pub proof fn law_short_lines(digits: Seq<u8>)
    requires
        digits.len() < 6,
    ensures
        ascii_payload(digits) == Err::<Adu, ModbusError>(
            if digits.len() % 2 == 1 {
                ModbusError::InvalidData
            } else if exists|i: int|
                0 <= i < digits.len() && {
                    let c = #[trigger] digits[i];
                    !(('0' as int <= c <= '9' as int) || ('A' as int <= c <= 'F' as int) || ('a' as int
                        <= c <= 'f' as int))
                } {
                ModbusError::InvalidHex
            } else {
                ModbusError::InsufficientData
            },
        ),
{
    lemma_all_hex(digits);
}

// ----- RTU -----
/// An RTU frame is the unit, the function code, the data and the CRC, low byte first. The
/// CRC of the whole frame is zero.
pub proof fn law_rtu_frame_layout(adu: Adu)
    ensures
        ({
            let frame = rtu_frame(adu);
            let body = seq![adu.unit, adu.fc] + adu.data;
            let n = frame.len() as int;
            &&& n == adu.data.len() + 4
            &&& frame.take(n - 2) == body
            &&& frame[n - 2] == crc_of(body) % 256
            &&& frame[n - 1] == crc_of(body) / 256
            &&& crc_of(frame) == 0
        }),
{
    let frame = rtu_frame(adu);
    let body = seq![adu.unit, adu.fc] + adu.data;
    assert(frame.take(frame.len() - 2) =~= body);
    law_crc_residue(body);
}

/// Bytes of which the last two are the CRC of the others are what their data unit is
/// encoded as.
proof fn lemma_crc_holds(data: Seq<u8>)
    requires
        data.len() >= 4,
    ensures
        crc_holds(data, data.len() as int) <==> data == rtu_frame(
            Adu {
                transaction: None,
                unit: data[0],
                fc: data[1],
                data: data.subrange(2, data.len() - 2),
            },
        ),
{
    let n = data.len() as int;
    let adu = Adu {
        transaction: None,
        unit: data[0],
        fc: data[1],
        data: data.subrange(2, n - 2),
    };
    let body = seq![adu.unit, adu.fc] + adu.data;
    let frame = rtu_frame(adu);
    assert(body =~= data.take(n - 2));
    law_rtu_frame_layout(adu);
    assert(frame.len() == n);
    if crc_holds(data, n) {
        assert forall|i: int| 0 <= i < n implies frame[i] == data[i] by {
            if i < n - 2 {
                assert(frame.take(n - 2)[i] == data.take(n - 2)[i]);
            }
        }
        assert(frame =~= data);
    }
}

/// Bytes are decoded exactly if they are one RTU frame: they are then what the data unit
/// is encoded as, and their CRC is zero. Less than 4 bytes are too few; otherwise it is
/// the CRC that fails.
#[verifier::rlimit(40)]
pub proof fn law_rtu_decoding(data: Seq<u8>)
    ensures
        match rtu_decoded(data) {
            Ok(adu) => {
                &&& data == rtu_frame(adu)
                &&& crc_of(data) == 0
                &&& adu.transaction is None
                &&& adu.unit == data[0]
                &&& adu.fc == data[1]
                &&& adu.data == data.subrange(2, data.len() - 2)
            },
            Err(e) => if data.len() < 4 {
                e == ModbusError::InsufficientData
            } else {
                &&& e == ModbusError::CrcCheckFailed
                &&& forall|adu: Adu| data != #[trigger] rtu_frame(adu)
            },
        },
{
    if data.len() >= 4 {
        lemma_crc_holds(data);
        let own = Adu {
            transaction: None,
            unit: data[0],
            fc: data[1],
            data: data.subrange(2, data.len() - 2),
        };
        law_rtu_frame_layout(own);
        assert forall|adu: Adu| data == #[trigger] rtu_frame(adu) implies data == rtu_frame(
            own,
        ) by {
            law_rtu_frame_layout(adu);
            assert(data.take(data.len() - 2)[0] == adu.unit);
            assert(data.take(data.len() - 2)[1] == adu.fc);
            assert(own.data =~= adu.data) by {
                assert forall|i: int| 0 <= i < own.data.len() implies own.data[i] == adu.data[i] by {
                    assert(data.take(data.len() - 2)[i + 2] == adu.data[i]);
                }
            }
        }
    }
}

/// What is reported as an RTU frame is one: it is what its data unit is encoded as, its
/// CRC is zero, and it has 4 to 256 bytes.
#[verifier::rlimit(40)]
pub proof fn law_rtu_reports_only_frames(
    buffer: Seq<u8>,
    expired: bool,
    ahead: nat,
    mode: Mode,
    predict: Predictions,
)
    ensures
        forall|i: int|
            #![trigger rtu_flush(buffer, expired, ahead, mode, predict).events[i]]
            0 <= i < rtu_flush(buffer, expired, ahead, mode, predict).events.len() ==> match rtu_flush(
                buffer,
                expired,
                ahead,
                mode,
                predict,
            ).events[i] {
                Event::Framing(frame) => {
                    &&& frame.raw == rtu_frame(frame.adu)
                    &&& crc_of(frame.raw) == 0
                    &&& 4 <= frame.raw.len() <= 256
                    &&& frame.adu.transaction is None
                },
                Event::FramingError(e) => true,
            },
    decreases buffer.len(),
{
    let run = rtu_flush(buffer, expired, ahead, mode, predict);
    if buffer.len() > 0 {
        match front(buffer, ahead, mode, predict) {
            crate::layers::application::rtu::stream::ExtractResult::Frame(n) => {
                let n = n as int;
                let raw = buffer.take(n);
                law_rtu_reports_only_frames(buffer.skip(n), expired, ahead, mode, predict);
                assert(raw.take(n - 2) =~= buffer.take(n - 2));
                lemma_crc_holds(raw);
                law_rtu_decoding(raw);
                let later = rtu_flush(buffer.skip(n), expired, ahead, mode, predict);
                assert forall|i: int| #![trigger run.events[i]] 0 < i < run.events.len() implies run.events[i]
                    == later.events[i - 1] by {}
            },
            _ => {
                law_rtu_reports_only_frames(buffer.skip(1), expired, ahead, mode, predict);
                let later = rtu_flush(buffer.skip(1), expired, ahead, mode, predict);
                assert(Seq::<Event>::empty() + later.events =~= later.events);
            },
        }
    }
}

/// The length that is told of the frame at the front of `buffer`: by the predictor of its
/// function code, where there is one, and else by the function code itself.
pub open spec fn told(buffer: Seq<u8>, ahead: nat, mode: Mode, predict: Predictions) -> PredictResult {
    if mode.codes.contains(buffer[1]) {
        match predict(ahead, buffer) {
            CustomFcPredict::Length(n) => PredictResult::Length(n),
            CustomFcPredict::NeedMore => PredictResult::NeedMore,
        }
    } else {
        prediction(buffer, mode.is_response)
    }
}

/// The question to the predictor of the function code, if it has one.
pub open spec fn asks(buffer: Seq<u8>, ahead: nat, mode: Mode) -> Seq<Question> {
    if mode.codes.contains(buffer[1]) {
        seq![Question { ahead, buffer }]
    } else {
        Seq::empty()
    }
}

/// What becomes of RTU bytes of which a length of `n` is told. A length under 4 or over
/// 256 bytes is invalid. With fewer bytes the frame is not complete. With enough of them
/// the CRC decides: if the bytes are a frame, it is reported, and the rest follows. If
/// they are not, a serial line gives them up, and on a network the search goes on one
/// byte further.
pub proof fn law_rtu_stream_of_known_length(
    buffer: Seq<u8>,
    n: usize,
    expired: bool,
    ahead: nat,
    mode: Mode,
    predict: Predictions,
)
    requires
        buffer.len() >= 4,
        told(buffer, ahead, mode, predict) == PredictResult::Length(n),
    ensures
        ({
            let run = rtu_flush(buffer, expired, ahead, mode, predict);
            let raw = buffer.take(n as int);
            let adu = Adu {
                transaction: None,
                unit: raw[0],
                fc: raw[1],
                data: raw.subrange(2, n - 2),
            };
            if n < 4 || n > 256 {
                run.events == seq![Event::FramingError(ModbusError::InvalidData)] && run.rest.len()
                    == 0
            } else if buffer.len() >= n && raw == rtu_frame(adu) {
                let later = rtu_flush(buffer.skip(n as int), expired, ahead, mode, predict);
                &&& run.events == seq![Event::Framing(FramedAdu { adu, raw })] + later.events
                &&& run.rest == later.rest
                &&& run.asked == asks(buffer, ahead, mode) + later.asked
            } else if buffer.len() >= n && mode.strict {
                run.events == seq![Event::FramingError(ModbusError::CrcCheckFailed)]
                    && run.rest.len() == 0
            } else if buffer.len() >= n {
                let later = rtu_flush(buffer.skip(1), expired, ahead, mode, predict);
                &&& run.events == later.events && run.rest == later.rest
                &&& run.asked == asks(buffer, ahead, mode) + later.asked
            } else {
                is_incomplete(run.events, run.rest, buffer, expired, mode.strict)
            }
        }),
        ({
            let asked = rtu_flush(buffer, expired, ahead, mode, predict).asked;
            mode.codes.contains(buffer[1]) ==> asked.len() > 0 && asked[0] == (Question {
                ahead,
                buffer,
            })
        }),
{
    if 4 <= n <= 256 && buffer.len() >= n {
        let raw = buffer.take(n as int);
        assert(raw.take(n - 2) =~= buffer.take(n - 2));
        lemma_crc_holds(raw);
        let later = rtu_flush(buffer.skip(1), expired, ahead, mode, predict);
        assert(Seq::<Event>::empty() + later.events =~= later.events);
    }
}

/// `events` and `rest` are what becomes of `buffer`, which is the beginning of a frame:
/// on a network it waits for more. The silence that ends a frame on a serial line makes
/// it an error, which is another one if there was a silence inside the bytes.
pub open spec fn is_incomplete(
    events: Seq<Event>,
    rest: Seq<u8>,
    buffer: Seq<u8>,
    expired: bool,
    strict: bool,
) -> bool {
    if expired {
        events == seq![Event::FramingError(ModbusError::T1_5Exceeded)] && rest.len() == 0
    } else if strict {
        events == seq![Event::FramingError(ModbusError::IncompleteFrame)] && rest.len() == 0
    } else {
        events == Seq::<Event>::empty() && rest == buffer
    }
}

/// What becomes of RTU bytes of which no length is told. Without bytes nothing happens.
/// With less than 4, or where more bytes may tell, the frame is not complete; 256 bytes
/// that tell no length are searched one byte further. A function code of which no length
/// is known is invalid.
pub proof fn law_rtu_stream_of_unknown_length(
    buffer: Seq<u8>,
    expired: bool,
    ahead: nat,
    mode: Mode,
    predict: Predictions,
)
    requires
        buffer.len() < 4 || !(told(buffer, ahead, mode, predict) is Length),
    ensures
        ({
            let run = rtu_flush(buffer, expired, ahead, mode, predict);
            if buffer.len() == 0 {
                run.events.len() == 0 && run.rest.len() == 0
            } else if buffer.len() >= 4 && told(buffer, ahead, mode, predict)
                == PredictResult::Unknown {
                run.events == seq![Event::FramingError(ModbusError::InvalidData)] && run.rest.len()
                    == 0
            } else if buffer.len() >= 256 {
                let later = rtu_flush(buffer.skip(1), expired, ahead, mode, predict);
                run.events == later.events && run.rest == later.rest
            } else {
                is_incomplete(run.events, run.rest, buffer, expired, mode.strict)
            }
        }),
        ({
            let asked = rtu_flush(buffer, expired, ahead, mode, predict).asked;
            buffer.len() >= 4 && mode.codes.contains(buffer[1]) ==> asked.len() > 0 && asked[0] == (
            Question { ahead, buffer })
        }),
{
    if buffer.len() >= 256 {
        let later = rtu_flush(buffer.skip(1), expired, ahead, mode, predict);
        assert(Seq::<Event>::empty() + later.events =~= later.events);
    }
}

/// What arrives is collected, up to 512 bytes. When more arrives, the first 512 bytes are
/// searched for frames, and the rest arrives behind what is left of them.
pub proof fn law_rtu_pool(buffer: Seq<u8>, data: Seq<u8>, mode: Mode, predict: Predictions)
    requires
        buffer.len() <= 512,
    ensures
        ({
            let fed = rtu_feed(buffer, data, mode, predict);
            if buffer.len() + data.len() <= 512 {
                fed.events.len() == 0 && fed.rest == buffer + data
            } else {
                let space = 512 - buffer.len();
                let first = rtu_flush(
                    buffer + data.take(space),
                    false,
                    (data.len() - space) as nat,
                    mode,
                    predict,
                );
                let later = rtu_feed(first.rest, data.skip(space), mode, predict);
                &&& fed.events == first.events + later.events && fed.rest == later.rest
                &&& fed.asked == first.asked + later.asked
            }
        }),
{
    if buffer.len() + data.len() > 512 {
        let space = 512 - buffer.len();
        crate::layers::application::rtu::stream::law_rtu_flush_makes_room(
            buffer + data.take(space),
            false,
            (data.len() - space) as nat,
            mode,
            predict,
        );
    }
}

/// Bytes that arrive after a silence inside a frame make what came before an error.
pub proof fn law_late_data(pending: Seq<u8>, expired: bool)
    ensures
        ({
            let late = late_data(pending, expired);
            if expired && pending.len() > 0 {
                late.events == seq![Event::FramingError(ModbusError::T1_5Exceeded)]
                    && late.rest.len() == 0
            } else {
                late.events.len() == 0 && late.rest == pending
            }
        }),
{
}

/// On networks there are no time-outs. On serial lines milliseconds are taken as they are
/// set. The default of the silence that ends a frame is 38.5 bits, in whole milliseconds
/// that are not less: `ms` is the least number with `ms * baud_rate >= 38500`; above 19200
/// baud it is 1. The silence inside a frame is not supervised unless it is set, and bits
/// count for nothing above 19200 baud.
pub proof fn law_intervals<B>(options: RtuApplicationLayerOptions<B>)
    ensures
        intervals(PhysicalLayerType::Net, options) == (IntervalMs::<B>::Ms(0), IntervalMs::<B>::Ms(0)),
        ({
            let (t35, t15) = intervals(PhysicalLayerType::Serial, options);
            let baud_rate = if options.baud_rate is None {
                9600
            } else {
                options.baud_rate->0
            };
            &&& options.interval_between_frames matches Some(FrameInterval::Ms(n)) ==> t35
                == IntervalMs::<B>::Ms(n)
            &&& options.interval_between_frames matches Some(FrameInterval::Bits(bits)) ==> t35
                == IntervalMs::Bits { baud_rate, bits }
            &&& options.interval_between_frames is None && baud_rate > 19200 ==> t35
                == IntervalMs::<B>::Ms(1)
            &&& options.interval_between_frames is None && 0 < baud_rate <= 19200 ==> (
            t35 matches IntervalMs::Ms(ms) && ms * baud_rate >= 38500 && (ms - 1) * baud_rate
                < 38500)
            &&& options.interval_between_frames is None && baud_rate == 0 ==> t35
                == IntervalMs::<B>::Ms(u32::MAX)
            &&& options.inter_char_timeout is None ==> t15 == IntervalMs::<B>::Ms(0)
            &&& options.inter_char_timeout matches Some(FrameInterval::Ms(n)) ==> t15
                == IntervalMs::<B>::Ms(n)
            &&& options.inter_char_timeout matches Some(FrameInterval::Bits(bits)) ==> t15
                == if baud_rate > 19200 {
                IntervalMs::Ms(0)
            } else {
                IntervalMs::Bits { baud_rate, bits }
            }
        }),
{
    let baud_rate = if options.baud_rate is None {
        9600
    } else {
        options.baud_rate->0
    };
    if 0 < baud_rate <= 19200 {
        let b = baud_rate as int;
        let ms = (38500 + b - 1) / b;
        assert(ms * b >= 38500 && (ms - 1) * b < 38500 && 0 <= ms <= 38500) by (nonlinear_arith)
            requires
                0 < b <= 19200,
                ms == (38500 + b - 1) / b,
        ;
    }
}

} // verus!
