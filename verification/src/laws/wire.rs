//! Words, registers, coils and checksums on the wire.
use vstd::arithmetic::power2::{lemma_pow2_pos, lemma_pow2_unfold, pow2};
use vstd::prelude::*;

use crate::crc_table::{generator_times, lemma_division};
use crate::utils::{
    be_bytes, be_word_at, bit_of, byte_sum, coil_bytes, coil_chunk, connection_id, crc_from, crc_of,
    decimal_digits, high_byte, in_some_range, lemma_number_bits,
    lemma_number_bound, low_byte, lrc_of, number_of_bits, packed_coils, packed_registers,
    prediction, text_of, unpacked_coils, unpacked_registers, utf8_lossy, word, PredictResult,
};

verus! {

// ----- words and registers -----
/// A word stands on the wire as its quotient and its remainder by 256.
pub proof fn law_words_on_the_wire(w: u16, hi: u8, lo: u8, data: Seq<u8>, i: int)
    ensures
        high_byte(w) == w / 256,
        low_byte(w) == w % 256,
        word(hi, lo) == 256 * hi + lo,
        be_bytes(w).len() == 2,
        be_bytes(w)[0] == w / 256,
        be_bytes(w)[1] == w % 256,
        be_word_at(data, i) == 256 * data[i] + data[i + 1],
{
}

/// Each register takes two bytes, its quotient by 256 and then its remainder.
#[verifier::rlimit(40)]
pub proof fn law_registers_on_the_wire(registers: Seq<u16>, bytes: Seq<u8>, n: nat)
    ensures
        packed_registers(registers).len() == 2 * registers.len(),
        forall|i: int|
            #![trigger registers[i]]
            0 <= i < registers.len() ==> packed_registers(registers)[2 * i] == registers[i] / 256
                && packed_registers(registers)[2 * i + 1] == registers[i] % 256,
        unpacked_registers(bytes, n).len() == n,
        forall|i: int|
            0 <= i < n ==> #[trigger] unpacked_registers(bytes, n)[i] == 256 * bytes[2 * i]
                + bytes[2 * i + 1],
{
    assert forall|i: int| #![trigger registers[i]] 0 <= i < registers.len() implies packed_registers(
        registers,
    )[2 * i] == registers[i] / 256 && packed_registers(registers)[2 * i + 1] == registers[i]
        % 256 by {
        assert((2 * i) / 2 == i && (2 * i + 1) / 2 == i);
    }
}

// ----- coils -----
proof fn lemma_bit(n: int, k: nat)
    requires
        n >= 0,
    ensures
        bit_of(n, k) <==> (n / pow2(k) as int) % 2 == 1,
    decreases k,
{
    lemma_pow2_pos(k);
    if k == 0 {
        vstd::arithmetic::power2::lemma2_to64();
    } else {
        lemma_bit(n / 2, (k - 1) as nat);
        lemma_pow2_unfold(k);
        lemma_pow2_pos((k - 1) as nat);
        vstd::arithmetic::div_mod::lemma_div_denominator(n, 2, pow2((k - 1) as nat) as int);
    }
}

/// A number made of few bits has no others.
proof fn lemma_no_more_bits(bits: Seq<bool>, k: nat)
    requires
        k >= bits.len(),
    ensures
        !bit_of(number_of_bits(bits), k),
        number_of_bits(bits) >= 0,
    decreases bits.len(),
{
    if bits.len() > 0 {
        let rest = bits.drop_first();
        lemma_no_more_bits(rest, (k - 1) as nat);
        assert(number_of_bits(bits) / 2 == number_of_bits(rest));
    } else {
        lemma_bit(0, k);
        lemma_pow2_pos(k);
    }
}

/// Coils take as few bytes as can hold them. Bit `k` of byte `j` is coil `8 * j + k`,
/// and zero where there is no such coil.
#[verifier::rlimit(40)]
pub proof fn law_coils_on_the_wire(coils: Seq<bool>, bytes: Seq<u8>, n: nat)
    ensures
        n <= 8 * coil_bytes(n) < n + 8,
        packed_coils(coils).len() == (coils.len() + 7) / 8,
        forall|j: int, k: nat|
            #![trigger packed_coils(coils)[j], pow2(k)]
            0 <= j < packed_coils(coils).len() && k < 8 ==> ((packed_coils(coils)[j] as int / pow2(
                k,
            ) as int) % 2 == 1 <==> 8 * j + k < coils.len() && coils[8 * j + k]),
        unpacked_coils(bytes, n).len() == n,
        forall|i: int|
            0 <= i < n ==> (#[trigger] unpacked_coils(bytes, n)[i] <==> (bytes[i / 8] as int / pow2(
                (i % 8) as nat,
            ) as int) % 2 == 1),
{
    assert forall|j: int, k: nat|
        #![trigger packed_coils(coils)[j], pow2(k)]
        0 <= j < packed_coils(coils).len() && k < 8 implies ((packed_coils(coils)[j] as int / pow2(
        k,
    ) as int) % 2 == 1 <==> 8 * j + k < coils.len() && coils[8 * j + k]) by {
        let chunk = coil_chunk(coils, j);
        lemma_number_bound(chunk);
        assert(packed_coils(coils)[j] as int == number_of_bits(chunk));
        lemma_bit(number_of_bits(chunk), k);
        if k < chunk.len() {
            lemma_number_bits(chunk, k);
            assert(chunk[k as int] == coils[8 * j + k]);
        } else {
            lemma_no_more_bits(chunk, k);
        }
    }
    assert forall|i: int| 0 <= i < n implies (#[trigger] unpacked_coils(bytes, n)[i] <==> (
    bytes[i / 8] as int / pow2((i % 8) as nat) as int) % 2 == 1) by {
        lemma_bit(bytes[i / 8] as int, (i % 8) as nat);
    }
}

// ----- checksums -----
/// The CRC starts at 0xffff. A byte is added to its low end, and what then counts is
/// the remainder of a division by the generator x^16 + x^15 + x^2 + 1, bits in reverse
/// order and without carries: the register before is that remainder, eight places up,
/// plus a multiple of the generator.
pub proof fn law_crc_is_a_remainder(data: Seq<u8>, seed: u16, b: u8)
    ensures
        crc_of(Seq::empty()) == 0xffff,
        crc_of(data) == crc_from(data, 0xffff),
        crc_from(Seq::empty(), seed) == seed,
        exists|q: u32|
            q < 256 && (crc_from(data, seed) ^ b as u16) as u32 == (crc_from(
                data.push(b),
                seed,
            ) as u32) << 8 ^ #[trigger] generator_times(q),
{
    assert(data.push(b).drop_last() =~= data);
    let q = lemma_division(crc_from(data, seed) ^ b as u16);
}

/// All bytes and their LRC add up to a multiple of 256.
pub proof fn law_lrc_is_a_sum(data: Seq<u8>)
    ensures
        (data.fold_left(0int, |sum: int, b: u8| sum + b) + lrc_of(data)) % 256 == 0,
{
    lemma_sum(data);
}

proof fn lemma_sum(data: Seq<u8>)
    ensures
        data.fold_left(0int, |sum: int, b: u8| sum + b) == byte_sum(data),
        byte_sum(data) >= 0,
    decreases data.len(),
{
    if data.len() > 0 {
        lemma_sum(data.drop_last());
    }
}

// ----- address ranges -----
/// Without ranges every address is admitted. Otherwise a range has to hold all of them,
/// from its first to its last address, and a range that ends before it begins holds
/// none.
pub proof fn law_ranges_admit(values: Seq<u16>, ranges: Seq<(u16, u16)>, r: (u16, u16))
    ensures
        in_some_range(values, Seq::empty()),
        in_some_range(values, seq![r]) <==> r.0 <= r.1 && forall|i: int|
            0 <= i < values.len() ==> r.0 <= #[trigger] values[i] <= r.1,
        ranges.len() > 0 ==> (in_some_range(values, ranges.push(r)) <==> in_some_range(
            values,
            ranges,
        ) || in_some_range(values, seq![r])),
{
    let one = seq![r];
    assert(one[0] == r);
    if ranges.len() > 0 {
        let more = ranges.push(r);
        assert(more[ranges.len() as int] == r);
        if in_some_range(values, ranges) {
            let k = choose|k: int|
                0 <= k < ranges.len() && (#[trigger] ranges[k]).0 <= ranges[k].1
                    && crate::utils::all_within(values, ranges[k]);
            assert(more[k] == ranges[k]);
        }
        if in_some_range(values, more) {
            let k = choose|k: int|
                0 <= k < more.len() && (#[trigger] more[k]).0 <= more[k].1
                    && crate::utils::all_within(values, more[k]);
            if k < ranges.len() {
                assert(ranges[k] == more[k]);
            }
        }
    }
}

// ----- lengths of RTU frames -----
/// Requests have as many bytes as their function code says, unit and checksum included,
/// and those that write several values say themselves how many bytes these take.
pub proof fn law_request_lengths(buffer: Seq<u8>)
    requires
        buffer.len() >= 2,
    ensures
        ({
            let p = prediction(buffer, false);
            let fc = buffer[1];
            &&& (1 <= fc <= 6) ==> p == PredictResult::Length(8)
            &&& fc == 17 ==> p == PredictResult::Length(4)
            &&& fc == 22 ==> p == PredictResult::Length(10)
            &&& fc == 43 ==> p == PredictResult::Length(7)
            &&& fc == 15 || fc == 16 ==> p == if buffer.len() < 7 {
                PredictResult::NeedMore
            } else {
                PredictResult::Length((9 + buffer[6]) as usize)
            }
            &&& fc == 23 ==> p == if buffer.len() < 11 {
                PredictResult::NeedMore
            } else {
                PredictResult::Length((13 + buffer[10]) as usize)
            }
            &&& p == PredictResult::Unknown <==> fc == 0 || (7 <= fc <= 14) || (18 <= fc <= 21) || (
            24 <= fc <= 42) || fc >= 44
        }),
{
}

/// Responses: an exception takes 5 bytes, a confirmation repeats two or three words, and
/// values are counted by their first byte.
pub proof fn law_response_lengths(buffer: Seq<u8>)
    requires
        buffer.len() >= 2,
    ensures
        ({
            let p = prediction(buffer, true);
            let fc = buffer[1];
            &&& fc >= 128 ==> p == PredictResult::Length(5)
            &&& fc == 5 || fc == 6 || fc == 15 || fc == 16 ==> p == PredictResult::Length(8)
            &&& fc == 22 ==> p == PredictResult::Length(10)
            &&& (1 <= fc <= 4) || fc == 17 || fc == 23 ==> p == if buffer.len() < 3 {
                PredictResult::NeedMore
            } else {
                PredictResult::Length((5 + buffer[2]) as usize)
            }
            &&& p == PredictResult::Unknown <==> fc == 0 || (7 <= fc <= 14) || (18 <= fc <= 21) || (
            24 <= fc <= 127)
        }),
{
}

/// Nothing is told of a frame by its unit alone.
pub proof fn law_unit_tells_no_length(buffer: Seq<u8>, is_response: bool)
    requires
        buffer.len() < 2,
    ensures
        prediction(buffer, is_response) == PredictResult::NeedMore,
{
}

// ----- connection ids -----
/// The number that characters stand for in decimal notation.
pub open spec fn number_of(digits: Seq<char>) -> int
    decreases digits.len(),
{
    if digits.len() == 0 {
        0
    } else {
        10 * number_of(digits.drop_last()) + (digits.last() as int - '0' as int)
    }
}

/// Numbers are written in decimal digits, without leading zeros.
pub proof fn law_decimal_notation(n: nat)
    ensures
        number_of(decimal_digits(n)) == n,
        forall|i: int|
            0 <= i < decimal_digits(n).len() ==> '0' as int <= #[trigger] decimal_digits(n)[i] as int
                && decimal_digits(n)[i] as int <= '9' as int,
        n > 0 ==> decimal_digits(n)[0] != '0',
        decimal_digits(n).len() > 0,
    decreases n,
{
    let d = decimal_digits(n);
    if n >= 10 {
        law_decimal_notation(n / 10);
        assert(d.drop_last() =~= decimal_digits(n / 10));
        assert(d[0] == decimal_digits(n / 10)[0]);
    } else {
        assert(d.drop_last() =~= Seq::<char>::empty());
        assert(number_of(d.drop_last()) == 0);
    }
}

/// A connection id is its prefix, the time and the sequence number, with hyphens between
/// them.
pub proof fn law_connection_id_parts(prefix: Seq<char>, nanos: nat, seq: nat)
    ensures
        ({
            let id = connection_id(prefix, nanos, seq);
            let (p, n) = (prefix.len() as int, decimal_digits(nanos).len() as int);
            &&& id.take(p) == prefix
            &&& id[p] == '-'
            &&& number_of(id.subrange(p + 1, p + 1 + n)) == nanos
            &&& id[p + 1 + n] == '-'
            &&& number_of(id.skip(p + n + 2)) == seq
        }),
{
    reveal_strlit("-");
    let id = connection_id(prefix, nanos, seq);
    let (p, n) = (prefix.len() as int, decimal_digits(nanos).len() as int);
    law_decimal_notation(nanos);
    law_decimal_notation(seq);
    assert(id.take(p) =~= prefix);
    assert(id.subrange(p + 1, p + 1 + n) =~= decimal_digits(nanos));
    assert(id.skip(p + n + 2) =~= decimal_digits(seq));
}

/// Bytes that encode a text are read as that text; of other bytes std makes one.
pub proof fn law_texts(bytes: Seq<u8>)
    ensures
        vstd::utf8::valid_utf8(bytes) ==> vstd::utf8::encode_utf8(text_of(bytes)) == bytes,
        !vstd::utf8::valid_utf8(bytes) ==> text_of(bytes) == utf8_lossy(bytes),
{
    if vstd::utf8::valid_utf8(bytes) {
        vstd::utf8::decode_utf8_encode_utf8(bytes);
    }
}

} // verus!
