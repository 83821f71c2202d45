//! Checksums, address checks, bit and register packing, RTU length prediction
//! and connection ids.
use vstd::prelude::*;

use crate::crc_table::{crc_shift8, crc_table_entry, lemma_own_bytes, lemma_table_step};

verus! {

// ----- big-endian and little-endian words -----
/// The word whose high byte is `hi` and whose low byte is `lo`.
pub open spec fn word(hi: u8, lo: u8) -> u16 {
    (hi * 256 + lo) as u16
}

/// The high byte of a word.
pub open spec fn high_byte(w: u16) -> u8 {
    (w / 256) as u8
}

/// The low byte of a word.
pub open spec fn low_byte(w: u16) -> u8 {
    (w % 256) as u8
}

/// The two bytes of a word, high byte first.
pub open spec fn be_bytes(w: u16) -> Seq<u8> {
    seq![high_byte(w), low_byte(w)]
}

/// The word at position `i` of `data`, high byte first.
pub open spec fn be_word_at(data: Seq<u8>, i: int) -> u16 {
    word(data[i], data[i + 1])
}

pub(crate) fn from_bytes(hi: u8, lo: u8) -> (r: u16)
    ensures
        r == word(hi, lo),
{
    hi as u16 * 256 + lo as u16
}

pub(crate) fn hi_byte(w: u16) -> (r: u8)
    ensures
        r == high_byte(w),
{
    (w / 256) as u8
}

pub(crate) fn lo_byte(w: u16) -> (r: u8)
    ensures
        r == low_byte(w),
{
    (w % 256) as u8
}

/// Append the two bytes of `w`, high byte first, to `out`.
pub(crate) fn push_word(out: &mut Vec<u8>, w: u16)
    ensures
        final(out)@ == old(out)@ + be_bytes(w),
{
    out.push(hi_byte(w));
    out.push(lo_byte(w));
    assert(out@ =~= old(out)@ + be_bytes(w));
}

/// Splitting a word into its bytes and joining them again gives the word.
pub proof fn law_word_round_trip(w: u16, hi: u8, lo: u8)
    ensures
        word(high_byte(w), low_byte(w)) == w,
        high_byte(word(hi, lo)) == hi,
        low_byte(word(hi, lo)) == lo,
{
}

// ----- slices -----
pub(crate) fn copy_range(data: &[u8], from: usize, to: usize) -> (r: Vec<u8>)
    requires
        from <= to <= data@.len(),
    ensures
        r@ == data@.subrange(from as int, to as int),
{
    let mut r: Vec<u8> = Vec::new();
    let mut i: usize = from;
    while i < to
        invariant
            from <= i <= to <= data@.len(),
            r@ == data@.subrange(from as int, i as int),
        decreases to - i,
    {
        r.push(data[i]);
        i += 1;
        assert(r@ =~= data@.subrange(from as int, i as int));
    }
    r
}

/// A copy of `data`.
pub(crate) fn copy_all(data: &[u8]) -> (r: Vec<u8>)
    ensures
        r@ == data@,
{
    let r: Vec<u8> = copy_range(data, 0, data.len());
    assert(r@ =~= data@);
    r
}

/// A copy of `values`.
pub(crate) fn copy_values<T: Copy>(values: &[T]) -> (r: Vec<T>)
    ensures
        r@ == values@,
{
    let mut r: Vec<T> = Vec::new();
    let mut i: usize = 0;
    while i < values.len()
        invariant
            i <= values@.len(),
            r@ == values@.take(i as int),
        decreases values@.len() - i,
    {
        r.push(values[i]);
        i += 1;
        assert(r@ =~= values@.take(i as int));
    }
    assert(r@ =~= values@);
    r
}

pub(crate) fn append_bytes(out: &mut Vec<u8>, data: &[u8])
    ensures
        final(out)@ == old(out)@ + data@,
{
    let mut i: usize = 0;
    while i < data.len()
        invariant
            i <= data@.len(),
            out@ == old(out)@ + data@.subrange(0, i as int),
        decreases data@.len() - i,
    {
        out.push(data[i]);
        i += 1;
        assert(out@ =~= old(out)@ + data@.subrange(0, i as int));
    }
    assert(data@.subrange(0, data@.len() as int) =~= data@);
}

/// `a` and `b` hold the same bytes.
pub(crate) fn same_bytes(a: &[u8], b: &[u8]) -> (r: bool)
    ensures
        r == (a@ == b@),
{
    if a.len() != b.len() {
        return false;
    }
    let mut i: usize = 0;
    while i < a.len()
        invariant
            i <= a@.len(),
            a@.len() == b@.len(),
            forall|k: int| 0 <= k < i ==> a@[k] == b@[k],
        decreases a@.len() - i,
    {
        if a[i] != b[i] {
            return false;
        }
        i += 1;
    }
    assert(a@ =~= b@);
    true
}

// ----- text -----
/// The text that `String::from_utf8_lossy` reads from bytes.
pub uninterp spec fn utf8_lossy(bytes: Seq<u8>) -> Seq<char>;

/// The text that bytes stand for: what they encode in UTF-8, or what std makes
/// of bytes that are no UTF-8.
pub open spec fn text_of(bytes: Seq<u8>) -> Seq<char> {
    if vstd::utf8::valid_utf8(bytes) {
        vstd::utf8::decode_utf8(bytes)
    } else {
        utf8_lossy(bytes)
    }
}

/// `String::from_utf8_lossy`, as an owned string. The result depends on the
/// bytes alone; bytes that are valid UTF-8 are read as the text they encode, and
/// in the place of others there is the replacement character. How many of those
/// there are, and where, is left to std.
#[verifier::external_body]
pub(crate) fn text_of_bytes(bytes: &[u8]) -> (r: String)
    ensures
        r@ == utf8_lossy(bytes@),
        vstd::utf8::valid_utf8(bytes@) ==> r@ == vstd::utf8::decode_utf8(bytes@),
        !vstd::utf8::valid_utf8(bytes@) ==> r@.contains('\u{fffd}'),
{
    String::from_utf8_lossy(bytes).into_owned()
}

/// The bytes of a text stand for that text.
pub proof fn law_text_round_trip(text: Seq<char>)
    ensures
        text_of(vstd::utf8::encode_utf8(text)) == text,
{
    vstd::utf8::encode_utf8_valid_utf8(text);
    vstd::utf8::encode_utf8_decode_utf8(text);
}

// ----- CRC-16/MODBUS -----
/// The CRC register `c` after the data byte `b`: the byte is added to the low
/// end of the register, which is then divided for eight steps.
pub open spec fn crc_byte(c: u16, b: u8) -> u16 {
    crc_shift8(c ^ (b as u16))
}

/// The CRC register after all of `data`, starting from `seed`.
pub open spec fn crc_from(data: Seq<u8>, seed: u16) -> u16
    decreases data.len(),
{
    if data.len() == 0 {
        seed
    } else {
        crc_byte(crc_from(data.drop_last(), seed), data.last())
    }
}

/// The CRC of `data`.
pub open spec fn crc_of(data: Seq<u8>) -> u16 {
    crc_from(data, 0xffff)
}

pub fn crc(data: &[u8]) -> (r: u16)
    ensures
        r == crc_of(data@),
{
    crc_with_seed(data, 0xffff)
}

/// Continue a CRC with `data`. The seed is `0xffff` for a fresh computation,
/// or the result so far.
pub fn crc_with_seed(data: &[u8], seed: u16) -> (r: u16)
    ensures
        r == crc_from(data@, seed),
{
    let mut crc: u16 = seed;
    let mut i: usize = 0;
    while i < data.len()
        invariant
            i <= data@.len(),
            crc == crc_from(data@.subrange(0, i as int), seed),
        decreases data@.len() - i,
    {
        let byte: u8 = data[i];
        let index: u8 = ((crc ^ byte as u16) & 0xff) as u8;
        let ghost before = crc;
        proof {
            lemma_table_step(before, byte);
            let done = data@.subrange(0, i + 1);
            assert(done.drop_last() =~= data@.subrange(0, i as int));
            assert(done.last() == byte);
        }
        crc = crc_table_entry(index) ^ (crc >> 8);
        i += 1;
    }
    assert(data@.subrange(0, data@.len() as int) =~= data@);
    crc
}

/// The CRC of two pieces can be computed one piece after the other: the result
/// for the first piece is the seed for the second.
pub proof fn law_crc_chains(a: Seq<u8>, b: Seq<u8>, seed: u16)
    ensures
        crc_from(a + b, seed) == crc_from(b, crc_from(a, seed)),
    decreases b.len(),
{
    if b.len() == 0 {
        assert(a + b =~= a);
    } else {
        law_crc_chains(a, b.drop_last(), seed);
        assert((a + b).drop_last() =~= a + b.drop_last());
    }
}

/// Data followed by its own CRC, low byte first, has the CRC zero.
pub proof fn law_crc_residue(data: Seq<u8>)
    ensures
        crc_of(data + seq![low_byte(crc_of(data)), high_byte(crc_of(data))]) == 0,
{
    let c = crc_of(data);
    let tail = seq![low_byte(c), high_byte(c)];
    law_crc_chains(data, tail, 0xffff);
    let one = tail.drop_last();
    assert(one =~= seq![low_byte(c)]);
    assert(one.drop_last() =~= Seq::<u8>::empty());
    reveal_with_fuel(crc_from, 3);
    let lo = low_byte(c);
    let hi = high_byte(c);
    assert(lo == (c & 0xff) as u8 && hi == (c >> 8) as u8) by (bit_vector)
        requires
            lo == (c % 256) as u8,
            hi == (c / 256) as u8,
    ;
    lemma_own_bytes(c, lo, hi);
}

// ----- LRC -----
/// Sum of all bytes of `data`.
pub open spec fn byte_sum(data: Seq<u8>) -> int
    decreases data.len(),
{
    if data.len() == 0 {
        0
    } else {
        byte_sum(data.drop_last()) + data.last()
    }
}

/// The LRC of `data`: the byte that brings its sum to a multiple of 256.
pub open spec fn lrc_of(data: Seq<u8>) -> u8 {
    ((256 - byte_sum(data) % 256) % 256) as u8
}

pub fn lrc(data: &[u8]) -> (r: u8)
    ensures
        r == lrc_of(data@),
{
    let mut sum: u8 = 0;
    let mut i: usize = 0;
    while i < data.len()
        invariant
            i <= data@.len(),
            sum == byte_sum(data@.subrange(0, i as int)) % 256,
        decreases data@.len() - i,
    {
        proof {
            let done = data@.subrange(0, i + 1);
            assert(done.drop_last() =~= data@.subrange(0, i as int));
            assert(done.last() == data@[i as int]);
        }
        sum = sum.wrapping_add(data[i]);
        i += 1;
    }
    assert(data@.subrange(0, data@.len() as int) =~= data@);
    0u8.wrapping_sub(sum)
}

/// Data followed by its own LRC sums up to a multiple of 256.
pub proof fn law_lrc_cancels(data: Seq<u8>)
    ensures
        byte_sum(data.push(lrc_of(data))) % 256 == 0,
{
    let all = data.push(lrc_of(data));
    assert(all.drop_last() =~= data);
}

// ----- address ranges -----
/// `n` lies in the closed interval `r`.
pub open spec fn within(n: u16, r: (u16, u16)) -> bool {
    r.0 <= n <= r.1
}

/// Every value lies in `r`.
pub open spec fn all_within(values: Seq<u16>, r: (u16, u16)) -> bool {
    forall|i: int| 0 <= i < values.len() ==> within(#[trigger] values[i], r)
}

/// The values are admitted by `ranges`: there is no restriction at all, or a
/// single range, whose bounds are in order, holds every value.
pub open spec fn in_some_range(values: Seq<u16>, ranges: Seq<(u16, u16)>) -> bool {
    ranges.len() == 0 || exists|k: int|
        0 <= k < ranges.len() && (#[trigger] ranges[k]).0 <= ranges[k].1 && all_within(
            values,
            ranges[k],
        )
}

fn in_range(n: u16, range: (u16, u16)) -> (r: bool)
    ensures
        r == within(n, range),
{
    n >= range.0 && n <= range.1
}

pub fn check_range(value: &[u16], range: &[(u16, u16)]) -> (r: bool)
    ensures
        r == in_some_range(value@, range@),
{
    if range.len() == 0 {
        return true;
    }
    let mut k: usize = 0;
    while k < range.len()
        invariant
            k <= range@.len(),
            range@.len() > 0,
            forall|j: int|
                0 <= j < k ==> !((#[trigger] range@[j]).0 <= range@[j].1 && all_within(
                    value@,
                    range@[j],
                )),
        decreases range@.len() - k,
    {
        let bounds: (u16, u16) = range[k];
        if bounds.0 <= bounds.1 {
            let mut all: bool = true;
            let mut i: usize = 0;
            while i < value.len()
                invariant
                    i <= value@.len(),
                    all == (forall|j: int|
                        0 <= j < i ==> within(#[trigger] value@[j], bounds)),
                decreases value@.len() - i,
            {
                if !in_range(value[i], bounds) {
                    all = false;
                }
                i += 1;
            }
            if all {
                assert(all_within(value@, range@[k as int]));
                return true;
            }
        }
        k += 1;
    }
    false
}

/// A single-point range admits exactly its point.
pub proof fn law_single_point_range(n: u16, point: u16)
    ensures
        in_some_range(seq![n], seq![(point, point)]) <==> n == point,
{
    let values = seq![n];
    let ranges = seq![(point, point)];
    assert(values[0] == n);
    if n == point {
        assert(all_within(values, ranges[0]));
    }
}

// ----- coils -----
/// Bit `k` of `n`, bit 0 being the least significant one.
pub open spec fn bit_of(n: int, k: nat) -> bool
    decreases k,
{
    if k == 0 {
        n % 2 == 1
    } else {
        bit_of(n / 2, (k - 1) as nat)
    }
}

/// The number whose bit `k` is `bits[k]`.
pub open spec fn number_of_bits(bits: Seq<bool>) -> int
    decreases bits.len(),
{
    if bits.len() == 0 {
        0
    } else {
        (if bits[0] {
            1int
        } else {
            0int
        }) + 2 * number_of_bits(bits.drop_first())
    }
}

/// Number of bytes that `n` coils take.
pub open spec fn coil_bytes(n: nat) -> nat {
    (n + 7) / 8
}

/// The coils that byte `i` carries: eight of them, fewer in the last byte.
pub open spec fn coil_chunk(coils: Seq<bool>, i: int) -> Seq<bool> {
    coils.subrange(
        8 * i,
        if 8 * i + 8 <= coils.len() {
            8 * i + 8
        } else {
            coils.len() as int
        },
    )
}

/// Coils as bytes, eight to a byte, the first coil in the lowest bit.
pub open spec fn packed_coils(coils: Seq<bool>) -> Seq<u8> {
    Seq::new(coil_bytes(coils.len()), |i: int| number_of_bits(coil_chunk(coils, i)) as u8)
}

/// The first `n` coils carried by `bytes`.
pub open spec fn unpacked_coils(bytes: Seq<u8>, n: nat) -> Seq<bool> {
    Seq::new(n, |i: int| bit_of(bytes[i / 8] as int, (i % 8) as nat))
}

pub(crate) proof fn lemma_number_bound(bits: Seq<bool>)
    requires
        bits.len() <= 8,
    ensures
        0 <= number_of_bits(bits) <= 255,
        bits.len() <= 7 ==> number_of_bits(bits) <= 127,
        bits.len() <= 6 ==> number_of_bits(bits) <= 63,
        bits.len() <= 5 ==> number_of_bits(bits) <= 31,
        bits.len() <= 4 ==> number_of_bits(bits) <= 15,
        bits.len() <= 3 ==> number_of_bits(bits) <= 7,
        bits.len() <= 2 ==> number_of_bits(bits) <= 3,
        bits.len() <= 1 ==> number_of_bits(bits) <= 1,
    decreases bits.len(),
{
    if bits.len() > 0 {
        lemma_number_bound(bits.drop_first());
    }
}

pub(crate) proof fn lemma_number_bits(bits: Seq<bool>, k: nat)
    requires
        k < bits.len(),
    ensures
        bit_of(number_of_bits(bits), k) == bits[k as int],
    decreases bits.len(),
{
    let rest = bits.drop_first();
    let n = number_of_bits(bits);
    let m = number_of_bits(rest);
    assert(n % 2 == if bits[0] { 1int } else { 0int } && n / 2 == m);
    if k > 0 {
        lemma_number_bits(rest, (k - 1) as nat);
        assert(rest[k - 1] == bits[k as int]);
    }
}

/// The byte that carries the coils `from .. to`, lowest bit first.
fn pack_byte(coils: &[bool], from: usize, to: usize) -> (r: u8)
    requires
        from <= to <= coils@.len(),
        to - from <= 8,
    ensures
        r as int == number_of_bits(coils@.subrange(from as int, to as int)),
{
    let mut byte: u8 = 0;
    let mut i: usize = to;
    assert(coils@.subrange(to as int, to as int) =~= Seq::<bool>::empty());
    while i > from
        invariant
            from <= i <= to <= coils@.len(),
            to - from <= 8,
            byte as int == number_of_bits(coils@.subrange(i as int, to as int)),
        decreases i,
    {
        i -= 1;
        proof {
            let rest = coils@.subrange(i as int, to as int);
            assert(rest.drop_first() =~= coils@.subrange(i + 1, to as int));
            assert(rest[0] == coils@[i as int]);
            lemma_number_bound(rest.drop_first());
        }
        byte = byte * 2 + if coils[i] {
            1
        } else {
            0
        };
    }
    byte
}

/// Append `coils`, eight to a byte, to `out`.
pub(crate) fn append_packed_coils(out: &mut Vec<u8>, coils: &[bool])
    ensures
        final(out)@ == old(out)@ + packed_coils(coils@),
{
    let ghost packed = packed_coils(coils@);
    let mut from: usize = 0;
    let ghost mut done: int = 0;
    while from < coils.len()
        invariant
            from <= coils@.len(),
            packed == packed_coils(coils@),
            0 <= done <= packed.len(),
            from < coils@.len() ==> from == 8 * done,
            from == coils@.len() ==> done == packed.len(),
            out@ == old(out)@ + packed.subrange(0, done),
        decreases coils@.len() - from,
    {
        let left: usize = coils.len() - from;
        let to: usize = if left >= 8 {
            from + 8
        } else {
            coils.len()
        };
        let byte: u8 = pack_byte(coils, from, to);
        proof {
            assert(coil_chunk(coils@, done) =~= coils@.subrange(from as int, to as int));
            assert(packed[done] == byte);
            done = done + 1;
        }
        out.push(byte);
        assert(out@ =~= old(out)@ + packed.subrange(0, done));
        from = to;
    }
    assert(packed.subrange(0, packed.len() as int) =~= packed);
}

/// Coils as the payload of a response: the number of bytes that `length` coils
/// take, then the coils, eight to a byte.
pub fn pack_coils(coils: &[bool], length: u16) -> (r: Vec<u8>)
    requires
        length + 7 <= u16::MAX,
    ensures
        r@ == seq![(coil_bytes(length as nat) % 256) as u8] + packed_coils(coils@),
{
    let byte_count: u16 = (length + 7) / 8;
    let mut data: Vec<u8> = Vec::new();
    data.push((byte_count % 256) as u8);
    append_packed_coils(&mut data, coils);
    data
}

/// Read `n` coils from the bytes that start at `from`.
pub(crate) fn read_coil_bits(data: &[u8], from: usize, n: usize) -> (r: Vec<bool>)
    requires
        n > 0 ==> from + coil_bytes(n as nat) <= data@.len(),
    ensures
        r@ == unpacked_coils(data@.skip(from as int), n as nat),
{
    let total: usize = data.len();
    let mut result: Vec<bool> = Vec::new();
    let ghost bytes = data@.skip(from as int);
    let ghost all = unpacked_coils(bytes, n as nat);
    let mut i: usize = 0;
    while i < n
        invariant
            i <= n,
            total == data@.len(),
            n > 0 ==> from + coil_bytes(n as nat) <= data@.len(),
            i < n ==> i % 8 == 0,
            bytes == data@.skip(from as int),
            all == unpacked_coils(bytes, n as nat),
            result@ == all.subrange(0, i as int),
        decreases n - i,
    {
        let start: usize = i;
        let mut rest: u8 = data[from + i / 8];
        let ghost byte: int = rest as int;
        let mut k: usize = 0;
        while k < 8 && i < n
            invariant
                k <= 8,
                i == start + k,
                i <= n,
                start % 8 == 0,
                k > 0 || i < n,
                byte == bytes[start as int / 8] as int,
                forall|j: nat| #![trigger bit_of(rest as int, j)]
                    bit_of(rest as int, j) == bit_of(byte, j + k as nat),
                all == unpacked_coils(bytes, n as nat),
                result@ == all.subrange(0, i as int),
            ensures
                i <= n,
                i < n ==> i % 8 == 0,
                i > start,
                result@ == all.subrange(0, i as int),
            decreases 8 - k,
        {
            proof {
                assert(bit_of(rest as int, 0) == bit_of(byte, k as nat));
                assert(i as int / 8 == start as int / 8 && i % 8 == k);
                assert(all[i as int] == bit_of(byte, k as nat));
                assert forall|j: nat| #![trigger bit_of((rest / 2) as int, j)]
                    bit_of((rest / 2) as int, j) == bit_of(byte, j + (k + 1) as nat) by {
                    assert(bit_of(rest as int, j + 1) == bit_of(byte, (j + 1) + k as nat));
                }
            }
            result.push(rest % 2 == 1);
            rest = rest / 2;
            i += 1;
            k += 1;
            assert(result@ =~= all.subrange(0, i as int));
        }
    }
    assert(all.subrange(0, n as int) =~= all);
    result
}

/// The first `length` coils of a payload, whose first byte is a byte count.
pub fn parse_coils(data: &[u8], length: u16) -> (r: Vec<bool>)
    requires
        length + 7 <= u16::MAX,
        length > 0 ==> 1 + coil_bytes(length as nat) <= data@.len(),
    ensures
        r@ == unpacked_coils(data@.skip(1), length as nat),
{
    read_coil_bits(data, 1, length as usize)
}

/// Packed coils, whatever bytes follow them, unpack to the same coils.
pub proof fn law_coils_round_trip(coils: Seq<bool>, rest: Seq<u8>)
    ensures
        unpacked_coils(packed_coils(coils) + rest, coils.len()) == coils,
{
    let bytes = packed_coils(coils) + rest;
    let got = unpacked_coils(bytes, coils.len());
    assert forall|i: int| 0 <= i < coils.len() implies got[i] == coils[i] by {
        let chunk = coil_chunk(coils, i / 8);
        lemma_number_bound(chunk);
        lemma_number_bits(chunk, (i % 8) as nat);
        assert(bytes[i / 8] == packed_coils(coils)[i / 8]);
        assert(bytes[i / 8] as int == number_of_bits(chunk));
        assert(chunk[i % 8] == coils[8 * (i / 8) + i % 8]);
    }
    assert(got =~= coils);
}

// ----- registers -----
/// Registers as bytes, two to a register, high byte first.
pub open spec fn packed_registers(registers: Seq<u16>) -> Seq<u8> {
    Seq::new(
        2 * registers.len(),
        |i: int|
            if i % 2 == 0 {
                high_byte(registers[i / 2])
            } else {
                low_byte(registers[i / 2])
            },
    )
}

/// The first `n` registers carried by `bytes`.
pub open spec fn unpacked_registers(bytes: Seq<u8>, n: nat) -> Seq<u16> {
    Seq::new(n, |i: int| be_word_at(bytes, 2 * i))
}

/// Append `registers`, high byte first, to `out`.
pub(crate) fn append_packed_registers(out: &mut Vec<u8>, registers: &[u16])
    ensures
        final(out)@ == old(out)@ + packed_registers(registers@),
{
    let ghost packed = packed_registers(registers@);
    let mut i: usize = 0;
    while i < registers.len()
        invariant
            i <= registers@.len(),
            packed == packed_registers(registers@),
            out@ == old(out)@ + packed.subrange(0, 2 * i as int),
        decreases registers@.len() - i,
    {
        out.push(hi_byte(registers[i]));
        out.push(lo_byte(registers[i]));
        proof {
            assert(packed[2 * i as int] == high_byte(registers@[i as int]));
            assert(packed[2 * i + 1] == low_byte(registers@[i as int]));
        }
        i += 1;
        assert(out@ =~= old(out)@ + packed.subrange(0, 2 * i as int));
    }
    assert(packed.subrange(0, packed.len() as int) =~= packed);
}

/// Registers as the payload of a response: twice `length` as a byte count,
/// then the registers.
pub fn pack_registers(registers: &[u16], length: u16) -> (r: Vec<u8>)
    requires
        length * 2 <= u16::MAX,
    ensures
        r@ == seq![(2 * length % 256) as u8] + packed_registers(registers@),
{
    let byte_count: u16 = length * 2;
    let mut data: Vec<u8> = Vec::new();
    data.push((byte_count % 256) as u8);
    append_packed_registers(&mut data, registers);
    data
}

/// Read `n` registers from the bytes that start at `from`.
pub(crate) fn read_registers(data: &[u8], from: usize, n: usize) -> (r: Vec<u16>)
    requires
        n > 0 ==> from + 2 * n <= data@.len(),
    ensures
        r@ == unpacked_registers(data@.skip(from as int), n as nat),
{
    let total: usize = data.len();
    let mut result: Vec<u16> = Vec::new();
    let ghost all = unpacked_registers(data@.skip(from as int), n as nat);
    let mut i: usize = 0;
    while i < n
        invariant
            i <= n,
            total == data@.len(),
            n > 0 ==> from + 2 * n <= data@.len(),
            all == unpacked_registers(data@.skip(from as int), n as nat),
            result@ == all.subrange(0, i as int),
        decreases n - i,
    {
        let idx: usize = from + i * 2;
        result.push(from_bytes(data[idx], data[idx + 1]));
        assert(all[i as int] == word(data@[idx as int], data@[idx + 1]));
        i += 1;
        assert(result@ =~= all.subrange(0, i as int));
    }
    assert(all.subrange(0, n as int) =~= all);
    result
}

/// The first `length` registers of a payload, whose first byte is a byte
/// count.
pub fn parse_registers(data: &[u8], length: u16) -> (r: Vec<u16>)
    requires
        length > 0 ==> 1 + 2 * length <= data@.len(),
    ensures
        r@ == unpacked_registers(data@.skip(1), length as nat),
{
    read_registers(data, 1, length as usize)
}

/// Packed registers, whatever bytes follow them, unpack to the same registers.
pub proof fn law_registers_round_trip(registers: Seq<u16>, rest: Seq<u8>)
    ensures
        unpacked_registers(packed_registers(registers) + rest, registers.len()) == registers,
{
    let bytes = packed_registers(registers) + rest;
    let got = unpacked_registers(bytes, registers.len());
    assert forall|i: int| 0 <= i < registers.len() implies got[i] == registers[i] by {
        assert(bytes[2 * i] == high_byte(registers[i]));
        assert(bytes[2 * i + 1] == low_byte(registers[i]));
    }
    assert(got =~= registers);
}

// ----- RTU frame length -----
/// How the total length of an RTU frame follows from its function code.
pub enum FrameShape {
    /// The frame always has this many bytes.
    Fixed(nat),
    /// The byte at `offset` counts data bytes; `extra` bytes surround them.
    Counted { offset: nat, extra: nat },
    /// The length cannot be told from the leading bytes.
    Unpredictable,
}

/// The shape of a frame with function code `fc`, checksum included.
pub open spec fn frame_shape(fc: u8, is_response: bool) -> FrameShape {
    if is_response {
        if fc >= 0x80 {
            FrameShape::Fixed(5)
        } else if fc == 0x05 || fc == 0x06 || fc == 0x0f || fc == 0x10 {
            FrameShape::Fixed(8)
        } else if fc == 0x16 {
            FrameShape::Fixed(10)
        } else if 0x01 <= fc <= 0x04 || fc == 0x11 || fc == 0x17 {
            FrameShape::Counted { offset: 2, extra: 5 }
        } else {
            FrameShape::Unpredictable
        }
    } else {
        if 0x01 <= fc <= 0x06 {
            FrameShape::Fixed(8)
        } else if fc == 0x11 {
            FrameShape::Fixed(4)
        } else if fc == 0x16 {
            FrameShape::Fixed(10)
        } else if fc == 0x2b {
            FrameShape::Fixed(7)
        } else if fc == 0x0f || fc == 0x10 {
            FrameShape::Counted { offset: 6, extra: 9 }
        } else if fc == 0x17 {
            FrameShape::Counted { offset: 10, extra: 13 }
        } else {
            FrameShape::Unpredictable
        }
    }
}

/// What the leading bytes of an RTU frame tell of its total length.
#[derive(Debug, Clone, Copy, PartialEq, Eq, Structural)]
pub enum PredictResult {
    /// The frame has this many bytes, checksum included.
    Length(usize),
    /// Too few bytes to tell.
    NeedMore,
    /// The function code is unknown, or its frames have no predictable length.
    Unknown,
}

/// The prediction for the leading bytes `buffer`.
pub open spec fn prediction(buffer: Seq<u8>, is_response: bool) -> PredictResult {
    if buffer.len() < 2 {
        PredictResult::NeedMore
    } else {
        match frame_shape(buffer[1], is_response) {
            FrameShape::Fixed(n) => PredictResult::Length(n as usize),
            FrameShape::Counted { offset, extra } => if buffer.len() <= offset {
                PredictResult::NeedMore
            } else {
                PredictResult::Length((extra + buffer[offset as int]) as usize)
            },
            FrameShape::Unpredictable => PredictResult::Unknown,
        }
    }
}

/// Predict the total length of an RTU frame, checksum included, from its
/// leading bytes.
pub fn predict_frame(buffer: &[u8], is_response: bool) -> (r: PredictResult)
    ensures
        r == prediction(buffer@, is_response),
{
    if buffer.len() < 2 {
        return PredictResult::NeedMore;
    }
    let fc: u8 = buffer[1];
    if is_response && fc >= 0x80 {
        return PredictResult::Length(5);
    }
    let (offset, extra): (usize, usize) = if is_response {
        match fc {
            0x05 | 0x06 | 0x0f | 0x10 => return PredictResult::Length(8),
            0x16 => return PredictResult::Length(10),
            0x01 | 0x02 | 0x03 | 0x04 | 0x11 | 0x17 => (2, 5),
            _ => return PredictResult::Unknown,
        }
    } else {
        match fc {
            0x01 | 0x02 | 0x03 | 0x04 | 0x05 | 0x06 => return PredictResult::Length(8),
            0x11 => return PredictResult::Length(4),
            0x16 => return PredictResult::Length(10),
            0x2b => return PredictResult::Length(7),
            0x0f | 0x10 => (6, 9),
            0x17 => (10, 13),
            _ => return PredictResult::Unknown,
        }
    };
    if buffer.len() <= offset {
        return PredictResult::NeedMore;
    }
    PredictResult::Length(extra + buffer[offset] as usize)
}

/// The total length of an RTU frame, checksum included, where its leading
/// bytes tell it.
///
/// `None` when the buffer is too short for the function code or the byte
/// count, when the function code is unknown, and for the responses of Read
/// Device Identification, whose length cannot be predicted.
pub fn predict_rtu_frame_length(buffer: &[u8], is_response: bool) -> (r: Option<usize>)
    ensures
        r == match prediction(buffer@, is_response) {
            PredictResult::Length(n) => Some(n),
            _ => None,
        },
{
    match predict_frame(buffer, is_response) {
        PredictResult::Length(n) => Some(n),
        PredictResult::NeedMore => None,
        PredictResult::Unknown => None,
    }
}

/// Once the leading bytes tell a frame's length, or tell that it has no
/// predictable one, bytes that come later do not change that.
pub proof fn law_prediction_is_stable(buffer: Seq<u8>, more: Seq<u8>, is_response: bool)
    ensures
        prediction(buffer, is_response) != PredictResult::NeedMore ==> prediction(
            buffer + more,
            is_response,
        ) == prediction(buffer, is_response),
{
}

/// A prediction is at least 4 and at most 268 bytes long.
pub proof fn law_prediction_bounds(buffer: Seq<u8>, is_response: bool)
    ensures
        prediction(buffer, is_response) matches PredictResult::Length(n) ==> 4 <= n <= 268,
{
}

// ----- connection ids -----
/// The decimal digit `d` as a character.
pub open spec fn digit_char(d: nat) -> char {
    if d == 0 {
        '0'
    } else if d == 1 {
        '1'
    } else if d == 2 {
        '2'
    } else if d == 3 {
        '3'
    } else if d == 4 {
        '4'
    } else if d == 5 {
        '5'
    } else if d == 6 {
        '6'
    } else if d == 7 {
        '7'
    } else if d == 8 {
        '8'
    } else {
        '9'
    }
}

/// `n` in decimal notation, without leading zeros.
pub open spec fn decimal_digits(n: nat) -> Seq<char>
    decreases n,
{
    if n < 10 {
        seq![digit_char(n)]
    } else {
        decimal_digits(n / 10).push(digit_char(n % 10))
    }
}

fn digit_str(d: u128) -> (r: &'static str)
    requires
        d < 10,
    ensures
        r@ == seq![digit_char(d as nat)],
{
    proof {
        reveal_strlit("0");
        reveal_strlit("1");
        reveal_strlit("2");
        reveal_strlit("3");
        reveal_strlit("4");
        reveal_strlit("5");
        reveal_strlit("6");
        reveal_strlit("7");
        reveal_strlit("8");
        reveal_strlit("9");
    }
    let r: &'static str = if d == 0 {
        "0"
    } else if d == 1 {
        "1"
    } else if d == 2 {
        "2"
    } else if d == 3 {
        "3"
    } else if d == 4 {
        "4"
    } else if d == 5 {
        "5"
    } else if d == 6 {
        "6"
    } else if d == 7 {
        "7"
    } else if d == 8 {
        "8"
    } else {
        "9"
    };
    assert(r@ =~= seq![digit_char(d as nat)]);
    r
}

/// `n` in decimal notation.
pub(crate) fn decimal(n: u128) -> (r: String)
    ensures
        r@ == decimal_digits(n as nat),
    decreases n,
{
    if n < 10 {
        digit_str(n).to_owned()
    } else {
        let mut r: String = decimal(n / 10);
        let last: &'static str = digit_str(n % 10);
        let ghost front = r@;
        r.append(last);
        assert(r@ =~= front.push(digit_char((n % 10) as nat)));
        r
    }
}

/// The connection id that `prefix`, a time stamp and a sequence number make.
pub open spec fn connection_id(prefix: Seq<char>, nanos: nat, seq: nat) -> Seq<char> {
    prefix + "-"@ + decimal_digits(nanos) + "-"@ + decimal_digits(seq)
}

/// The next connection id with the given prefix: the prefix, the nanoseconds
/// since the epoch and the next number of the sequence, with hyphens between
/// them. `last_seq` is the number that was used last; it starts at 0.
pub fn gen_connection_id(prefix: &str, nanos: u128, last_seq: &mut u64) -> (r: String)
    ensures
        *final(last_seq) == (*old(last_seq) + 1) % 0x1_0000_0000_0000_0000,
        r@ == connection_id(prefix@, nanos as nat, *final(last_seq) as nat),
{
    *last_seq = last_seq.wrapping_add(1);
    let mut r: String = prefix.to_owned();
    r.append("-");
    r.append(decimal(nanos).as_str());
    r.append("-");
    r.append(decimal(*last_seq as u128).as_str());
    r
}

proof fn lemma_digits_char(n: nat, i: int)
    requires
        0 <= i < decimal_digits(n).len(),
    ensures
        decimal_digits(n)[i] != '-',
    decreases n,
{
    if n >= 10 && i < decimal_digits(n / 10).len() {
        lemma_digits_char(n / 10, i);
    }
}

proof fn lemma_digits_injective(a: nat, b: nat)
    requires
        decimal_digits(a) == decimal_digits(b),
    ensures
        a == b,
    decreases a,
{
    let x = decimal_digits(a);
    let y = decimal_digits(b);
    lemma_digits_len(a);
    lemma_digits_len(b);
    if a >= 10 && b >= 10 {
        assert(x.drop_last() =~= decimal_digits(a / 10));
        assert(y.drop_last() =~= decimal_digits(b / 10));
        lemma_digits_injective(a / 10, b / 10);
        assert(x.last() == digit_char(a % 10) && y.last() == digit_char(b % 10));
        let (da, db) = (a % 10, b % 10);
        assert(digit_char(da) == digit_char(db) && da < 10 && db < 10);
        assert(da == db);
    } else if a < 10 && b < 10 {
        assert(x[0] == digit_char(a) && y[0] == digit_char(b));
    } else {
        assert(x.len() != y.len());
    }
}

proof fn lemma_digits_len(n: nat)
    ensures
        decimal_digits(n).len() >= 1,
        n >= 10 ==> decimal_digits(n).len() >= 2,
    decreases n,
{
    if n >= 10 {
        lemma_digits_len(n / 10);
    }
}

/// Ids with different sequence numbers differ, whatever their prefixes and
/// time stamps.
pub proof fn law_connection_ids_distinct(
    prefix_a: Seq<char>,
    nanos_a: nat,
    seq_a: nat,
    prefix_b: Seq<char>,
    nanos_b: nat,
    seq_b: nat,
)
    requires
        seq_a != seq_b,
    ensures
        connection_id(prefix_a, nanos_a, seq_a) != connection_id(prefix_b, nanos_b, seq_b),
{
    reveal_strlit("-");
    let a = connection_id(prefix_a, nanos_a, seq_a);
    let b = connection_id(prefix_b, nanos_b, seq_b);
    let da = decimal_digits(seq_a);
    let db = decimal_digits(seq_b);
    if a == b {
        let head_a = prefix_a + "-"@ + decimal_digits(nanos_a);
        let head_b = prefix_b + "-"@ + decimal_digits(nanos_b);
        assert(a =~= head_a + "-"@ + da);
        assert(b =~= head_b + "-"@ + db);
        assert(a[head_a.len() as int] == '-');
        assert(b[head_b.len() as int] == '-');
        if head_a.len() < head_b.len() {
            let i = head_b.len() - head_a.len() - 1;
            assert(a[head_b.len() as int] == da[i]);
            lemma_digits_char(seq_a, i);
        } else if head_b.len() < head_a.len() {
            let i = head_a.len() - head_b.len() - 1;
            assert(b[head_a.len() as int] == db[i]);
            lemma_digits_char(seq_b, i);
        } else {
            assert(da =~= a.skip(head_a.len() as int + 1));
            assert(db =~= b.skip(head_b.len() as int + 1));
            lemma_digits_injective(seq_a, seq_b);
        }
    }
}

} // verus!
