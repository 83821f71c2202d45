//! The CRC-16/MODBUS polynomial and its byte-wise lookup table.
use vstd::prelude::*;

verus! {

/// One division step of the register `c` by the reflected polynomial 0xA001.
pub open spec fn crc_shift(c: u16) -> u16 {
    if c & 1 == 1 {
        (c >> 1) ^ 0xa001
    } else {
        c >> 1
    }
}

/// Eight division steps, which is what one data byte takes.
#[verifier::opaque]
pub open spec fn crc_shift8(c: u16) -> u16 {
    crc_shift(crc_shift(crc_shift(crc_shift(crc_shift(crc_shift(crc_shift(crc_shift(c))))))))
}

const CRC_TABLE: [u16; 256] = [
    0x0000, 0xc0c1, 0xc181, 0x0140, 0xc301, 0x03c0, 0x0280, 0xc241, 0xc601, 0x06c0, 0x0780, 0xc741,
    0x0500, 0xc5c1, 0xc481, 0x0440, 0xcc01, 0x0cc0, 0x0d80, 0xcd41, 0x0f00, 0xcfc1, 0xce81, 0x0e40,
    0x0a00, 0xcac1, 0xcb81, 0x0b40, 0xc901, 0x09c0, 0x0880, 0xc841, 0xd801, 0x18c0, 0x1980, 0xd941,
    0x1b00, 0xdbc1, 0xda81, 0x1a40, 0x1e00, 0xdec1, 0xdf81, 0x1f40, 0xdd01, 0x1dc0, 0x1c80, 0xdc41,
    0x1400, 0xd4c1, 0xd581, 0x1540, 0xd701, 0x17c0, 0x1680, 0xd641, 0xd201, 0x12c0, 0x1380, 0xd341,
    0x1100, 0xd1c1, 0xd081, 0x1040, 0xf001, 0x30c0, 0x3180, 0xf141, 0x3300, 0xf3c1, 0xf281, 0x3240,
    0x3600, 0xf6c1, 0xf781, 0x3740, 0xf501, 0x35c0, 0x3480, 0xf441, 0x3c00, 0xfcc1, 0xfd81, 0x3d40,
    0xff01, 0x3fc0, 0x3e80, 0xfe41, 0xfa01, 0x3ac0, 0x3b80, 0xfb41, 0x3900, 0xf9c1, 0xf881, 0x3840,
    0x2800, 0xe8c1, 0xe981, 0x2940, 0xeb01, 0x2bc0, 0x2a80, 0xea41, 0xee01, 0x2ec0, 0x2f80, 0xef41,
    0x2d00, 0xedc1, 0xec81, 0x2c40, 0xe401, 0x24c0, 0x2580, 0xe541, 0x2700, 0xe7c1, 0xe681, 0x2640,
    0x2200, 0xe2c1, 0xe381, 0x2340, 0xe101, 0x21c0, 0x2080, 0xe041, 0xa001, 0x60c0, 0x6180, 0xa141,
    0x6300, 0xa3c1, 0xa281, 0x6240, 0x6600, 0xa6c1, 0xa781, 0x6740, 0xa501, 0x65c0, 0x6480, 0xa441,
    0x6c00, 0xacc1, 0xad81, 0x6d40, 0xaf01, 0x6fc0, 0x6e80, 0xae41, 0xaa01, 0x6ac0, 0x6b80, 0xab41,
    0x6900, 0xa9c1, 0xa881, 0x6840, 0x7800, 0xb8c1, 0xb981, 0x7940, 0xbb01, 0x7bc0, 0x7a80, 0xba41,
    0xbe01, 0x7ec0, 0x7f80, 0xbf41, 0x7d00, 0xbdc1, 0xbc81, 0x7c40, 0xb401, 0x74c0, 0x7580, 0xb541,
    0x7700, 0xb7c1, 0xb681, 0x7640, 0x7200, 0xb2c1, 0xb381, 0x7340, 0xb101, 0x71c0, 0x7080, 0xb041,
    0x5000, 0x90c1, 0x9181, 0x5140, 0x9301, 0x53c0, 0x5280, 0x9241, 0x9601, 0x56c0, 0x5780, 0x9741,
    0x5500, 0x95c1, 0x9481, 0x5440, 0x9c01, 0x5cc0, 0x5d80, 0x9d41, 0x5f00, 0x9fc1, 0x9e81, 0x5e40,
    0x5a00, 0x9ac1, 0x9b81, 0x5b40, 0x9901, 0x59c0, 0x5880, 0x9841, 0x8801, 0x48c0, 0x4980, 0x8941,
    0x4b00, 0x8bc1, 0x8a81, 0x4a40, 0x4e00, 0x8ec1, 0x8f81, 0x4f40, 0x8d01, 0x4dc0, 0x4c80, 0x8c41,
    0x4400, 0x84c1, 0x8581, 0x4540, 0x8701, 0x47c0, 0x4680, 0x8641, 0x8201, 0x42c0, 0x4380, 0x8341,
    0x4100, 0x81c1, 0x8081, 0x4040,
];

/// The table entry for `index`: the eight steps of a register that holds only
/// `index`.
pub(crate) fn crc_table_entry(index: u8) -> (r: u16)
    ensures
        r == crc_shift8(index as u16),
{
    proof {
        lemma_table(index as int);
    }
    CRC_TABLE[index as usize]
}

/// One lookup and one shift do the work of eight division steps.
pub(crate) proof fn lemma_table_step(c: u16, b: u8)
    ensures
        crc_shift8((((c ^ b as u16) & 0xff) as u8) as u16) ^ (c >> 8) == crc_shift8(
            c ^ (b as u16),
        ),
{
    assert(crc_shift8((((c ^ b as u16) & 0xff) as u8) as u16) ^ (c >> 8) == crc_shift8(
        c ^ (b as u16),
    )) by (bit_vector);
}

/// The product of `q` and the generator polynomial, without carries. Bits stand for
/// powers in reverse order, so the generator x^16 + x^15 + x^2 + 1 is 0x14003.
pub open spec fn generator_times(q: u32) -> u32 {
    (if q & 1 == 1 { 0x14003u32 } else { 0 }) ^ (if q & 2 == 2 { 0x14003u32 << 1 } else { 0 }) ^ (
    if q & 4 == 4 { 0x14003u32 << 2 } else { 0 }) ^ (if q & 8 == 8 { 0x14003u32 << 3 } else { 0 })
        ^ (if q & 16 == 16 { 0x14003u32 << 4 } else { 0 }) ^ (if q & 32 == 32 {
        0x14003u32 << 5
    } else {
        0
    }) ^ (if q & 64 == 64 { 0x14003u32 << 6 } else { 0 }) ^ (if q & 128 == 128 {
        0x14003u32 << 7
    } else {
        0
    })
}

/// Eight division steps give the remainder of a division by the generator.
pub(crate) proof fn lemma_division(c: u16) -> (q: u32)
    ensures
        q < 256,
        c as u32 == (crc_shift8(c) as u32) << 8 ^ generator_times(q),
{
    let c1 = crc_shift(c);
    let c2 = crc_shift(c1);
    let c3 = crc_shift(c2);
    let c4 = crc_shift(c3);
    let c5 = crc_shift(c4);
    let c6 = crc_shift(c5);
    let c7 = crc_shift(c6);
    let c8 = crc_shift(c7);
    reveal(crc_shift8);
    let q = (c & 1) as u32 | ((c1 & 1) as u32) << 1 | ((c2 & 1) as u32) << 2 | ((c3 & 1) as u32)
        << 3 | ((c4 & 1) as u32) << 4 | ((c5 & 1) as u32) << 5 | ((c6 & 1) as u32) << 6 | ((c7
        & 1) as u32) << 7;
    assert(q < 256 && c as u32 == (c8 as u32) << 8 ^ generator_times(q)) by (bit_vector)
        requires
            c1 == crc_shift(c),
            c2 == crc_shift(c1),
            c3 == crc_shift(c2),
            c4 == crc_shift(c3),
            c5 == crc_shift(c4),
            c6 == crc_shift(c5),
            c7 == crc_shift(c6),
            c8 == crc_shift(c7),
            q == (c & 1) as u32 | ((c1 & 1) as u32) << 1 | ((c2 & 1) as u32) << 2 | ((c3
                & 1) as u32) << 3 | ((c4 & 1) as u32) << 4 | ((c5 & 1) as u32) << 5 | ((c6
                & 1) as u32) << 6 | ((c7 & 1) as u32) << 7,
    ;
    q
}

/// A register that is fed its own two bytes, low byte first, becomes zero.
pub(crate) proof fn lemma_own_bytes(c: u16, lo: u8, hi: u8)
    requires
        lo == (c & 0xff) as u8,
        hi == (c >> 8) as u8,
    ensures
        crc_shift8(crc_shift8(c ^ (lo as u16)) ^ (hi as u16)) == 0,
{
    assert(crc_shift8(c ^ (lo as u16)) == hi as u16) by (bit_vector)
        requires
            lo == (c & 0xff) as u8,
            hi == (c >> 8) as u8,
    ;
    let h = hi as u16;
    assert(h ^ h == 0) by (bit_vector);
    assert(crc_shift8(0) == 0) by (bit_vector);
}

proof fn lemma_table(i: int)
    requires
        0 <= i < 256,
    ensures
        CRC_TABLE@[i] == crc_shift8(i as u16),
{
    if i < 32 {
        lemma_table_from_0(i);
    } else if i < 64 {
        lemma_table_from_32(i);
    } else if i < 96 {
        lemma_table_from_64(i);
    } else if i < 128 {
        lemma_table_from_96(i);
    } else if i < 160 {
        lemma_table_from_128(i);
    } else if i < 192 {
        lemma_table_from_160(i);
    } else if i < 224 {
        lemma_table_from_192(i);
    } else {
        lemma_table_from_224(i);
    }
}

proof fn lemma_table_from_0(i: int)
    requires
        0 <= i < 32,
    ensures
        CRC_TABLE@[i] == crc_shift8(i as u16),
{
    assert({
        &&& crc_shift8(0) == 0x0000
        &&& crc_shift8(1) == 0xc0c1
        &&& crc_shift8(2) == 0xc181
        &&& crc_shift8(3) == 0x0140
        &&& crc_shift8(4) == 0xc301
        &&& crc_shift8(5) == 0x03c0
        &&& crc_shift8(6) == 0x0280
        &&& crc_shift8(7) == 0xc241
        &&& crc_shift8(8) == 0xc601
        &&& crc_shift8(9) == 0x06c0
        &&& crc_shift8(10) == 0x0780
        &&& crc_shift8(11) == 0xc741
        &&& crc_shift8(12) == 0x0500
        &&& crc_shift8(13) == 0xc5c1
        &&& crc_shift8(14) == 0xc481
        &&& crc_shift8(15) == 0x0440
        &&& crc_shift8(16) == 0xcc01
        &&& crc_shift8(17) == 0x0cc0
        &&& crc_shift8(18) == 0x0d80
        &&& crc_shift8(19) == 0xcd41
        &&& crc_shift8(20) == 0x0f00
        &&& crc_shift8(21) == 0xcfc1
        &&& crc_shift8(22) == 0xce81
        &&& crc_shift8(23) == 0x0e40
        &&& crc_shift8(24) == 0x0a00
        &&& crc_shift8(25) == 0xcac1
        &&& crc_shift8(26) == 0xcb81
        &&& crc_shift8(27) == 0x0b40
        &&& crc_shift8(28) == 0xc901
        &&& crc_shift8(29) == 0x09c0
        &&& crc_shift8(30) == 0x0880
        &&& crc_shift8(31) == 0xc841
    }) by (bit_vector);
}

proof fn lemma_table_from_32(i: int)
    requires
        32 <= i < 64,
    ensures
        CRC_TABLE@[i] == crc_shift8(i as u16),
{
    assert({
        &&& crc_shift8(32) == 0xd801
        &&& crc_shift8(33) == 0x18c0
        &&& crc_shift8(34) == 0x1980
        &&& crc_shift8(35) == 0xd941
        &&& crc_shift8(36) == 0x1b00
        &&& crc_shift8(37) == 0xdbc1
        &&& crc_shift8(38) == 0xda81
        &&& crc_shift8(39) == 0x1a40
        &&& crc_shift8(40) == 0x1e00
        &&& crc_shift8(41) == 0xdec1
        &&& crc_shift8(42) == 0xdf81
        &&& crc_shift8(43) == 0x1f40
        &&& crc_shift8(44) == 0xdd01
        &&& crc_shift8(45) == 0x1dc0
        &&& crc_shift8(46) == 0x1c80
        &&& crc_shift8(47) == 0xdc41
        &&& crc_shift8(48) == 0x1400
        &&& crc_shift8(49) == 0xd4c1
        &&& crc_shift8(50) == 0xd581
        &&& crc_shift8(51) == 0x1540
        &&& crc_shift8(52) == 0xd701
        &&& crc_shift8(53) == 0x17c0
        &&& crc_shift8(54) == 0x1680
        &&& crc_shift8(55) == 0xd641
        &&& crc_shift8(56) == 0xd201
        &&& crc_shift8(57) == 0x12c0
        &&& crc_shift8(58) == 0x1380
        &&& crc_shift8(59) == 0xd341
        &&& crc_shift8(60) == 0x1100
        &&& crc_shift8(61) == 0xd1c1
        &&& crc_shift8(62) == 0xd081
        &&& crc_shift8(63) == 0x1040
    }) by (bit_vector);
}

proof fn lemma_table_from_64(i: int)
    requires
        64 <= i < 96,
    ensures
        CRC_TABLE@[i] == crc_shift8(i as u16),
{
    assert({
        &&& crc_shift8(64) == 0xf001
        &&& crc_shift8(65) == 0x30c0
        &&& crc_shift8(66) == 0x3180
        &&& crc_shift8(67) == 0xf141
        &&& crc_shift8(68) == 0x3300
        &&& crc_shift8(69) == 0xf3c1
        &&& crc_shift8(70) == 0xf281
        &&& crc_shift8(71) == 0x3240
        &&& crc_shift8(72) == 0x3600
        &&& crc_shift8(73) == 0xf6c1
        &&& crc_shift8(74) == 0xf781
        &&& crc_shift8(75) == 0x3740
        &&& crc_shift8(76) == 0xf501
        &&& crc_shift8(77) == 0x35c0
        &&& crc_shift8(78) == 0x3480
        &&& crc_shift8(79) == 0xf441
        &&& crc_shift8(80) == 0x3c00
        &&& crc_shift8(81) == 0xfcc1
        &&& crc_shift8(82) == 0xfd81
        &&& crc_shift8(83) == 0x3d40
        &&& crc_shift8(84) == 0xff01
        &&& crc_shift8(85) == 0x3fc0
        &&& crc_shift8(86) == 0x3e80
        &&& crc_shift8(87) == 0xfe41
        &&& crc_shift8(88) == 0xfa01
        &&& crc_shift8(89) == 0x3ac0
        &&& crc_shift8(90) == 0x3b80
        &&& crc_shift8(91) == 0xfb41
        &&& crc_shift8(92) == 0x3900
        &&& crc_shift8(93) == 0xf9c1
        &&& crc_shift8(94) == 0xf881
        &&& crc_shift8(95) == 0x3840
    }) by (bit_vector);
}

proof fn lemma_table_from_96(i: int)
    requires
        96 <= i < 128,
    ensures
        CRC_TABLE@[i] == crc_shift8(i as u16),
{
    assert({
        &&& crc_shift8(96) == 0x2800
        &&& crc_shift8(97) == 0xe8c1
        &&& crc_shift8(98) == 0xe981
        &&& crc_shift8(99) == 0x2940
        &&& crc_shift8(100) == 0xeb01
        &&& crc_shift8(101) == 0x2bc0
        &&& crc_shift8(102) == 0x2a80
        &&& crc_shift8(103) == 0xea41
        &&& crc_shift8(104) == 0xee01
        &&& crc_shift8(105) == 0x2ec0
        &&& crc_shift8(106) == 0x2f80
        &&& crc_shift8(107) == 0xef41
        &&& crc_shift8(108) == 0x2d00
        &&& crc_shift8(109) == 0xedc1
        &&& crc_shift8(110) == 0xec81
        &&& crc_shift8(111) == 0x2c40
        &&& crc_shift8(112) == 0xe401
        &&& crc_shift8(113) == 0x24c0
        &&& crc_shift8(114) == 0x2580
        &&& crc_shift8(115) == 0xe541
        &&& crc_shift8(116) == 0x2700
        &&& crc_shift8(117) == 0xe7c1
        &&& crc_shift8(118) == 0xe681
        &&& crc_shift8(119) == 0x2640
        &&& crc_shift8(120) == 0x2200
        &&& crc_shift8(121) == 0xe2c1
        &&& crc_shift8(122) == 0xe381
        &&& crc_shift8(123) == 0x2340
        &&& crc_shift8(124) == 0xe101
        &&& crc_shift8(125) == 0x21c0
        &&& crc_shift8(126) == 0x2080
        &&& crc_shift8(127) == 0xe041
    }) by (bit_vector);
}

proof fn lemma_table_from_128(i: int)
    requires
        128 <= i < 160,
    ensures
        CRC_TABLE@[i] == crc_shift8(i as u16),
{
    assert({
        &&& crc_shift8(128) == 0xa001
        &&& crc_shift8(129) == 0x60c0
        &&& crc_shift8(130) == 0x6180
        &&& crc_shift8(131) == 0xa141
        &&& crc_shift8(132) == 0x6300
        &&& crc_shift8(133) == 0xa3c1
        &&& crc_shift8(134) == 0xa281
        &&& crc_shift8(135) == 0x6240
        &&& crc_shift8(136) == 0x6600
        &&& crc_shift8(137) == 0xa6c1
        &&& crc_shift8(138) == 0xa781
        &&& crc_shift8(139) == 0x6740
        &&& crc_shift8(140) == 0xa501
        &&& crc_shift8(141) == 0x65c0
        &&& crc_shift8(142) == 0x6480
        &&& crc_shift8(143) == 0xa441
        &&& crc_shift8(144) == 0x6c00
        &&& crc_shift8(145) == 0xacc1
        &&& crc_shift8(146) == 0xad81
        &&& crc_shift8(147) == 0x6d40
        &&& crc_shift8(148) == 0xaf01
        &&& crc_shift8(149) == 0x6fc0
        &&& crc_shift8(150) == 0x6e80
        &&& crc_shift8(151) == 0xae41
        &&& crc_shift8(152) == 0xaa01
        &&& crc_shift8(153) == 0x6ac0
        &&& crc_shift8(154) == 0x6b80
        &&& crc_shift8(155) == 0xab41
        &&& crc_shift8(156) == 0x6900
        &&& crc_shift8(157) == 0xa9c1
        &&& crc_shift8(158) == 0xa881
        &&& crc_shift8(159) == 0x6840
    }) by (bit_vector);
}

proof fn lemma_table_from_160(i: int)
    requires
        160 <= i < 192,
    ensures
        CRC_TABLE@[i] == crc_shift8(i as u16),
{
    assert({
        &&& crc_shift8(160) == 0x7800
        &&& crc_shift8(161) == 0xb8c1
        &&& crc_shift8(162) == 0xb981
        &&& crc_shift8(163) == 0x7940
        &&& crc_shift8(164) == 0xbb01
        &&& crc_shift8(165) == 0x7bc0
        &&& crc_shift8(166) == 0x7a80
        &&& crc_shift8(167) == 0xba41
        &&& crc_shift8(168) == 0xbe01
        &&& crc_shift8(169) == 0x7ec0
        &&& crc_shift8(170) == 0x7f80
        &&& crc_shift8(171) == 0xbf41
        &&& crc_shift8(172) == 0x7d00
        &&& crc_shift8(173) == 0xbdc1
        &&& crc_shift8(174) == 0xbc81
        &&& crc_shift8(175) == 0x7c40
        &&& crc_shift8(176) == 0xb401
        &&& crc_shift8(177) == 0x74c0
        &&& crc_shift8(178) == 0x7580
        &&& crc_shift8(179) == 0xb541
        &&& crc_shift8(180) == 0x7700
        &&& crc_shift8(181) == 0xb7c1
        &&& crc_shift8(182) == 0xb681
        &&& crc_shift8(183) == 0x7640
        &&& crc_shift8(184) == 0x7200
        &&& crc_shift8(185) == 0xb2c1
        &&& crc_shift8(186) == 0xb381
        &&& crc_shift8(187) == 0x7340
        &&& crc_shift8(188) == 0xb101
        &&& crc_shift8(189) == 0x71c0
        &&& crc_shift8(190) == 0x7080
        &&& crc_shift8(191) == 0xb041
    }) by (bit_vector);
}

proof fn lemma_table_from_192(i: int)
    requires
        192 <= i < 224,
    ensures
        CRC_TABLE@[i] == crc_shift8(i as u16),
{
    assert({
        &&& crc_shift8(192) == 0x5000
        &&& crc_shift8(193) == 0x90c1
        &&& crc_shift8(194) == 0x9181
        &&& crc_shift8(195) == 0x5140
        &&& crc_shift8(196) == 0x9301
        &&& crc_shift8(197) == 0x53c0
        &&& crc_shift8(198) == 0x5280
        &&& crc_shift8(199) == 0x9241
        &&& crc_shift8(200) == 0x9601
        &&& crc_shift8(201) == 0x56c0
        &&& crc_shift8(202) == 0x5780
        &&& crc_shift8(203) == 0x9741
        &&& crc_shift8(204) == 0x5500
        &&& crc_shift8(205) == 0x95c1
        &&& crc_shift8(206) == 0x9481
        &&& crc_shift8(207) == 0x5440
        &&& crc_shift8(208) == 0x9c01
        &&& crc_shift8(209) == 0x5cc0
        &&& crc_shift8(210) == 0x5d80
        &&& crc_shift8(211) == 0x9d41
        &&& crc_shift8(212) == 0x5f00
        &&& crc_shift8(213) == 0x9fc1
        &&& crc_shift8(214) == 0x9e81
        &&& crc_shift8(215) == 0x5e40
        &&& crc_shift8(216) == 0x5a00
        &&& crc_shift8(217) == 0x9ac1
        &&& crc_shift8(218) == 0x9b81
        &&& crc_shift8(219) == 0x5b40
        &&& crc_shift8(220) == 0x9901
        &&& crc_shift8(221) == 0x59c0
        &&& crc_shift8(222) == 0x5880
        &&& crc_shift8(223) == 0x9841
    }) by (bit_vector);
}

proof fn lemma_table_from_224(i: int)
    requires
        224 <= i < 256,
    ensures
        CRC_TABLE@[i] == crc_shift8(i as u16),
{
    assert({
        &&& crc_shift8(224) == 0x8801
        &&& crc_shift8(225) == 0x48c0
        &&& crc_shift8(226) == 0x4980
        &&& crc_shift8(227) == 0x8941
        &&& crc_shift8(228) == 0x4b00
        &&& crc_shift8(229) == 0x8bc1
        &&& crc_shift8(230) == 0x8a81
        &&& crc_shift8(231) == 0x4a40
        &&& crc_shift8(232) == 0x4e00
        &&& crc_shift8(233) == 0x8ec1
        &&& crc_shift8(234) == 0x8f81
        &&& crc_shift8(235) == 0x4f40
        &&& crc_shift8(236) == 0x8d01
        &&& crc_shift8(237) == 0x4dc0
        &&& crc_shift8(238) == 0x4c80
        &&& crc_shift8(239) == 0x8c41
        &&& crc_shift8(240) == 0x4400
        &&& crc_shift8(241) == 0x84c1
        &&& crc_shift8(242) == 0x8581
        &&& crc_shift8(243) == 0x4540
        &&& crc_shift8(244) == 0x8701
        &&& crc_shift8(245) == 0x47c0
        &&& crc_shift8(246) == 0x4680
        &&& crc_shift8(247) == 0x8641
        &&& crc_shift8(248) == 0x8201
        &&& crc_shift8(249) == 0x42c0
        &&& crc_shift8(250) == 0x4380
        &&& crc_shift8(251) == 0x8341
        &&& crc_shift8(252) == 0x4100
        &&& crc_shift8(253) == 0x81c1
        &&& crc_shift8(254) == 0x8081
        &&& crc_shift8(255) == 0x4040
    }) by (bit_vector);
}

} // verus!
