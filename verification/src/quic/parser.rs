//! QUIC Initial packet wire-format parsing: variable-length integers,
//! DCID extraction and the long-header Initial layout.

use vstd::prelude::*;

use crate::quic::error::QuicError;

verus! {

/// Width in bytes of a QUIC variable-length integer, decided by the
/// two-bit prefix of its first byte.
pub open spec fn spec_varint_len(first: u8) -> int {
    if first < 0x40 {
        1
    } else if first < 0x80 {
        2
    } else if first < 0xc0 {
        4
    } else {
        8
    }
}

/// Value of a variable-length integer whose encoding starts at `data[0]`:
/// the low six bits of the first byte are the high-order bits, the
/// remaining bytes follow in big-endian order.
pub open spec fn spec_varint_value(data: Seq<u8>) -> int
    recommends
        data.len() >= spec_varint_len(data[0]),
{
    let f6 = (data[0] & 0x3f) as int;
    if data[0] < 0x40 {
        f6
    } else if data[0] < 0x80 {
        f6 * 0x100 + data[1]
    } else if data[0] < 0xc0 {
        f6 * 0x1000000 + data[1] * 0x10000 + data[2] * 0x100 + data[3]
    } else {
        f6 * 0x100000000000000 + data[1] * 0x1000000000000 + data[2] * 0x10000000000 + data[3]
            * 0x100000000 + data[4] * 0x1000000 + data[5] * 0x10000 + data[6] * 0x100 + data[7]
    }
}

/// The largest value a variable-length integer of the given width can carry.
pub open spec fn spec_varint_max(len: int) -> int {
    if len == 1 {
        0x3f
    } else if len == 2 {
        0x3fff
    } else if len == 4 {
        0x3fffffff
    } else {
        0x3fffffffffffffff
    }
}

/// The canonical encoding of `value` in a variable-length integer of
/// width `len`: the prefix bits select the width, the six remaining bits
/// of the first byte and the following bytes carry the value big-endian.
pub open spec fn spec_encode_varint(value: int, len: int) -> Seq<u8>
    recommends
        len == 1 || len == 2 || len == 4 || len == 8,
        0 <= value <= spec_varint_max(len),
{
    if len == 1 {
        seq![value as u8]
    } else if len == 2 {
        seq![(0x40 + value / 0x100) as u8, (value % 0x100) as u8]
    } else if len == 4 {
        seq![
            (0x80 + value / 0x1000000) as u8,
            ((value / 0x10000) % 0x100) as u8,
            ((value / 0x100) % 0x100) as u8,
            (value % 0x100) as u8,
        ]
    } else {
        seq![
            (0xc0 + value / 0x100000000000000) as u8,
            ((value / 0x1000000000000) % 0x100) as u8,
            ((value / 0x10000000000) % 0x100) as u8,
            ((value / 0x100000000) % 0x100) as u8,
            ((value / 0x1000000) % 0x100) as u8,
            ((value / 0x10000) % 0x100) as u8,
            ((value / 0x100) % 0x100) as u8,
            (value % 0x100) as u8,
        ]
    }
}

/// For a non-negative value, division and remainder split it exactly:
/// `v == (v / d) * d + v % d`.
proof fn lemma_div_mod_split(v: int, d: int)
    requires
        v >= 0,
        d > 0,
    ensures
        v == (v / d) * d + v % d,
        0 <= v % d < d,
        v / d >= 0,
{
    vstd::arithmetic::div_mod::lemma_fundamental_div_mod(v, d);
    vstd::arithmetic::div_mod::lemma_mod_bound(v, d);
    vstd::arithmetic::div_mod::lemma_div_pos_is_pos(v, d);
    vstd::arithmetic::mul::lemma_mul_is_commutative(d, v / d);
}

/// One level of base-256 digit splitting: the quotient by `p` splits
/// into the next quotient and one digit.
proof fn lemma_digit_level(v: int, p: int)
    requires
        v >= 0,
        p > 0,
    ensures
        v / p == (v / (p * 0x100)) * 0x100 + (v / p) % 0x100,
        0 <= (v / p) % 0x100 < 0x100,
        v / (p * 0x100) >= 0,
{
    lemma_div_mod_split(v / p, 0x100);
    vstd::arithmetic::div_mod::lemma_div_denominator(v, p, 0x100);
}

/// Round trip: for every value encodable in a legal width, decoding the
/// canonical encoding yields the value back, with exactly that width
/// consumed.
#[verifier::rlimit(50)]
pub proof fn lemma_varint_round_trip(value: u64, len: int)
    requires
        len == 1 || len == 2 || len == 4 || len == 8,
        value <= spec_varint_max(len),
    ensures
        spec_encode_varint(value as int, len).len() == len,
        spec_varint_len(spec_encode_varint(value as int, len)[0]) == len,
        spec_varint_value(spec_encode_varint(value as int, len)) == value,
{
    let v = value as int;
    let data = spec_encode_varint(v, len);
    if len == 1 {
        assert(value <= 0x3f ==> (value as u8) < 0x40 && ((value as u8) & 0x3f) == value as u8)
            by (bit_vector);
    } else if len == 2 {
        lemma_div_mod_split(v, 0x100);
        let hi = (v / 0x100) as u64;
        assert(hi <= 0x3f ==> {
            let b0 = (0x40 + hi) as u8;
            0x40 <= b0 < 0x80 && (b0 & 0x3f) == hi
        }) by (bit_vector);
    } else if len == 4 {
        lemma_div_mod_split(v, 0x100);
        lemma_digit_level(v, 0x100);
        lemma_digit_level(v, 0x10000);
        let hi = (v / 0x1000000) as u64;
        assert(hi <= 0x3f ==> {
            let b0 = (0x80 + hi) as u8;
            0x80 <= b0 < 0xc0 && (b0 & 0x3f) == hi
        }) by (bit_vector);
        assert(spec_varint_value(data) == (v / 0x1000000) * 0x1000000 + ((v / 0x10000) % 0x100)
            * 0x10000 + ((v / 0x100) % 0x100) * 0x100 + (v % 0x100));
    } else {
        lemma_div_mod_split(v, 0x100);
        lemma_digit_level(v, 0x100);
        lemma_digit_level(v, 0x10000);
        lemma_digit_level(v, 0x1000000);
        lemma_digit_level(v, 0x100000000);
        lemma_digit_level(v, 0x10000000000);
        lemma_digit_level(v, 0x1000000000000);
        let hi = (v / 0x100000000000000) as u64;
        assert(hi <= 0x3f ==> {
            let b0 = (0xc0 + hi) as u8;
            0xc0 <= b0 && (b0 & 0x3f) == hi
        }) by (bit_vector);
        assert(spec_varint_value(data) == (v / 0x100000000000000) * 0x100000000000000 + ((v
            / 0x1000000000000) % 0x100) * 0x1000000000000 + ((v / 0x10000000000) % 0x100)
            * 0x10000000000 + ((v / 0x100000000) % 0x100) * 0x100000000 + ((v / 0x1000000) % 0x100)
            * 0x1000000 + ((v / 0x10000) % 0x100) * 0x10000 + ((v / 0x100) % 0x100) * 0x100 + (v
            % 0x100));
    }
}

/// Decodes a QUIC variable-length integer from the front of `data`,
/// returning the value and the number of bytes consumed.  Fails exactly
/// when the buffer is shorter than the width announced by the first byte.
pub fn parse_varint(data: &[u8]) -> (r: Result<(u64, usize), String>)
    ensures
        match r {
            Ok(p) => {
                &&& data@.len() >= 1
                &&& p.1 == spec_varint_len(data@[0])
                &&& data@.len() >= p.1
                &&& p.0 == spec_varint_value(data@)
            },
            Err(_) => data@.len() < 1 || data@.len() < spec_varint_len(data@[0]),
        },
{
    if data.is_empty() {
        return Err("varint needs at least one byte".to_owned());
    }

    let first = data[0];
    proof {
        assert(first & 0x3f < 0x40) by (bit_vector);
    }
    let f6 = (first & 0x3f) as u64;

    if first < 0x40 {
        Ok((f6, 1))
    } else if first < 0x80 {
        if data.len() < 2 {
            return Err("varint truncated".to_owned());
        }
        let v = f6 * 0x100 + data[1] as u64;
        Ok((v, 2))
    } else if first < 0xc0 {
        if data.len() < 4 {
            return Err("varint truncated".to_owned());
        }
        let v = f6 * 0x1000000 + (data[1] as u64) * 0x10000 + (data[2] as u64) * 0x100 + (
        data[3] as u64);
        Ok((v, 4))
    } else {
        if data.len() < 8 {
            return Err("varint truncated".to_owned());
        }
        let v = f6 * 0x100000000000000 + (data[1] as u64) * 0x1000000000000 + (data[2] as u64)
            * 0x10000000000 + (data[3] as u64) * 0x100000000 + (data[4] as u64) * 0x1000000 + (
        data[5] as u64) * 0x10000 + (data[6] as u64) * 0x100 + (data[7] as u64);
        Ok((v, 8))
    }
}

/// Encodes `value` as a QUIC variable-length integer of exactly `len`
/// bytes.  `len` must be one of the four legal widths and `value` must
/// fit in it.
pub fn encode_varint(value: u64, len: usize) -> (r: Vec<u8>)
    requires
        len == 1 || len == 2 || len == 4 || len == 8,
        value <= spec_varint_max(len as int),
    ensures
        r@ == spec_encode_varint(value as int, len as int),
        r@.len() == len,
        spec_varint_len(r@[0]) == len,
        spec_varint_value(r@) == value,
{
    proof {
        lemma_varint_round_trip(value, len as int);
        lemma_div_mod_split(value as int, 0x100);
        lemma_div_mod_split(value as int / 0x100, 0x100);
        lemma_div_mod_split(value as int / 0x10000, 0x100);
        lemma_div_mod_split(value as int / 0x1000000, 0x100);
        lemma_div_mod_split(value as int / 0x100000000, 0x100);
        lemma_div_mod_split(value as int / 0x10000000000, 0x100);
        lemma_div_mod_split(value as int / 0x1000000000000, 0x100);
    }
    let mut out: Vec<u8> = Vec::new();
    if len == 1 {
        out.push(value as u8);
    } else if len == 2 {
        out.push(0x40 + (value / 0x100) as u8);
        out.push((value % 0x100) as u8);
    } else if len == 4 {
        out.push(0x80 + (value / 0x1000000) as u8);
        out.push(((value / 0x10000) % 0x100) as u8);
        out.push(((value / 0x100) % 0x100) as u8);
        out.push((value % 0x100) as u8);
    } else {
        out.push(0xc0 + (value / 0x100000000000000) as u8);
        out.push(((value / 0x1000000000000) % 0x100) as u8);
        out.push(((value / 0x10000000000) % 0x100) as u8);
        out.push(((value / 0x100000000) % 0x100) as u8);
        out.push(((value / 0x1000000) % 0x100) as u8);
        out.push(((value / 0x10000) % 0x100) as u8);
        out.push(((value / 0x100) % 0x100) as u8);
        out.push((value % 0x100) as u8);
    }
    assert(out@ =~= spec_encode_varint(value as int, len as int));
    out
}

/// A parsed QUIC long-header Initial packet, fields in wire order.
/// `payload_len` is the value of the length field (packet number plus
/// encrypted payload); `pn_offset` is the byte index at which the packet
/// number begins.
pub struct InitialHeader {
    pub first_byte: u8,
    pub version: u32,
    pub dcid: Vec<u8>,
    pub scid: Vec<u8>,
    pub token_len: usize,
    pub payload_len: usize,
    pub pn_offset: usize,
}

/// Mathematical image of a parsed Initial header.
pub ghost struct SpecInitialHeader {
    pub first_byte: u8,
    pub version: int,
    pub dcid: Seq<u8>,
    pub scid: Seq<u8>,
    pub token_len: int,
    pub payload_len: int,
    pub pn_offset: int,
}

/// The ways header parsing can fail, at the mathematical level.
pub ghost enum SpecHeaderError {
    TooShort { expected: int, actual: int },
    NotInitial { first_byte: u8 },
    UnsupportedVersion { version: int },
    BadVarInt,
}

/// Clamps an unbounded count into the range a `u64` error field can carry.
pub open spec fn spec_clamp_u64(x: int) -> int {
    if x > u64::MAX {
        u64::MAX as int
    } else {
        x
    }
}

/// Big-endian 32-bit value read at index `i`.
pub open spec fn spec_be32(p: Seq<u8>, i: int) -> int
    recommends
        0 <= i,
        i + 4 <= p.len(),
{
    p[i] * 0x1000000 + p[i + 1] * 0x10000 + p[i + 2] * 0x100 + p[i + 3]
}

/// Whether the first byte announces a long-header packet (bit 7 set).
pub open spec fn spec_is_long_header(b: u8) -> bool {
    b & 0x80 == 0x80
}

/// The long-header packet type (bits 5-4); Initial packets carry 0.
pub open spec fn spec_long_packet_type(b: u8) -> u8 {
    (b & 0x30) >> 4
}

/// The exact meaning of Initial-header parsing: walks the wire format
/// field by field and reports the first defect, in the order the parser
/// checks them.
pub open spec fn spec_parse_initial_header(p: Seq<u8>) -> Result<
    SpecInitialHeader,
    SpecHeaderError,
> {
    if p.len() < 1 {
        Err(SpecHeaderError::TooShort { expected: 1, actual: 0 })
    } else if !spec_is_long_header(p[0]) {
        Err(SpecHeaderError::NotInitial { first_byte: p[0] })
    } else if spec_long_packet_type(p[0]) != 0 {
        Err(SpecHeaderError::NotInitial { first_byte: p[0] })
    } else if p.len() < 6 {
        Err(SpecHeaderError::TooShort { expected: 6, actual: p.len() as int })
    } else {
        let version = spec_be32(p, 1);
        if version != 0x00000001 && version != 0x709a50c4 {
            Err(SpecHeaderError::UnsupportedVersion { version })
        } else {
            let dcil = p[5] as int;
            if p.len() < 6 + dcil {
                Err(SpecHeaderError::TooShort { expected: 6 + dcil, actual: p.len() as int })
            } else {
                let so = 6 + dcil;
                if p.len() < so + 1 {
                    Err(SpecHeaderError::TooShort { expected: so + 1, actual: p.len() as int })
                } else {
                    let scil = p[so] as int;
                    if p.len() < so + 1 + scil {
                        Err(
                            SpecHeaderError::TooShort {
                                expected: so + 1 + scil,
                                actual: p.len() as int,
                            },
                        )
                    } else {
                        let tv = so + 1 + scil;
                        if p.len() < tv + 1 || p.len() < tv + spec_varint_len(p[tv]) {
                            Err(SpecHeaderError::BadVarInt)
                        } else {
                            let token_len = spec_varint_value(p.skip(tv));
                            let to = tv + spec_varint_len(p[tv]);
                            if p.len() < to + token_len {
                                Err(
                                    SpecHeaderError::TooShort {
                                        expected: spec_clamp_u64(to + token_len),
                                        actual: p.len() as int,
                                    },
                                )
                            } else {
                                let pv = to + token_len;
                                if p.len() < pv + 1 || p.len() < pv + spec_varint_len(p[pv]) {
                                    Err(SpecHeaderError::BadVarInt)
                                } else {
                                    let payload_len = spec_varint_value(p.skip(pv));
                                    if payload_len > usize::MAX {
                                        Err(
                                            SpecHeaderError::TooShort {
                                                expected: payload_len,
                                                actual: p.len() as int,
                                            },
                                        )
                                    } else {
                                        Ok(
                                            SpecInitialHeader {
                                                first_byte: p[0],
                                                version,
                                                dcid: p.subrange(6, 6 + dcil),
                                                scid: p.subrange(so + 1, so + 1 + scil),
                                                token_len,
                                                payload_len,
                                                pn_offset: pv + spec_varint_len(p[pv]),
                                            },
                                        )
                                    }
                                }
                            }
                        }
                    }
                }
            }
        }
    }
}

/// Extracts the Destination Connection ID from a long-header Initial
/// packet without parsing the rest of the header.
pub fn extract_dcid(packet: &[u8]) -> (r: Result<&[u8], QuicError>)
    ensures
        match r {
            Ok(d) => {
                &&& packet@.len() >= 6
                &&& spec_is_long_header(packet@[0])
                &&& spec_long_packet_type(packet@[0]) == 0
                &&& packet@.len() >= 6 + packet@[5]
                &&& d@ == packet@.subrange(6, 6 + packet@[5])
            },
            Err(QuicError::NotInitialPacket(b)) => {
                &&& packet@.len() >= 1
                &&& b == packet@[0]
                &&& {
                    ||| !spec_is_long_header(packet@[0])
                    ||| (packet@.len() >= 6 && spec_long_packet_type(packet@[0]) != 0)
                }
            },
            Err(QuicError::PacketTooShort { expected, actual }) => {
                &&& actual == packet@.len()
                &&& {
                    ||| (packet@.len() == 0 && expected == 1)
                    ||| (expected == 6 && packet@.len() < 6 && packet@.len() >= 1
                        && spec_is_long_header(packet@[0]))
                    ||| (packet@.len() >= 6 && spec_is_long_header(packet@[0])
                        && spec_long_packet_type(packet@[0]) == 0 && expected == 6 + packet@[5]
                        && packet@.len() < 6 + packet@[5])
                }
            },
            Err(_) => false,
        },
{
    if packet.is_empty() {
        return Err(QuicError::PacketTooShort { expected: 1, actual: 0 });
    }
    let first = packet[0];
    if first & 0x80 != 0x80 {
        return Err(QuicError::NotInitialPacket(first));
    }
    if packet.len() < 6 {
        return Err(QuicError::PacketTooShort { expected: 6, actual: packet.len() as u64 });
    }
    if (first & 0x30) >> 4 != 0 {
        return Err(QuicError::NotInitialPacket(first));
    }
    let dcil = packet[5] as usize;
    if packet.len() < 6 + dcil {
        return Err(
            QuicError::PacketTooShort { expected: (6 + dcil) as u64, actual: packet.len() as u64 },
        );
    }
    Ok(vstd::slice::slice_subrange(packet, 6, 6 + dcil))
}

/// Parses the full long-header Initial layout; the result's relation to
/// the input bytes is exactly `spec_parse_initial_header`.
pub fn parse_initial_header(packet: &[u8]) -> (r: Result<InitialHeader, QuicError>)
    ensures
        match r {
            Ok(h) => spec_parse_initial_header(packet@) == Ok::<SpecInitialHeader, SpecHeaderError>(
                SpecInitialHeader {
                    first_byte: h.first_byte,
                    version: h.version as int,
                    dcid: h.dcid@,
                    scid: h.scid@,
                    token_len: h.token_len as int,
                    payload_len: h.payload_len as int,
                    pn_offset: h.pn_offset as int,
                },
            ) && 9 <= h.pn_offset <= packet@.len(),
            Err(QuicError::PacketTooShort { expected, actual }) => spec_parse_initial_header(
                packet@,
            ) == Err::<SpecInitialHeader, SpecHeaderError>(
                SpecHeaderError::TooShort { expected: expected as int, actual: actual as int },
            ),
            Err(QuicError::NotInitialPacket(b)) => spec_parse_initial_header(packet@) == Err::<
                SpecInitialHeader,
                SpecHeaderError,
            >(SpecHeaderError::NotInitial { first_byte: b }),
            Err(QuicError::UnsupportedVersion { version }) => spec_parse_initial_header(packet@)
                == Err::<SpecInitialHeader, SpecHeaderError>(
                SpecHeaderError::UnsupportedVersion { version: version as int },
            ),
            Err(QuicError::VarIntError(_)) => spec_parse_initial_header(packet@) == Err::<
                SpecInitialHeader,
                SpecHeaderError,
            >(SpecHeaderError::BadVarInt),
            Err(_) => false,
        },
{
    let ghost p = packet@;
    if packet.is_empty() {
        return Err(QuicError::PacketTooShort { expected: 1, actual: 0 });
    }
    let first = packet[0];
    if first & 0x80 != 0x80 {
        return Err(QuicError::NotInitialPacket(first));
    }
    if (first & 0x30) >> 4 != 0 {
        return Err(QuicError::NotInitialPacket(first));
    }
    if packet.len() < 6 {
        return Err(QuicError::PacketTooShort { expected: 6, actual: packet.len() as u64 });
    }
    let version: u32 = (packet[1] as u32) * 0x1000000 + (packet[2] as u32) * 0x10000 + (
    packet[3] as u32) * 0x100 + (packet[4] as u32);
    if !(version == 0x00000001 || version == 0x709a50c4) {
        return Err(QuicError::UnsupportedVersion { version });
    }
    let dcil = packet[5] as usize;
    if packet.len() < 6 + dcil {
        return Err(
            QuicError::PacketTooShort { expected: (6 + dcil) as u64, actual: packet.len() as u64 },
        );
    }
    let dcid = vstd::slice::slice_to_vec(vstd::slice::slice_subrange(packet, 6, 6 + dcil));
    let so = 6 + dcil;
    if packet.len() < so + 1 {
        return Err(
            QuicError::PacketTooShort { expected: (so + 1) as u64, actual: packet.len() as u64 },
        );
    }
    let scil = packet[so] as usize;
    if packet.len() - so - 1 < scil {
        return Err(
            QuicError::PacketTooShort {
                expected: (so + 1 + scil) as u64,
                actual: packet.len() as u64,
            },
        );
    }
    let scid = vstd::slice::slice_to_vec(vstd::slice::slice_subrange(packet, so + 1, so + 1 + scil));
    let tv = so + 1 + scil;

    let token_varint = parse_varint(vstd::slice::slice_subrange(packet, tv, packet.len()));
    let (token_val, token_vi_len) = match token_varint {
        Ok(x) => x,
        Err(e) => {
            proof {
                assert(p.skip(tv as int) =~= p.subrange(tv as int, p.len() as int));
            }
            return Err(QuicError::VarIntError(e));
        },
    };
    proof {
        assert(p.skip(tv as int) =~= p.subrange(tv as int, p.len() as int));
    }
    let to = tv + token_vi_len;
    let remaining = packet.len() - to;
    if token_val > remaining as u64 {
        let expected = if token_val > u64::MAX - to as u64 {
            u64::MAX
        } else {
            to as u64 + token_val
        };
        return Err(QuicError::PacketTooShort { expected, actual: packet.len() as u64 });
    }
    let token_len = token_val as usize;
    let pv = to + token_len;

    let payload_varint = parse_varint(vstd::slice::slice_subrange(packet, pv, packet.len()));
    let (payload_val, payload_vi_len) = match payload_varint {
        Ok(x) => x,
        Err(e) => {
            proof {
                assert(p.skip(pv as int) =~= p.subrange(pv as int, p.len() as int));
            }
            return Err(QuicError::VarIntError(e));
        },
    };
    proof {
        assert(p.skip(pv as int) =~= p.subrange(pv as int, p.len() as int));
    }
    if payload_val > usize::MAX as u64 {
        return Err(
            QuicError::PacketTooShort { expected: payload_val, actual: packet.len() as u64 },
        );
    }
    let pn_offset = pv + payload_vi_len;

    Ok(
        InitialHeader {
            first_byte: first,
            version,
            dcid,
            scid,
            token_len,
            payload_len: payload_val as usize,
            pn_offset,
        },
    )
}

} // verus!
