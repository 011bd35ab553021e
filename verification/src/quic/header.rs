//! Header protection removal and packet number decoding for QUIC
//! Initial packets (RFC 9001 header protection, RFC 9000 packet
//! number encoding).

use vstd::prelude::*;

use crate::quic::crypto::InitialKeys;
use crate::quic::error::QuicError;

verus! {

/// The five mask bytes that AES-128-ECB header protection produces from
/// a 16-byte key and a 16-byte ciphertext sample.  A function of the
/// two inputs alone.
pub uninterp spec fn spec_hp_mask(key: Seq<u8>, sample: Seq<u8>) -> Seq<u8>;

/// Relies on ring::aead::quic::HeaderProtectionKey with AES_128:
/// `new` accepts exactly 16-byte keys, `new_mask` accepts exactly
/// 16-byte samples and returns the five QUIC header-protection mask
/// bytes, a deterministic function of key and sample.
#[verifier::external_body]
fn hp_mask(hp_key: &[u8], sample: &[u8]) -> (r: Result<[u8; 5], ()>)
    requires
        sample@.len() == 16,
    ensures
        r is Ok <==> hp_key@.len() == 16,
        r matches Ok(m) ==> m@ == spec_hp_mask(hp_key@, sample@) && m@.len() == 5,
{
    let key = match ring::aead::quic::HeaderProtectionKey::new(
        &ring::aead::quic::AES_128,
        hp_key,
    ) {
        Ok(k) => k,
        Err(_) => return Err(()),
    };
    match key.new_mask(sample) {
        Ok(m) => Ok(m),
        Err(_) => Err(()),
    }
}

/// The first byte after unprotection: the mask's low nibble is XORed
/// into the protected byte (long headers protect only the low 4 bits).
pub open spec fn spec_unprotect_first_byte(b: u8, m0: u8) -> u8 {
    b ^ (m0 & 0x0f)
}

/// The packet-number length encoded in an unprotected first byte.
pub open spec fn spec_pn_len(b: u8) -> int {
    (b & 0x03) + 1
}

/// The whole packet after unprotection: the first byte is unmasked, the
/// `pn_len` bytes at `pn_offset` are XORed with mask bytes 1 onward, and
/// everything else is unchanged.
pub open spec fn spec_unprotected_packet(p: Seq<u8>, mask: Seq<u8>, pn_offset: int) -> Seq<u8>
    recommends
        p.len() >= 1,
        mask.len() == 5,
        0 <= pn_offset,
        pn_offset + 4 <= p.len(),
{
    let fb = spec_unprotect_first_byte(p[0], mask[0]);
    let pl = spec_pn_len(fb);
    Seq::new(
        p.len(),
        |i: int|
            if i == 0 {
                fb
            } else if pn_offset <= i < pn_offset + pl {
                p[i] ^ mask[i - pn_offset + 1]
            } else {
                p[i]
            },
    )
}

/// Big-endian integer value of a byte sequence.
pub open spec fn spec_be_bytes(s: Seq<u8>) -> int
    decreases s.len(),
{
    if s.len() == 0 {
        0
    } else {
        spec_be_bytes(s.drop_last()) * 0x100 + s.last()
    }
}

/// 256 to the power `n`.
pub open spec fn pow256(n: nat) -> int
    decreases n,
{
    if n == 0 {
        1
    } else {
        0x100 * pow256((n - 1) as nat)
    }
}

/// A big-endian value fits below 256 to the power of its length.
pub proof fn lemma_be_bytes_bound(s: Seq<u8>)
    ensures
        0 <= spec_be_bytes(s) < pow256(s.len()),
    decreases s.len(),
{
    if s.len() > 0 {
        lemma_be_bytes_bound(s.drop_last());
    }
}

/// Unprotection is an involution: running the unprotection procedure a
/// second time with the same mask restores the original packet bytes.
/// This needs the mask's two packet-number-length bits to be clear;
/// otherwise the second pass reads a different packet-number length
/// than the first pass masked.
pub proof fn lemma_unprotect_involution(p: Seq<u8>, mask: Seq<u8>, pn_offset: int)
    requires
        p.len() >= 1,
        mask.len() == 5,
        0 <= pn_offset,
        pn_offset + 4 <= p.len(),
        mask[0] & 0x03 == 0,
    ensures
        spec_unprotected_packet(spec_unprotected_packet(p, mask, pn_offset), mask, pn_offset) == p,
{
    let q = spec_unprotected_packet(p, mask, pn_offset);
    let r = spec_unprotected_packet(q, mask, pn_offset);
    let m0 = mask[0];
    let b0 = p[0];
    assert(((b0 ^ (m0 & 0x0f)) ^ (m0 & 0x0f)) == b0) by (bit_vector);
    assert(m0 & 0x03 == 0 ==> ((b0 ^ (m0 & 0x0f)) & 0x03) == (b0 & 0x03)) by (bit_vector)
        requires
            m0 & 0x03 == 0,
    ;
    assert(q[0] == b0 ^ (m0 & 0x0f));
    assert(spec_unprotect_first_byte(q[0], m0) == b0);
    assert(spec_pn_len(q[0] ^ (m0 & 0x0f)) == spec_pn_len(b0 ^ (m0 & 0x0f))) by {
        assert((b0 ^ (m0 & 0x0f)) ^ (m0 & 0x0f) == b0) by (bit_vector);
        assert(m0 & 0x03 == 0 ==> (b0 & 0x03) == ((b0 ^ (m0 & 0x0f)) & 0x03)) by (bit_vector)
            requires
                m0 & 0x03 == 0,
        ;
    }
    assert forall|i: int| 0 <= i < p.len() implies r[i] == p[i] by {
        if i == 0 {
        } else if pn_offset <= i < pn_offset + spec_pn_len(q[0] ^ (m0 & 0x0f)) {
            let x = p[i];
            let mi = mask[i - pn_offset + 1];
            assert(((x ^ mi) ^ mi) == x) by (bit_vector);
        }
    }
    assert(r =~= p);
}

/// Removes header protection in place: computes the mask from the
/// sample at `pn_offset + 4`, unmasks the first byte, reads the
/// packet-number length from it, unmasks the packet number and decodes
/// it as a big-endian value.  Returns the unprotected first byte, the
/// packet number and its length.
pub fn remove_header_protection(packet: &mut Vec<u8>, pn_offset: usize, keys: &InitialKeys) -> (r:
    Result<(u8, u64, u8), QuicError>)
    requires
        pn_offset >= 1,
    ensures
        match r {
            Ok(out) => {
                let p = old(packet)@;
                let mask = spec_hp_mask(
                    keys.hp_key@,
                    p.subrange(pn_offset + 4, pn_offset + 20),
                );
                &&& p.len() >= pn_offset + 20
                &&& keys.hp_key@.len() == 16
                &&& out.0 == spec_unprotect_first_byte(p[0], mask[0])
                &&& out.2 == spec_pn_len(out.0)
                &&& final(packet)@ == spec_unprotected_packet(p, mask, pn_offset as int)
                &&& out.1 == spec_be_bytes(
                    final(packet)@.subrange(pn_offset as int, pn_offset + out.2),
                )
            },
            Err(QuicError::PacketTooShort { expected, actual }) => {
                &&& final(packet)@ == old(packet)@
                &&& actual == old(packet)@.len()
                &&& {
                    ||| (old(packet)@.len() < pn_offset + 4 && expected
                        == crate::quic::parser::spec_clamp_u64(pn_offset + 4))
                    ||| (old(packet)@.len() >= pn_offset + 4 && old(packet)@.len() < pn_offset + 20
                        && expected == crate::quic::parser::spec_clamp_u64(pn_offset + 20))
                }
            },
            Err(QuicError::HeaderProtectionFailed(_)) => {
                &&& final(packet)@ == old(packet)@
                &&& old(packet)@.len() >= pn_offset + 20
                &&& keys.hp_key@.len() != 16
            },
            Err(_) => false,
        },
{
    let ghost p = packet@;
    if packet.len() < 4 || packet.len() - 4 < pn_offset {
        let expected = if pn_offset as u64 > u64::MAX - 4 {
            u64::MAX
        } else {
            pn_offset as u64 + 4
        };
        return Err(QuicError::PacketTooShort { expected, actual: packet.len() as u64 });
    }
    let sample_start = pn_offset + 4;
    if packet.len() - sample_start < 16 {
        let expected = if pn_offset as u64 > u64::MAX - 20 {
            u64::MAX
        } else {
            pn_offset as u64 + 20
        };
        return Err(QuicError::PacketTooShort { expected, actual: packet.len() as u64 });
    }
    let sample_end = sample_start + 16;
    let sample = vstd::slice::slice_subrange(packet.as_slice(), sample_start, sample_end);
    let mask = match hp_mask(keys.hp_key.as_slice(), sample) {
        Ok(m) => m,
        Err(_) => {
            return Err(
                QuicError::HeaderProtectionFailed(
                    "header protection key must be 16 bytes".to_owned(),
                ),
            );
        },
    };
    let ghost mask_seq = spec_hp_mask(keys.hp_key@, p.subrange(pn_offset + 4, pn_offset + 20));

    let m0 = mask[0];
    let protected_first = packet[0];
    let unprotected_first = protected_first ^ (m0 & 0x0f);
    proof {
        assert((unprotected_first & 0x03) < 4) by (bit_vector);
    }
    let pn_len = (unprotected_first & 0x03) + 1;

    let mut packet_number: u64 = 0;
    let mut i: usize = 0;
    while i < pn_len as usize
        invariant
            i <= pn_len as usize,
            1 <= pn_len <= 4,
            pn_len as int == spec_pn_len(spec_unprotect_first_byte(p[0], mask_seq[0])),
            1 <= pn_offset,
            p.len() >= pn_offset + 20,
            packet@.len() == p.len(),
            packet@.len() <= usize::MAX,
            mask@ == mask_seq,
            mask@.len() == 5,
            unprotected_first == spec_unprotect_first_byte(p[0], mask_seq[0]),
            forall|j: int|
                pn_offset <= j < pn_offset + i ==> packet@[j] == (p[j] ^ mask_seq[j - pn_offset
                    + 1]),
            forall|j: int|
                0 <= j < p.len() && !(pn_offset <= j < pn_offset + i) ==> packet@[j] == p[j],
            packet_number == spec_be_bytes(packet@.subrange(pn_offset as int, pn_offset + i)),
        decreases pn_len as int - i,
    {
        proof {
            let cursub = packet@.subrange(pn_offset as int, pn_offset + i);
            lemma_be_bytes_bound(cursub);
            assert(pow256(0) == 1);
            assert(pow256(1) == 0x100);
            assert(pow256(2) == 0x10000);
            assert(pow256(3) == 0x1000000);
            assert(packet_number < 0x1000000);
        }
        let idx = pn_offset + i;
        let b = packet[idx] ^ mask[1 + i];
        let ghost pre = packet@;
        packet.set(idx, b);
        packet_number = packet_number * 0x100 + b as u64;
        proof {
            assert(packet@.subrange(pn_offset as int, pn_offset + i) =~= pre.subrange(
                pn_offset as int,
                pn_offset + i,
            ));
            let sub_new = packet@.subrange(pn_offset as int, pn_offset + i + 1);
            assert(sub_new.last() == b);
            assert(sub_new.drop_last() =~= packet@.subrange(pn_offset as int, pn_offset + i));
        }
        i = i + 1;
    }

    let ghost before_fb = packet@;
    packet.set(0, unprotected_first);
    proof {
        assert(packet@ =~= spec_unprotected_packet(p, mask_seq, pn_offset as int));
        assert(packet@.subrange(pn_offset as int, pn_offset + pn_len as int) =~= before_fb.subrange(
            pn_offset as int,
            pn_offset + pn_len as int,
        ));
    }
    Ok((unprotected_first, packet_number, pn_len))
}

/// Packet-number decoding (RFC 9000): the candidate closest to the
/// expected packet number that agrees with the truncated value in its
/// low bytes.  Going below zero saturates to zero.
pub open spec fn spec_decode_pn(t: Seq<u8>, expected: int) -> int
    recommends
        t.len() <= 4,
        expected >= 0,
{
    let truncated = spec_be_bytes(t);
    let win = pow256(t.len());
    let hwin = win / 2;
    let candidate = expected - (expected % win) + truncated;
    if candidate <= expected + hwin && candidate + win > expected + hwin {
        candidate
    } else if candidate > expected + hwin {
        if candidate >= win {
            candidate - win
        } else {
            0
        }
    } else {
        candidate + win
    }
}

/// Recovers the full packet number from its truncated on-wire bytes and
/// the expected next packet number.  Fails exactly when more than four
/// bytes are offered.  QUIC packet numbers stay below 2^62, which bounds
/// `expected_pn`.
pub fn decode_packet_number(truncated_pn: &[u8], expected_pn: u64) -> (r: Result<u64, QuicError>)
    requires
        expected_pn < 0x4000000000000000,
    ensures
        match r {
            Ok(v) => truncated_pn@.len() <= 4 && v == spec_decode_pn(
                truncated_pn@,
                expected_pn as int,
            ),
            Err(QuicError::PacketNumberError(_)) => truncated_pn@.len() > 4,
            Err(_) => false,
        },
{
    let pn_len = truncated_pn.len();
    if pn_len > 4 {
        return Err(QuicError::PacketNumberError("packet number longer than four bytes".to_owned()));
    }

    let mut truncated: u64 = 0;
    let mut i: usize = 0;
    while i < pn_len
        invariant
            i <= pn_len <= 4,
            pn_len == truncated_pn@.len(),
            truncated == spec_be_bytes(truncated_pn@.subrange(0, i as int)),
        decreases pn_len - i,
    {
        proof {
            let cursub = truncated_pn@.subrange(0, i as int);
            lemma_be_bytes_bound(cursub);
            assert(pow256(0) == 1);
            assert(pow256(1) == 0x100);
            assert(pow256(2) == 0x10000);
            assert(pow256(3) == 0x1000000);
            assert(truncated < 0x1000000);
        }
        let b = truncated_pn[i];
        truncated = truncated * 0x100 + b as u64;
        proof {
            let sub_new = truncated_pn@.subrange(0, i + 1);
            assert(sub_new.last() == b);
            assert(sub_new.drop_last() =~= truncated_pn@.subrange(0, i as int));
        }
        i = i + 1;
    }
    proof {
        assert(truncated_pn@.subrange(0, pn_len as int) =~= truncated_pn@);
        lemma_be_bytes_bound(truncated_pn@);
        assert(pow256(0) == 1);
        assert(pow256(1) == 0x100);
        assert(pow256(2) == 0x10000);
        assert(pow256(3) == 0x1000000);
        assert(pow256(4) == 0x100000000);
    }

    let pn_win: u64 = if pn_len == 0 {
        1
    } else if pn_len == 1 {
        0x100
    } else if pn_len == 2 {
        0x10000
    } else if pn_len == 3 {
        0x1000000
    } else {
        0x100000000
    };
    let pn_hwin = pn_win / 2;
    let candidate = expected_pn - (expected_pn % pn_win) + truncated;

    let decoded = if candidate <= expected_pn + pn_hwin && candidate + pn_win > expected_pn
        + pn_hwin {
        candidate
    } else if candidate > expected_pn + pn_hwin {
        if candidate >= pn_win {
            candidate - pn_win
        } else {
            0
        }
    } else {
        candidate + pn_win
    };

    Ok(decoded)
}

} // verus!
