//! Initial payload decryption: AEAD nonce construction, AES-128-GCM
//! opening, and the QUIC frame scan that collects CRYPTO fragments.

use vstd::prelude::*;

use crate::quic::crypto::{
    derive_initial_keys_for_role, spec_initial_hp, spec_initial_iv, spec_initial_key,
    InitialKeyRole,
};
use crate::quic::error::QuicError;
use crate::quic::header::{
    remove_header_protection, spec_be_bytes, spec_hp_mask, spec_pn_len, spec_unprotect_first_byte,
    spec_unprotected_packet,
};
use crate::quic::parser::{
    parse_initial_header, spec_parse_initial_header, spec_varint_len, spec_varint_value,
    SpecHeaderError, SpecInitialHeader,
};
use crate::quic::reassembly::{
    clone_bytes, spec_assemble, spec_base_set, spec_merge_fragments, PendingCryptoMap,
};
use crate::tls::sni::{extract_sni, spec_extract_sni};

verus! {

/// The eight big-endian bytes of a packet number.
pub open spec fn spec_pn_be8(pn: u64) -> Seq<u8> {
    seq![
        ((pn / 0x100000000000000) % 0x100) as u8,
        ((pn / 0x1000000000000) % 0x100) as u8,
        ((pn / 0x10000000000) % 0x100) as u8,
        ((pn / 0x100000000) % 0x100) as u8,
        ((pn / 0x1000000) % 0x100) as u8,
        ((pn / 0x10000) % 0x100) as u8,
        ((pn / 0x100) % 0x100) as u8,
        (pn % 0x100) as u8,
    ]
}

/// The AEAD nonce: the IV with the packet number, big-endian, XORed
/// into its trailing eight bytes; the leading four bytes are untouched.
pub open spec fn spec_construct_nonce(iv: Seq<u8>, pn: u64) -> Seq<u8>
    recommends
        iv.len() == 12,
{
    Seq::new(
        12,
        |i: int|
            if i < 4 {
                iv[i]
            } else {
                iv[i] ^ spec_pn_be8(pn)[i - 4]
            },
    )
}

/// A zero packet number leaves the nonce equal to the IV.
pub proof fn lemma_nonce_zero(iv: Seq<u8>)
    requires
        iv.len() == 12,
    ensures
        spec_construct_nonce(iv, 0) == iv,
{
    assert forall|i: int| 0 <= i < 12 implies spec_construct_nonce(iv, 0)[i] == iv[i] by {
        if i >= 4 {
            let b = iv[i];
            assert(b ^ 0 == b) by (bit_vector);
        }
    }
    assert(spec_construct_nonce(iv, 0) =~= iv);
}

/// Builds the AEAD nonce from the IV and the packet number.  Fails
/// exactly when the IV is not twelve bytes.
pub fn construct_nonce(iv: &[u8], packet_number: u64) -> (r: Result<Vec<u8>, QuicError>)
    ensures
        match r {
            Ok(n) => {
                &&& iv@.len() == 12
                &&& n@ == spec_construct_nonce(iv@, packet_number)
                &&& n@.len() == 12
            },
            Err(QuicError::DecryptionFailed(_)) => iv@.len() != 12,
            Err(_) => false,
        },
{
    if iv.len() != 12 {
        return Err(QuicError::DecryptionFailed("nonce needs a twelve-byte iv".to_owned()));
    }
    let pn = packet_number;
    let mut pn_bytes: Vec<u8> = Vec::new();
    pn_bytes.push(((pn / 0x100000000000000) % 0x100) as u8);
    pn_bytes.push(((pn / 0x1000000000000) % 0x100) as u8);
    pn_bytes.push(((pn / 0x10000000000) % 0x100) as u8);
    pn_bytes.push(((pn / 0x100000000) % 0x100) as u8);
    pn_bytes.push(((pn / 0x1000000) % 0x100) as u8);
    pn_bytes.push(((pn / 0x10000) % 0x100) as u8);
    pn_bytes.push(((pn / 0x100) % 0x100) as u8);
    pn_bytes.push((pn % 0x100) as u8);
    proof {
        assert(pn_bytes@ =~= spec_pn_be8(pn));
    }

    let mut nonce = vstd::slice::slice_to_vec(iv);
    let mut i: usize = 4;
    while i < 12
        invariant
            4 <= i <= 12,
            iv@.len() == 12,
            nonce@.len() == 12,
            pn_bytes@ == spec_pn_be8(pn),
            forall|j: int| 0 <= j < i ==> nonce@[j] == spec_construct_nonce(iv@, pn)[j],
            forall|j: int| i <= j < 12 ==> nonce@[j] == iv@[j],
        decreases 12 - i,
    {
        let b = nonce[i] ^ pn_bytes[i - 4];
        nonce.set(i, b);
        i = i + 1;
    }
    proof {
        assert(nonce@ =~= spec_construct_nonce(iv@, pn));
    }
    Ok(nonce)
}

/// What AES-128-GCM opening yields for a key, nonce, associated data
/// and ciphertext-with-tag: the plaintext when the tag verifies, nothing
/// otherwise.  A function of the four inputs alone.
pub uninterp spec fn spec_aead_open(
    key: Seq<u8>,
    nonce: Seq<u8>,
    aad: Seq<u8>,
    ct: Seq<u8>,
) -> Option<Seq<u8>>;

/// Relies on ring::aead::LessSafeKey::open_in_place with AES_128_GCM:
/// opening is deterministic in key, nonce, AAD and ciphertext; on
/// success the plaintext is the input minus the sixteen-byte tag.
#[verifier::external_body]
fn aead_open_aes128gcm(key: &[u8], nonce: &[u8], aad: &[u8], ct: &[u8]) -> (r: Result<Vec<u8>, ()>)
    requires
        key@.len() == 16,
        nonce@.len() == 12,
        ct@.len() >= 16,
    ensures
        r matches Ok(p) ==> spec_aead_open(key@, nonce@, aad@, ct@) == Some(p@) && p@.len() == ct@.len()
            - 16,
        r is Err ==> spec_aead_open(key@, nonce@, aad@, ct@) is None,
{
    let unbound = ring::aead::UnboundKey::new(&ring::aead::AES_128_GCM, key).map_err(|_| ())?;
    let aead_key = ring::aead::LessSafeKey::new(unbound);
    let n = ring::aead::Nonce::try_assume_unique_for_key(nonce).map_err(|_| ())?;
    let mut buf = ct.to_vec();
    let plain_len =
        aead_key.open_in_place(n, ring::aead::Aad::from(aad), &mut buf).map_err(|_| ())?.len();
    buf.truncate(plain_len);
    Ok(buf)
}

/// The ways payload decryption can fail, at the mathematical level.
pub ghost enum SpecDecryptError {
    TooShort { expected: int, actual: int },
    EndOverflow,
    TooSmall,
    OpenFailed,
}

/// The meaning of Initial-payload decryption: slice associated data and
/// ciphertext out of the unprotected packet as the length field
/// dictates, build the nonce, and open with AES-128-GCM.
pub open spec fn spec_decrypt_payload(
    p: Seq<u8>,
    pn_offset: int,
    payload_len: int,
    pn_len: int,
    pn: u64,
    key: Seq<u8>,
    iv: Seq<u8>,
) -> Result<Seq<u8>, SpecDecryptError>
    recommends
        iv.len() == 12,
{
    let payload_start = pn_offset + pn_len;
    if p.len() <= payload_start {
        Err(
            SpecDecryptError::TooShort {
                expected: crate::quic::parser::spec_clamp_u64(payload_start + 1),
                actual: p.len() as int,
            },
        )
    } else if pn_offset + payload_len > usize::MAX {
        Err(SpecDecryptError::EndOverflow)
    } else if p.len() < pn_offset + payload_len {
        Err(
            SpecDecryptError::TooShort {
                expected: pn_offset + payload_len,
                actual: p.len() as int,
            },
        )
    } else if payload_len < pn_len + 16 {
        Err(SpecDecryptError::TooSmall)
    } else {
        let aad = p.take(payload_start);
        let ct = p.subrange(payload_start, pn_offset + payload_len);
        match spec_aead_open(key, spec_construct_nonce(iv, pn), aad, ct) {
            Some(plain) => Ok(plain),
            None => Err(SpecDecryptError::OpenFailed),
        }
    }
}

/// Decrypts the payload of an unprotected Initial packet.  The length
/// field bounds the ciphertext; the sixteen-byte tag sits at its tail.
pub fn decrypt_initial_payload(
    packet: &[u8],
    pn_offset: usize,
    payload_len: usize,
    pn_len: u8,
    packet_number: u64,
    key: &[u8],
    iv: &[u8],
) -> (r: Result<Vec<u8>, QuicError>)
    requires
        key@.len() == 16,
        iv@.len() == 12,
    ensures
        ({
            let spec_r = spec_decrypt_payload(
                packet@,
                pn_offset as int,
                payload_len as int,
                pn_len as int,
                packet_number,
                key@,
                iv@,
            );
            match r {
                Ok(plain) => spec_r == Ok::<Seq<u8>, SpecDecryptError>(plain@),
                Err(QuicError::PacketTooShort { expected, actual }) => spec_r matches Err(
                    SpecDecryptError::TooShort { expected: e, actual: a },
                ) && e == expected && a == actual,
                Err(QuicError::DecryptionFailed(_)) => spec_r matches Err(e) && (
                e == SpecDecryptError::EndOverflow || e == SpecDecryptError::TooSmall
                    || e == SpecDecryptError::OpenFailed),
                Err(_) => false,
            }
        }),
{
    let pn_len_usize = pn_len as usize;
    if packet.len() < pn_len_usize || packet.len() - pn_len_usize < pn_offset || packet.len()
        - pn_len_usize - pn_offset == 0 {
        let expected = if pn_offset as u64 > u64::MAX - pn_len as u64 - 1 {
            u64::MAX
        } else {
            pn_offset as u64 + pn_len as u64 + 1
        };
        return Err(QuicError::PacketTooShort { expected, actual: packet.len() as u64 });
    }
    let payload_start = pn_offset + pn_len_usize;
    if payload_len > usize::MAX - pn_offset {
        return Err(QuicError::DecryptionFailed("payload end exceeds the address space".to_owned()));
    }
    let payload_end = pn_offset + payload_len;
    if packet.len() < payload_end {
        return Err(
            QuicError::PacketTooShort {
                expected: payload_end as u64,
                actual: packet.len() as u64,
            },
        );
    }
    if payload_len < pn_len_usize + 16 {
        return Err(QuicError::DecryptionFailed("ciphertext shorter than its tag".to_owned()));
    }
    let aad = vstd::slice::slice_subrange(packet, 0, payload_start);
    let ct = vstd::slice::slice_subrange(packet, payload_start, payload_end);
    let nonce = match construct_nonce(iv, packet_number) {
        Ok(n) => n,
        Err(e) => {
            return Err(e);
        },
    };
    proof {
        assert(packet@.take(payload_start as int) =~= aad@);
    }
    match aead_open_aes128gcm(key, nonce.as_slice(), aad, ct) {
        Ok(plain) => Ok(plain),
        Err(_) => Err(QuicError::DecryptionFailed("authenticated decryption failed".to_owned())),
    }
}

/// One CRYPTO frame's worth of handshake bytes at a stream offset.
pub struct CryptoFragment {
    pub offset: u64,
    pub data: Vec<u8>,
}

/// The mathematical image of a fragment list.
pub open spec fn frags_view(v: Seq<CryptoFragment>) -> Seq<(u64, Seq<u8>)> {
    Seq::new(v.len(), |i: int| (v[i].offset, v[i].data@))
}

/// The meaning of the frame scan: walks the decrypted payload, skips
/// PADDING and PING, collects (offset, data) for each CRYPTO frame,
/// stops quietly at the first unknown frame type, and fails (`None`)
/// on a malformed varint or truncated CRYPTO data.
pub open spec fn spec_scan_frames(s: Seq<u8>) -> Option<Seq<(u64, Seq<u8>)>>
    decreases s.len(),
{
    if s.len() == 0 {
        Some(seq![])
    } else if s.len() < spec_varint_len(s[0]) {
        None
    } else {
        let ft = spec_varint_value(s);
        let rest = s.skip(spec_varint_len(s[0]));
        if ft == 0 || ft == 1 {
            spec_scan_frames(rest)
        } else if ft == 6 {
            if rest.len() < 1 || rest.len() < spec_varint_len(rest[0]) {
                None
            } else {
                let off = spec_varint_value(rest);
                let rest2 = rest.skip(spec_varint_len(rest[0]));
                if rest2.len() < 1 || rest2.len() < spec_varint_len(rest2[0]) {
                    None
                } else {
                    let dlen = spec_varint_value(rest2);
                    let rest3 = rest2.skip(spec_varint_len(rest2[0]));
                    if rest3.len() < dlen {
                        None
                    } else {
                        match spec_scan_frames(rest3.skip(dlen)) {
                            None => None,
                            Some(f) => Some(seq![(off as u64, rest3.take(dlen))] + f),
                        }
                    }
                }
            }
        } else {
            Some(seq![])
        }
    }
}

/// Scans a decrypted Initial payload for CRYPTO frames.
#[verifier::rlimit(100)]
pub fn scan_crypto_frames(plain: &[u8]) -> (r: Result<Vec<CryptoFragment>, QuicError>)
    ensures
        match r {
            Ok(frags) => spec_scan_frames(plain@) == Some(frags_view(frags@)),
            Err(QuicError::CryptoFrameError(_)) => spec_scan_frames(plain@) is None,
            Err(_) => false,
        },
{
    let ghost p = plain@;
    let mut frags: Vec<CryptoFragment> = Vec::new();
    let mut pos: usize = 0;
    proof {
        assert(p.skip(0) =~= p);
        if spec_scan_frames(p) is Some {
            assert(frags_view(frags@) + spec_scan_frames(p)->Some_0 =~= spec_scan_frames(
                p,
            )->Some_0);
        }
    }
    loop
        invariant
            pos <= plain@.len(),
            plain@ == p,
            match spec_scan_frames(p.skip(pos as int)) {
                None => spec_scan_frames(p) is None,
                Some(f) => spec_scan_frames(p) == Some(frags_view(frags@) + f),
            },
        decreases plain@.len() - pos,
    {
        if pos == plain.len() {
            proof {
                assert(p.skip(pos as int) =~= Seq::<u8>::empty());
                assert(frags_view(frags@) + Seq::<(u64, Seq<u8>)>::empty() =~= frags_view(frags@));
            }
            return Ok(frags);
        }
        let ghost tail = p.skip(pos as int);
        let rest_slice = vstd::slice::slice_subrange(plain, pos, plain.len());
        proof {
            assert(rest_slice@ =~= tail);
        }
        let (frame_type, type_len) = match crate::quic::parser::parse_varint(rest_slice) {
            Ok(x) => x,
            Err(_) => {
                return Err(QuicError::CryptoFrameError("malformed frame type".to_owned()));
            },
        };
        let after_type = pos + type_len;

        if frame_type == 0 || frame_type == 1 {
            proof {
                assert(p.skip(after_type as int) =~= tail.skip(spec_varint_len(tail[0])));
            }
            pos = after_type;
        } else if frame_type == 6 {
            let ghost rest1 = tail.skip(spec_varint_len(tail[0]));
            let off_slice = vstd::slice::slice_subrange(plain, after_type, plain.len());
            proof {
                assert(off_slice@ =~= rest1);
            }
            let (crypto_offset, off_len) = match crate::quic::parser::parse_varint(off_slice) {
                Ok(x) => x,
                Err(_) => {
                    return Err(QuicError::CryptoFrameError("malformed CRYPTO offset".to_owned()));
                },
            };
            let after_off = after_type + off_len;

            let ghost rest2 = rest1.skip(spec_varint_len(rest1[0]));
            let len_slice = vstd::slice::slice_subrange(plain, after_off, plain.len());
            proof {
                assert(len_slice@ =~= rest2);
            }
            let (crypto_len, len_len) = match crate::quic::parser::parse_varint(len_slice) {
                Ok(x) => x,
                Err(_) => {
                    return Err(QuicError::CryptoFrameError("malformed CRYPTO length".to_owned()));
                },
            };
            let after_len = after_off + len_len;

            let ghost rest3 = rest2.skip(spec_varint_len(rest2[0]));
            proof {
                assert(p.skip(after_len as int) =~= rest3);
            }
            let remaining = plain.len() - after_len;
            if crypto_len > remaining as u64 {
                return Err(QuicError::CryptoFrameError("CRYPTO data truncated".to_owned()));
            }
            let dlen = crypto_len as usize;
            let data = vstd::slice::slice_to_vec(
                vstd::slice::slice_subrange(plain, after_len, after_len + dlen),
            );
            proof {
                assert(data@ =~= rest3.take(crypto_len as int));
            }
            frags.push(CryptoFragment { offset: crypto_offset, data });
            proof {
                assert(p.skip((after_len + dlen) as int) =~= rest3.skip(crypto_len as int));
                if spec_scan_frames(rest3.skip(crypto_len as int)) is Some {
                    let f = spec_scan_frames(rest3.skip(crypto_len as int))->Some_0;
                    assert(frags_view(frags@.drop_last()) + (seq![
                        (crypto_offset, rest3.take(crypto_len as int)),
                    ] + f) =~= frags_view(frags@) + f);
                }
            }
            pos = after_len + dlen;
        } else {
            proof {
                assert(frags_view(frags@) + Seq::<(u64, Seq<u8>)>::empty() =~= frags_view(frags@));
            }
            return Ok(frags);
        }
    }
}

/// The header-protection mask a role's keys produce for this packet.
pub open spec fn spec_role_mask(p: Seq<u8>, h: SpecInitialHeader, role: InitialKeyRole) -> Seq<
    u8,
> {
    spec_hp_mask(
        spec_initial_hp(h.dcid, h.version as u32, role),
        p.subrange(h.pn_offset + 4, h.pn_offset + 20),
    )
}

/// The packet after removing header protection with the role's keys.
pub open spec fn spec_role_unprotected(p: Seq<u8>, h: SpecInitialHeader, role: InitialKeyRole) -> Seq<
    u8,
> {
    spec_unprotected_packet(p, spec_role_mask(p, h, role), h.pn_offset)
}

/// The unprotected first byte under the role's keys.
pub open spec fn spec_role_fb(p: Seq<u8>, h: SpecInitialHeader, role: InitialKeyRole) -> u8 {
    spec_unprotect_first_byte(p[0], spec_role_mask(p, h, role)[0])
}

/// Whether the reserved bits come out zero, the sign of the right role.
pub open spec fn spec_role_reserved_ok(p: Seq<u8>, h: SpecInitialHeader, role: InitialKeyRole) -> bool {
    spec_role_fb(p, h, role) & 0x0c == 0
}

/// The packet number read under the role's keys.
pub open spec fn spec_role_pn(p: Seq<u8>, h: SpecInitialHeader, role: InitialKeyRole) -> int {
    let q = spec_role_unprotected(p, h, role);
    spec_be_bytes(q.subrange(h.pn_offset, h.pn_offset + spec_pn_len(spec_role_fb(p, h, role))))
}

/// What AEAD opening yields under the role's keys.
pub open spec fn spec_role_plain(p: Seq<u8>, h: SpecInitialHeader, role: InitialKeyRole) -> Result<
    Seq<u8>,
    SpecDecryptError,
> {
    spec_decrypt_payload(
        spec_role_unprotected(p, h, role),
        h.pn_offset,
        h.payload_len,
        spec_pn_len(spec_role_fb(p, h, role)),
        spec_role_pn(p, h, role) as u64,
        spec_initial_key(h.dcid, h.version as u32, role),
        spec_initial_iv(h.dcid, h.version as u32, role),
    )
}

/// The CRYPTO fragments scanned from the role's plaintext.
pub open spec fn spec_role_frags(p: Seq<u8>, h: SpecInitialHeader, role: InitialKeyRole) -> Option<
    Seq<(u64, Seq<u8>)>,
> {
    match spec_role_plain(p, h, role) {
        Err(_) => None,
        Ok(plain) => spec_scan_frames(plain),
    }
}

/// Whether an attempt under this role runs all the way to reassembly:
/// reserved bits clear, payload opened, frames scanned, at least one
/// CRYPTO fragment found, every fragment's end offset representable.
pub open spec fn spec_role_usable(p: Seq<u8>, h: SpecInitialHeader, role: InitialKeyRole) -> bool {
    &&& spec_role_reserved_ok(p, h, role)
    &&& spec_role_plain(p, h, role) is Ok
    &&& spec_role_frags(p, h, role) matches Some(f) && f.len() > 0 && (forall|k: int|
        0 <= k < f.len() ==> (#[trigger] f[k]).0 + f[k].1.len() <= u64::MAX)
}

/// Extracts the SNI from a QUIC Initial packet end to end: parse the
/// header, derive keys for the client and then the server role, remove
/// header protection, decrypt, scan CRYPTO frames, merge them into the
/// per-DCID buffer, and parse the reassembled ClientHello.  On success
/// the packet holds its unprotected bytes and the buffered fragments
/// for this DCID include this packet's.
#[verifier::rlimit(100)]
pub fn extract_sni_from_quic_initial(
    packet: &mut Vec<u8>,
    pending: &mut PendingCryptoMap,
    now_ms: u64,
) -> (r: Result<Option<Vec<u8>>, QuicError>)
    requires
        old(pending).wf(),
    ensures
        final(pending).wf(),
        ({
            let p = old(packet)@;
            match spec_parse_initial_header(p) {
                Err(he) => {
                    &&& final(packet)@ == p
                    &&& *final(pending) == *old(pending)
                    &&& match r {
                        Err(QuicError::PacketTooShort { expected, actual }) => he
                            == (SpecHeaderError::TooShort {
                            expected: expected as int,
                            actual: actual as int,
                        }),
                        Err(QuicError::NotInitialPacket(b)) => he == (SpecHeaderError::NotInitial {
                            first_byte: b,
                        }),
                        Err(QuicError::UnsupportedVersion { version }) => he
                            == (SpecHeaderError::UnsupportedVersion { version: version as int }),
                        Err(QuicError::VarIntError(_)) => he == SpecHeaderError::BadVarInt,
                        _ => false,
                    }
                },
                Ok(h) => {
                    if p.len() < h.pn_offset + 20 {
                        &&& final(packet)@ == p
                        &&& *final(pending) == *old(pending)
                        &&& r matches Err(QuicError::PacketTooShort { .. })
                    } else {
                        let client_ok = spec_role_usable(p, h, InitialKeyRole::Client);
                        let server_ok = spec_role_usable(p, h, InitialKeyRole::Server);
                        if !client_ok && !server_ok {
                            &&& final(packet)@ == p
                            &&& *final(pending) == *old(pending)
                            &&& r matches Err(QuicError::DecryptionFailed(_))
                        } else {
                            let role = if client_ok {
                                InitialKeyRole::Client
                            } else {
                                InitialKeyRole::Server
                            };
                            &&& spec_attempt_merged(
                                p,
                                h,
                                role,
                                now_ms,
                                *old(pending),
                                *final(pending),
                            )
                            &&& match spec_attempt_sni(p, h, role, *final(pending)) {
                                Err(_) => r matches Err(QuicError::TlsError(_)) && final(packet)@
                                    == p,
                                Ok(opt) => {
                                    &&& final(packet)@ == spec_role_unprotected(p, h, role)
                                    &&& match r {
                                        Ok(Some(s)) => opt == Some(s@),
                                        Ok(None) => opt is None,
                                        _ => false,
                                    }
                                },
                            }
                        }
                    }
                },
            }
        }),
{
    let ghost p = packet@;
    let header = match parse_initial_header(packet.as_slice()) {
        Ok(h) => h,
        Err(e) => {
            return Err(e);
        },
    };
    let ghost sh = spec_parse_initial_header(p)->Ok_0;

    let first = attempt_role(
        packet,
        &header,
        pending,
        InitialKeyRole::Client,
        now_ms,
        Ghost(sh),
    );
    match first {
        RoleAttempt::Fail(e) => {
            return Err(e);
        },
        RoleAttempt::Found(sni, upkt) => {
            *packet = upkt;
            return Ok(sni);
        },
        RoleAttempt::Skip => {},
    }

    let second = attempt_role(
        packet,
        &header,
        pending,
        InitialKeyRole::Server,
        now_ms,
        Ghost(sh),
    );
    match second {
        RoleAttempt::Fail(e) => Err(e),
        RoleAttempt::Found(sni, upkt) => {
            *packet = upkt;
            Ok(sni)
        },
        RoleAttempt::Skip => Err(
            QuicError::DecryptionFailed(
                "neither role's keys opened this packet as an Initial".to_owned(),
            ),
        ),
    }
}

/// What one role's decryption attempt produced.
enum RoleAttempt {
    /// The role's keys did not open the packet; try the other role.
    Skip,
    /// A failure that ends the extraction for both roles.
    Fail(QuicError),
    /// The reassembled stream parsed; the server name, if present, and
    /// the unprotected packet bytes.
    Found(Option<Vec<u8>>, Vec<u8>),
}

/// Tries one role: derive keys, unprotect a copy of the packet, check
/// the reserved bits, decrypt, scan frames, merge into the DCID's
/// buffer and parse the reassembled handshake.
#[verifier::rlimit(100)]
#[verifier::spinoff_prover]
fn attempt_role(
    packet: &Vec<u8>,
    header: &crate::quic::parser::InitialHeader,
    pending: &mut PendingCryptoMap,
    role: InitialKeyRole,
    now_ms: u64,
    Ghost(sh): Ghost<SpecInitialHeader>,
) -> (r: RoleAttempt)
    requires
        old(pending).wf(),
        sh.dcid == header.dcid@,
        sh.version == header.version as int,
        sh.payload_len == header.payload_len as int,
        sh.pn_offset == header.pn_offset as int,
        9 <= header.pn_offset <= packet@.len(),
    ensures
        final(pending).wf(),
        match r {
            RoleAttempt::Skip => {
                &&& !spec_role_usable(packet@, sh, role)
                &&& *final(pending) == *old(pending)
                &&& packet@.len() >= sh.pn_offset + 20
            },
            RoleAttempt::Fail(QuicError::PacketTooShort { .. }) => {
                &&& packet@.len() < sh.pn_offset + 20
                &&& *final(pending) == *old(pending)
            },
            RoleAttempt::Fail(QuicError::TlsError(_)) => {
                &&& packet@.len() >= sh.pn_offset + 20
                &&& spec_role_usable(packet@, sh, role)
                &&& spec_attempt_merged(packet@, sh, role, now_ms, *old(pending), *final(pending))
                &&& spec_attempt_sni(packet@, sh, role, *final(pending)) is Err
            },
            RoleAttempt::Fail(_) => false,
            RoleAttempt::Found(sni, upkt) => {
                &&& packet@.len() >= sh.pn_offset + 20
                &&& spec_role_usable(packet@, sh, role)
                &&& spec_attempt_merged(packet@, sh, role, now_ms, *old(pending), *final(pending))
                &&& upkt@ == spec_role_unprotected(packet@, sh, role)
                &&& match spec_attempt_sni(packet@, sh, role, *final(pending)) {
                    Ok(opt) => match sni {
                        Some(s) => opt == Some(s@),
                        None => opt is None,
                    },
                    Err(_) => false,
                }
            },
        },
{
    let stage = unprotect_and_scan(packet, header, role, Ghost(sh));
    let (pkt, frags) = match stage {
        CryptoStage::TooShort(e) => {
            return RoleAttempt::Fail(e);
        },
        CryptoStage::Skip => {
            return RoleAttempt::Skip;
        },
        CryptoStage::Ready(pkt, frags) => (pkt, frags),
    };

    match merge_and_parse(pending, header.dcid.as_slice(), role, now_ms, &frags) {
        Ok(sni) => RoleAttempt::Found(sni, pkt),
        Err(_) => RoleAttempt::Fail(
            QuicError::TlsError("handshake bytes did not parse as a ClientHello".to_owned()),
        ),
    }
}

/// What the cryptographic stage of a role attempt produced.
enum CryptoStage {
    /// The packet is shorter than the header-protection sample needs.
    TooShort(QuicError),
    /// The role's keys did not open the packet.
    Skip,
    /// The unprotected packet and the CRYPTO fragments it carried.
    Ready(Vec<u8>, Vec<CryptoFragment>),
}

/// The cryptographic stage of one role attempt: derive keys, remove
/// header protection from a copy, check the reserved bits, decrypt the
/// payload and scan it for CRYPTO fragments.
#[verifier::rlimit(100)]
#[verifier::spinoff_prover]
fn unprotect_and_scan(
    packet: &Vec<u8>,
    header: &crate::quic::parser::InitialHeader,
    role: InitialKeyRole,
    Ghost(sh): Ghost<SpecInitialHeader>,
) -> (r: CryptoStage)
    requires
        sh.dcid == header.dcid@,
        sh.version == header.version as int,
        sh.payload_len == header.payload_len as int,
        sh.pn_offset == header.pn_offset as int,
        9 <= header.pn_offset <= packet@.len(),
    ensures
        match r {
            CryptoStage::TooShort(e) => packet@.len() < sh.pn_offset + 20 && e matches
                QuicError::PacketTooShort { .. },
            CryptoStage::Skip => !spec_role_usable(packet@, sh, role) && packet@.len()
                >= sh.pn_offset + 20,
            CryptoStage::Ready(upkt, frags) => {
                &&& packet@.len() >= sh.pn_offset + 20
                &&& spec_role_usable(packet@, sh, role)
                &&& upkt@ == spec_role_unprotected(packet@, sh, role)
                &&& frags_view(frags@) == spec_role_frags(packet@, sh, role)->Some_0
                &&& forall|k: int|
                    0 <= k < frags@.len() ==> (#[trigger] frags@[k]).offset
                        + frags@[k].data@.len() <= u64::MAX
            },
        },
{
    let ghost p = packet@;
    let keys = match derive_initial_keys_for_role(header.dcid.as_slice(), header.version, role) {
        Ok(k) => k,
        Err(_) => {
            return CryptoStage::Skip;
        },
    };
    let mut pkt = clone_bytes(packet);
    let (unprotected_first, packet_number, pn_len) = match remove_header_protection(
        &mut pkt,
        header.pn_offset,
        &keys,
    ) {
        Ok(x) => x,
        Err(e) => {
            return CryptoStage::TooShort(e);
        },
    };
    proof {
        assert(keys.hp_key@ == spec_initial_hp(sh.dcid, sh.version as u32, role));
        assert(pkt@ == spec_role_unprotected(p, sh, role));
        assert(unprotected_first == spec_role_fb(p, sh, role));
    }

    let reserved_nonzero = (unprotected_first & 0x0c) != 0;
    if reserved_nonzero {
        return CryptoStage::Skip;
    }

    let plain = match decrypt_initial_payload(
        pkt.as_slice(),
        header.pn_offset,
        header.payload_len,
        pn_len,
        packet_number,
        keys.key.as_slice(),
        keys.iv.as_slice(),
    ) {
        Ok(v) => v,
        Err(_) => {
            return CryptoStage::Skip;
        },
    };
    proof {
        assert(spec_role_plain(p, sh, role) == Ok::<Seq<u8>, SpecDecryptError>(plain@));
    }

    let frags = match scan_crypto_frames(plain.as_slice()) {
        Ok(f) => f,
        Err(_) => {
            return CryptoStage::Skip;
        },
    };
    if frags.len() == 0 {
        return CryptoStage::Skip;
    }
    proof {
        assert(frags_view(frags@) == spec_role_frags(p, sh, role)->Some_0);
    }
    if !frag_ends_fit(&frags) {
        proof {
            let f = spec_role_frags(p, sh, role)->Some_0;
            let t = choose|t: int|
                0 <= t < frags@.len() && (#[trigger] frags@[t]).offset + frags@[t].data@.len()
                    > u64::MAX;
            assert(f[t].0 + f[t].1.len() > u64::MAX);
            assert(!spec_role_usable(p, sh, role));
        }
        return CryptoStage::Skip;
    }
    proof {
        assert(spec_role_usable(p, sh, role));
    }
    CryptoStage::Ready(pkt, frags)
}

/// Whether every fragment's end offset is representable in a `u64`.
fn frag_ends_fit(frags: &Vec<CryptoFragment>) -> (r: bool)
    ensures
        r == (forall|t: int|
            0 <= t < frags@.len() ==> (#[trigger] frags@[t]).offset + frags@[t].data@.len()
                <= u64::MAX),
{
    let mut k: usize = 0;
    while k < frags.len()
        invariant
            k <= frags@.len(),
            forall|t: int|
                0 <= t < k ==> (#[trigger] frags@[t]).offset + frags@[t].data@.len() <= u64::MAX,
        decreases frags@.len() - k,
    {
        if frags[k].data.len() as u64 > u64::MAX - frags[k].offset {
            proof {
                assert(frags@[k as int].offset + frags@[k as int].data@.len() > u64::MAX);
            }
            return false;
        }
        k = k + 1;
    }
    true
}

/// Whether the pending map went from `before` to `after` by merging
/// exactly `added` for this role and DCID.
pub open spec fn spec_merged_into(
    dcid: Seq<u8>,
    role: InitialKeyRole,
    now_ms: u64,
    added: Seq<(u64, Seq<u8>)>,
    before: PendingCryptoMap,
    after: PendingCryptoMap,
) -> bool {
    exists|j: int|
        {
            let e = #[trigger] after.entries@[j];
            &&& 0 <= j < after.entries@.len()
            &&& e.0@ == dcid
            &&& e.1.role == role
            &&& e.1.last_update == now_ms
            &&& frags_view(e.1.fragments@).to_set() == spec_merge_fragments(
                spec_base_set(before, dcid, role, now_ms),
                added,
            )
        }
}

/// The SNI parse of the stream buffered for this DCID.
pub open spec fn spec_pending_sni(dcid: Seq<u8>, after: PendingCryptoMap) -> Result<
    Option<Seq<u8>>,
    crate::tls::sni::SniError,
> {
    let j = choose|j: int|
        0 <= j < after.entries@.len() && (#[trigger] after.entries@[j]).0@ == dcid;
    spec_extract_sni(spec_assemble(frags_view(after.entries@[j].1.fragments@)))
}

/// Whether the pending map went from `before` to `after` by merging
/// exactly this packet's fragments for this role and DCID.
pub open spec fn spec_attempt_merged(
    p: Seq<u8>,
    sh: SpecInitialHeader,
    role: InitialKeyRole,
    now_ms: u64,
    before: PendingCryptoMap,
    after: PendingCryptoMap,
) -> bool {
    spec_merged_into(sh.dcid, role, now_ms, spec_role_frags(p, sh, role)->Some_0, before, after)
}

/// The result of parsing the stream reassembled for this DCID after the
/// merge: what the whole extraction hands back on this role.
pub open spec fn spec_attempt_sni(
    p: Seq<u8>,
    sh: SpecInitialHeader,
    role: InitialKeyRole,
    after: PendingCryptoMap,
) -> Result<Option<Seq<u8>>, crate::tls::sni::SniError> {
    spec_pending_sni(sh.dcid, after)
}

/// Merges one packet's fragments for a DCID and parses the reassembled
/// stream for its server name.
fn merge_and_parse(
    pending: &mut PendingCryptoMap,
    dcid: &[u8],
    role: InitialKeyRole,
    now_ms: u64,
    frags: &Vec<CryptoFragment>,
) -> (r: Result<Option<Vec<u8>>, crate::tls::sni::SniError>)
    requires
        old(pending).wf(),
        forall|k: int|
            0 <= k < frags@.len() ==> (#[trigger] frags@[k]).offset + frags@[k].data@.len()
                <= u64::MAX,
    ensures
        final(pending).wf(),
        spec_merged_into(dcid@, role, now_ms, frags_view(frags@), *old(pending), *final(pending)),
        match r {
            Ok(opt) => spec_pending_sni(dcid@, *final(pending)) == Ok::<
                Option<Seq<u8>>,
                crate::tls::sni::SniError,
            >(
                match opt {
                    Some(s) => Some(s@),
                    None => None,
                },
            ),
            Err(_) => spec_pending_sni(dcid@, *final(pending)) is Err,
        },
{
    let crypto_data = pending.merge_and_assemble(dcid, role, now_ms, frags);
    proof {
        let j0 = choose|j: int|
            {
                let e = #[trigger] pending.entries@[j];
                &&& 0 <= j < pending.entries@.len()
                &&& e.0@ == dcid@
                &&& e.1.role == role
                &&& e.1.last_update == now_ms
                &&& frags_view(e.1.fragments@).to_set() == spec_merge_fragments(
                    spec_base_set(*old(pending), dcid@, role, now_ms),
                    frags_view(frags@),
                )
                &&& crypto_data@ == spec_assemble(frags_view(e.1.fragments@))
            };
        let jc = choose|j: int|
            0 <= j < pending.entries@.len() && (#[trigger] pending.entries@[j]).0@ == dcid@;
        if jc != j0 {
            assert((pending.entries@[jc]).0@ != (pending.entries@[j0]).0@);
        }
        assert(crypto_data@ == spec_assemble(frags_view(pending.entries@[jc].1.fragments@)));
    }
    extract_sni(crypto_data.as_slice())
}

} // verus!
