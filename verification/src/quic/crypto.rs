//! Initial key schedule for QUIC: HKDF-Extract and HKDF-Expand-Label
//! over SHA-256, deriving the AEAD key, IV and header-protection key
//! from a packet's Destination Connection ID.

use vstd::prelude::*;

use crate::quic::error::QuicError;

verus! {

/// The HMAC-SHA-256 tag over `data` under `key`.  The tag is a function
/// of the key and the data alone; its value is not stated here.
pub uninterp spec fn hmac_sha256_of(key: Seq<u8>, data: Seq<u8>) -> Seq<u8>;

/// Relies on ring::hmac::sign with HMAC_SHA256: the 32-byte tag depends
/// only on the key and the message (RFC 2104); keys of any length are
/// accepted.
#[verifier::external_body]
fn hmac_sha256(key: &[u8], data: &[u8]) -> (r: Vec<u8>)
    ensures
        r@ == hmac_sha256_of(key@, data@),
        r@.len() == 32,
{
    let k = ring::hmac::Key::new(ring::hmac::HMAC_SHA256, key);
    let tag = ring::hmac::sign(&k, data);
    tag.as_ref().to_vec()
}

/// HKDF-Extract (RFC 5869): exactly one HMAC of the keying material
/// under the salt.
pub open spec fn spec_hkdf_extract(salt: Seq<u8>, ikm: Seq<u8>) -> Seq<u8> {
    hmac_sha256_of(salt, ikm)
}

/// HKDF-Expand (RFC 5869) for outputs of at most one hash block: the
/// first output block is HMAC(prk, info || 0x01), truncated to `len`.
pub open spec fn spec_hkdf_expand1(prk: Seq<u8>, info: Seq<u8>, len: int) -> Seq<u8>
    recommends
        0 <= len <= 32,
{
    hmac_sha256_of(prk, info.push(1)).take(len)
}

/// HKDF-Extract as executable code.
pub fn hkdf_extract(salt: &[u8], ikm: &[u8]) -> (r: Vec<u8>)
    ensures
        r@ == spec_hkdf_extract(salt@, ikm@),
        r@.len() == 32,
{
    hmac_sha256(salt, ikm)
}

/// HKDF-Expand as executable code, limited to a single output block,
/// which covers every length the QUIC initial schedule asks for.
pub fn hkdf_expand_one(prk: &[u8], info: &[u8], len: usize) -> (r: Vec<u8>)
    requires
        len <= 32,
    ensures
        r@ == spec_hkdf_expand1(prk@, info@, len as int),
        r@.len() == len,
{
    let mut msg = vstd::slice::slice_to_vec(info);
    msg.push(1u8);
    let mut t = hmac_sha256(prk, msg.as_slice());
    t.truncate(len);
    proof {
        assert(t@ =~= spec_hkdf_expand1(prk@, info@, len as int));
    }
    t
}

/// The bytes of the ASCII string "tls13 ", the label prefix of RFC 8446.
pub open spec fn spec_tls13_prefix() -> Seq<u8> {
    seq![0x74u8, 0x6cu8, 0x73u8, 0x31u8, 0x33u8, 0x20u8]
}

/// The serialized HkdfLabel structure of RFC 8446: two-byte big-endian
/// output length, one-byte-prefixed full label, one-byte-prefixed context.
pub open spec fn spec_label_serialized(length: int, full_label: Seq<u8>, context: Seq<u8>) -> Seq<
    u8,
>
    recommends
        0 <= length < 0x10000,
        full_label.len() < 0x100,
        context.len() < 0x100,
{
    seq![(length / 0x100) as u8, (length % 0x100) as u8, full_label.len() as u8] + full_label
        + seq![context.len() as u8] + context
}

/// The info input to HKDF-Expand-Label: the serialized label structure
/// with "tls13 " prepended to the label.
pub open spec fn spec_expand_label_info(length: int, label: Seq<u8>, context: Seq<u8>) -> Seq<u8> {
    spec_label_serialized(length, spec_tls13_prefix() + label, context)
}

/// HKDF-Expand-Label (RFC 8446) for one-block outputs.
pub open spec fn spec_hkdf_expand_label(
    secret: Seq<u8>,
    label: Seq<u8>,
    context: Seq<u8>,
    len: int,
) -> Seq<u8> {
    spec_hkdf_expand1(secret, spec_expand_label_info(len, label, context), len)
}

/// The HkdfLabel structure of RFC 8446: output length, label with its
/// "tls13 " prefix already attached, and context.
pub struct HkdfLabel {
    pub length: u16,
    pub label: Vec<u8>,
    pub context: Vec<u8>,
}

impl HkdfLabel {
    /// Builds the label structure, prepending "tls13 " to `label`.
    pub fn new(length: usize, label: &[u8], context: &[u8]) -> (r: HkdfLabel)
        requires
            length < 0x10000,
            label@.len() + 6 < 0x100,
            context@.len() < 0x100,
        ensures
            r.length == length,
            r.label@ == spec_tls13_prefix() + label@,
            r.context@ == context@,
    {
        // "tls13 "
        let mut full_label: Vec<u8> = Vec::new();
        full_label.push(0x74);
        full_label.push(0x6c);
        full_label.push(0x73);
        full_label.push(0x31);
        full_label.push(0x33);
        full_label.push(0x20);
        let mut rest = vstd::slice::slice_to_vec(label);
        full_label.append(&mut rest);
        proof {
            assert(full_label@ =~= spec_tls13_prefix() + label@);
        }
        HkdfLabel { length: length as u16, label: full_label, context: vstd::slice::slice_to_vec(context) }
    }

    /// Serializes the structure into the info bytes HKDF-Expand consumes.
    pub fn as_bytes(&self) -> (r: Vec<u8>)
        requires
            self.label@.len() < 0x100,
            self.context@.len() < 0x100,
        ensures
            r@ == spec_label_serialized(self.length as int, self.label@, self.context@),
    {
        let mut bytes: Vec<u8> = Vec::new();
        bytes.push((self.length / 0x100) as u8);
        bytes.push((self.length % 0x100) as u8);
        bytes.push(self.label.len() as u8);
        let mut label_copy = vstd::slice::slice_to_vec(self.label.as_slice());
        bytes.append(&mut label_copy);
        bytes.push(self.context.len() as u8);
        let mut context_copy = vstd::slice::slice_to_vec(self.context.as_slice());
        bytes.append(&mut context_copy);
        proof {
            assert(bytes@ =~= spec_label_serialized(
                self.length as int,
                self.label@,
                self.context@,
            ));
        }
        bytes
    }
}

/// HKDF-Expand-Label as executable code.
pub fn hkdf_expand_label(secret: &[u8], label: &[u8], context: &[u8], length: usize) -> (r: Vec<
    u8,
>)
    requires
        length <= 32,
        label@.len() + 6 < 0x100,
        context@.len() < 0x100,
    ensures
        r@ == spec_hkdf_expand_label(secret@, label@, context@, length as int),
        r@.len() == length,
{
    let hkdf_label = HkdfLabel::new(length, label, context);
    let info = hkdf_label.as_bytes();
    hkdf_expand_one(secret, info.as_slice(), length)
}

/// Which endpoint's initial secret to derive: the label is "client in"
/// for the client role and "server in" for the server role.
#[derive(Debug, Clone, Copy, PartialEq, Eq, Structural)]
pub enum InitialKeyRole {
    Client,
    Server,
}

/// The three secrets that protect a QUIC Initial packet: the AEAD key
/// (16 bytes for AES-128-GCM), the IV (12 bytes) and the
/// header-protection key (16 bytes).
#[derive(Debug, Clone)]
pub struct InitialKeys {
    pub key: Vec<u8>,
    pub iv: Vec<u8>,
    pub hp_key: Vec<u8>,
}

/// The QUIC v1 initial salt (RFC 9001).
pub open spec fn spec_initial_salt_v1() -> Seq<u8> {
    seq![
        0x38u8, 0x76u8, 0x2cu8, 0xf7u8, 0xf5u8, 0x59u8, 0x34u8, 0xb3u8, 0x4du8, 0x17u8, 0x9au8,
        0xe6u8, 0xa4u8, 0xc8u8, 0x0cu8, 0xadu8, 0xccu8, 0xbbu8, 0x7fu8, 0x0au8,
    ]
}

/// The QUIC v2 initial salt.
pub open spec fn spec_initial_salt_v2() -> Seq<u8> {
    seq![
        0x0du8, 0xedu8, 0xe3u8, 0xdeu8, 0xf7u8, 0x00u8, 0xa6u8, 0xdbu8, 0x81u8, 0x93u8, 0x81u8,
        0xbeu8, 0x6eu8, 0x26u8, 0x9du8, 0xcbu8, 0xf9u8, 0xbdu8, 0x2eu8, 0xd9u8,
    ]
}

/// The salt chosen for a version: the v2 salt for the two v2 version
/// numbers, the v1 salt for v1 and for every unknown version.
pub open spec fn spec_initial_salt(version: u32) -> Seq<u8> {
    if version == 0x6b3343cf || version == 0x709a50c4 {
        spec_initial_salt_v2()
    } else {
        spec_initial_salt_v1()
    }
}

/// Bytes of the role label: "client in" or "server in".
pub open spec fn spec_role_label(role: InitialKeyRole) -> Seq<u8> {
    match role {
        InitialKeyRole::Client => seq![
            0x63u8, 0x6cu8, 0x69u8, 0x65u8, 0x6eu8, 0x74u8, 0x20u8, 0x69u8, 0x6eu8,
        ],
        InitialKeyRole::Server => seq![
            0x73u8, 0x65u8, 0x72u8, 0x76u8, 0x65u8, 0x72u8, 0x20u8, 0x69u8, 0x6eu8,
        ],
    }
}

/// Bytes of the key label: "quicv2 key" for the final v2 version number,
/// "quic key" otherwise.
pub open spec fn spec_label_quic_key(version: u32) -> Seq<u8> {
    if version == 0x6b3343cf {
        seq![0x71u8, 0x75u8, 0x69u8, 0x63u8, 0x76u8, 0x32u8, 0x20u8, 0x6bu8, 0x65u8, 0x79u8]
    } else {
        seq![0x71u8, 0x75u8, 0x69u8, 0x63u8, 0x20u8, 0x6bu8, 0x65u8, 0x79u8]
    }
}

/// Bytes of the IV label: "quicv2 iv" or "quic iv".
pub open spec fn spec_label_quic_iv(version: u32) -> Seq<u8> {
    if version == 0x6b3343cf {
        seq![0x71u8, 0x75u8, 0x69u8, 0x63u8, 0x76u8, 0x32u8, 0x20u8, 0x69u8, 0x76u8]
    } else {
        seq![0x71u8, 0x75u8, 0x69u8, 0x63u8, 0x20u8, 0x69u8, 0x76u8]
    }
}

/// Bytes of the header-protection label: "quicv2 hp" or "quic hp".
pub open spec fn spec_label_quic_hp(version: u32) -> Seq<u8> {
    if version == 0x6b3343cf {
        seq![0x71u8, 0x75u8, 0x69u8, 0x63u8, 0x76u8, 0x32u8, 0x20u8, 0x68u8, 0x70u8]
    } else {
        seq![0x71u8, 0x75u8, 0x69u8, 0x63u8, 0x20u8, 0x68u8, 0x70u8]
    }
}

/// The initial secret: HKDF-Extract of the DCID under the version's salt.
pub open spec fn spec_initial_secret(dcid: Seq<u8>, version: u32) -> Seq<u8> {
    spec_hkdf_extract(spec_initial_salt(version), dcid)
}

/// The role's secret: the initial secret expanded under the role label.
pub open spec fn spec_role_secret(dcid: Seq<u8>, version: u32, role: InitialKeyRole) -> Seq<u8> {
    spec_hkdf_expand_label(spec_initial_secret(dcid, version), spec_role_label(role), seq![], 32)
}

/// The AEAD key for (dcid, version, role).
pub open spec fn spec_initial_key(dcid: Seq<u8>, version: u32, role: InitialKeyRole) -> Seq<u8> {
    spec_hkdf_expand_label(
        spec_role_secret(dcid, version, role),
        spec_label_quic_key(version),
        seq![],
        16,
    )
}

/// The AEAD IV for (dcid, version, role).
pub open spec fn spec_initial_iv(dcid: Seq<u8>, version: u32, role: InitialKeyRole) -> Seq<u8> {
    spec_hkdf_expand_label(
        spec_role_secret(dcid, version, role),
        spec_label_quic_iv(version),
        seq![],
        12,
    )
}

/// The header-protection key for (dcid, version, role).
pub open spec fn spec_initial_hp(dcid: Seq<u8>, version: u32, role: InitialKeyRole) -> Seq<u8> {
    spec_hkdf_expand_label(
        spec_role_secret(dcid, version, role),
        spec_label_quic_hp(version),
        seq![],
        16,
    )
}

/// Whether a key set is exactly the one the schedule derives for
/// (dcid, version, role).
pub open spec fn spec_keys_for(
    keys: InitialKeys,
    dcid: Seq<u8>,
    version: u32,
    role: InitialKeyRole,
) -> bool {
    &&& keys.key@ == spec_initial_key(dcid, version, role)
    &&& keys.iv@ == spec_initial_iv(dcid, version, role)
    &&& keys.hp_key@ == spec_initial_hp(dcid, version, role)
    &&& keys.key@.len() == 16
    &&& keys.iv@.len() == 12
    &&& keys.hp_key@.len() == 16
}

/// Builds the version's initial salt.
fn initial_salt(version: u32) -> (r: Vec<u8>)
    ensures
        r@ == spec_initial_salt(version),
        r@.len() == 20,
{
    let mut s: Vec<u8> = Vec::new();
    if version == 0x6b3343cf || version == 0x709a50c4 {
        s.push(0x0d);
        s.push(0xed);
        s.push(0xe3);
        s.push(0xde);
        s.push(0xf7);
        s.push(0x00);
        s.push(0xa6);
        s.push(0xdb);
        s.push(0x81);
        s.push(0x93);
        s.push(0x81);
        s.push(0xbe);
        s.push(0x6e);
        s.push(0x26);
        s.push(0x9d);
        s.push(0xcb);
        s.push(0xf9);
        s.push(0xbd);
        s.push(0x2e);
        s.push(0xd9);
        proof {
            assert(s@ =~= spec_initial_salt_v2());
        }
    } else {
        s.push(0x38);
        s.push(0x76);
        s.push(0x2c);
        s.push(0xf7);
        s.push(0xf5);
        s.push(0x59);
        s.push(0x34);
        s.push(0xb3);
        s.push(0x4d);
        s.push(0x17);
        s.push(0x9a);
        s.push(0xe6);
        s.push(0xa4);
        s.push(0xc8);
        s.push(0x0c);
        s.push(0xad);
        s.push(0xcc);
        s.push(0xbb);
        s.push(0x7f);
        s.push(0x0a);
        proof {
            assert(s@ =~= spec_initial_salt_v1());
        }
    }
    s
}

/// Builds the role label bytes: "client in" or "server in".
fn role_label(role: InitialKeyRole) -> (r: Vec<u8>)
    ensures
        r@ == spec_role_label(role),
        r@.len() == 9,
{
    let mut s: Vec<u8> = Vec::new();
    match role {
        InitialKeyRole::Client => {
            s.push(0x63);
            s.push(0x6c);
            s.push(0x69);
            s.push(0x65);
            s.push(0x6e);
            s.push(0x74);
            s.push(0x20);
            s.push(0x69);
            s.push(0x6e);
            proof {
                assert(s@ =~= spec_role_label(InitialKeyRole::Client));
            }
        },
        InitialKeyRole::Server => {
            s.push(0x73);
            s.push(0x65);
            s.push(0x72);
            s.push(0x76);
            s.push(0x65);
            s.push(0x72);
            s.push(0x20);
            s.push(0x69);
            s.push(0x6e);
            proof {
                assert(s@ =~= spec_role_label(InitialKeyRole::Server));
            }
        },
    }
    s
}

/// Builds the AEAD key label for the version: "quic key" or "quicv2 key".
pub fn label_quic_key(version: u32) -> (r: Vec<u8>)
    ensures
        r@ == spec_label_quic_key(version),
        r@.len() <= 10,
{
    let mut s: Vec<u8> = Vec::new();
    s.push(0x71);
    s.push(0x75);
    s.push(0x69);
    s.push(0x63);
    if version == 0x6b3343cf {
        s.push(0x76);
        s.push(0x32);
    }
    s.push(0x20);
    s.push(0x6b);
    s.push(0x65);
    s.push(0x79);
    proof {
        assert(s@ =~= spec_label_quic_key(version));
    }
    s
}

/// Builds the IV label for the version: "quic iv" or "quicv2 iv".
pub fn label_quic_iv(version: u32) -> (r: Vec<u8>)
    ensures
        r@ == spec_label_quic_iv(version),
        r@.len() <= 9,
{
    let mut s: Vec<u8> = Vec::new();
    s.push(0x71);
    s.push(0x75);
    s.push(0x69);
    s.push(0x63);
    if version == 0x6b3343cf {
        s.push(0x76);
        s.push(0x32);
    }
    s.push(0x20);
    s.push(0x69);
    s.push(0x76);
    proof {
        assert(s@ =~= spec_label_quic_iv(version));
    }
    s
}

/// Builds the header-protection label for the version: "quic hp" or
/// "quicv2 hp".
pub fn label_quic_hp(version: u32) -> (r: Vec<u8>)
    ensures
        r@ == spec_label_quic_hp(version),
        r@.len() <= 9,
{
    let mut s: Vec<u8> = Vec::new();
    s.push(0x71);
    s.push(0x75);
    s.push(0x69);
    s.push(0x63);
    if version == 0x6b3343cf {
        s.push(0x76);
        s.push(0x32);
    }
    s.push(0x20);
    s.push(0x68);
    s.push(0x70);
    proof {
        assert(s@ =~= spec_label_quic_hp(version));
    }
    s
}

/// Derives the initial keys for the given role.  Succeeds on every
/// input: any DCID length and any version are accepted, unknown
/// versions falling back to the v1 salt.
pub fn derive_initial_keys_for_role(dcid: &[u8], version: u32, role: InitialKeyRole) -> (r: Result<
    InitialKeys,
    QuicError,
>)
    ensures
        r matches Ok(keys) && spec_keys_for(keys, dcid@, version, role),
{
    let salt = initial_salt(version);
    let initial_secret = hkdf_extract(salt.as_slice(), dcid);

    let rl = role_label(role);
    let role_secret = hkdf_expand_label(
        initial_secret.as_slice(),
        rl.as_slice(),
        &[],
        32,
    );

    let key_label = label_quic_key(version);
    let key = hkdf_expand_label(role_secret.as_slice(), key_label.as_slice(), &[], 16);

    let iv_label = label_quic_iv(version);
    let iv = hkdf_expand_label(role_secret.as_slice(), iv_label.as_slice(), &[], 12);

    let hp_label = label_quic_hp(version);
    let hp_key = hkdf_expand_label(role_secret.as_slice(), hp_label.as_slice(), &[], 16);

    Ok(InitialKeys { key, iv, hp_key })
}

/// Derives the client-role initial keys, the direction a proxy in front
/// of a client sees first.
pub fn derive_initial_keys(dcid: &[u8], version: u32) -> (r: Result<InitialKeys, QuicError>)
    ensures
        r matches Ok(keys) && spec_keys_for(keys, dcid@, version, InitialKeyRole::Client),
{
    derive_initial_keys_for_role(dcid, version, InitialKeyRole::Client)
}

/// Key derivation is deterministic: two derivations from equal inputs
/// yield identical key, IV and header-protection bytes.
pub proof fn lemma_derive_keys_deterministic(
    k1: InitialKeys,
    k2: InitialKeys,
    dcid: Seq<u8>,
    version: u32,
    role: InitialKeyRole,
)
    requires
        spec_keys_for(k1, dcid, version, role),
        spec_keys_for(k2, dcid, version, role),
    ensures
        k1.key@ == k2.key@,
        k1.iv@ == k2.iv@,
        k1.hp_key@ == k2.hp_key@,
{
}

} // verus!
