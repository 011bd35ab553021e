//! ClientHello parsing: walks a TLS handshake message, finds the
//! server_name extension and returns the host name it carries.

use vstd::prelude::*;

verus! {

/// Why SNI extraction failed.
#[derive(Debug, Clone, Copy, PartialEq, Eq, Structural)]
pub enum SniError {
    DataTooShort,
    NotHandshake,
    NotClientHello,
    InvalidExtension,
    InvalidHostname,
    SniNotFound,
}

/// Big-endian 16-bit value read at index `i`.
pub open spec fn spec_be16(p: Seq<u8>, i: int) -> int
    recommends
        0 <= i,
        i + 2 <= p.len(),
{
    p[i] * 0x100 + p[i + 1]
}

/// Whether a byte may appear in a hostname: ASCII letters, digits,
/// dot and hyphen.
pub open spec fn spec_hostname_byte(b: u8) -> bool {
    (0x30 <= b <= 0x39) || (0x41 <= b <= 0x5a) || (0x61 <= b <= 0x7a) || b == 0x2e || b == 0x2d
}

/// A valid hostname: non-empty, at most 253 bytes, hostname bytes only.
pub open spec fn spec_valid_hostname(s: Seq<u8>) -> bool {
    &&& 1 <= s.len() <= 253
    &&& forall|i: int| 0 <= i < s.len() ==> spec_hostname_byte(#[trigger] s[i])
}

/// Checks a hostname byte-by-byte.
pub fn is_valid_hostname(host: &[u8]) -> (r: bool)
    ensures
        r == spec_valid_hostname(host@),
{
    if host.len() == 0 || host.len() > 253 {
        return false;
    }
    let mut i: usize = 0;
    while i < host.len()
        invariant
            i <= host@.len(),
            forall|j: int| 0 <= j < i ==> spec_hostname_byte(#[trigger] host@[j]),
        decreases host@.len() - i,
    {
        let b = host[i];
        let ok = (0x30 <= b && b <= 0x39) || (0x41 <= b && b <= 0x5a) || (0x61 <= b && b <= 0x7a)
            || b == 0x2e || b == 0x2d;
        if !ok {
            return false;
        }
        i = i + 1;
    }
    true
}

/// The meaning of server_name-extension parsing: the extension carries
/// a length-prefixed list whose first entry must be of type host_name,
/// and the name must be a valid hostname.
pub open spec fn spec_parse_sni_extension(d: Seq<u8>) -> Result<Seq<u8>, SniError> {
    if d.len() < 2 {
        Err(SniError::InvalidExtension)
    } else {
        let list_len = spec_be16(d, 0);
        if d.len() < 2 + list_len {
            Err(SniError::InvalidExtension)
        } else if d.len() < 5 {
            Err(SniError::InvalidExtension)
        } else if d[2] != 0 {
            Err(SniError::InvalidHostname)
        } else {
            let name_len = spec_be16(d, 3);
            if 5 + name_len > d.len() {
                Err(SniError::InvalidExtension)
            } else {
                let host = d.subrange(5, 5 + name_len);
                if !spec_valid_hostname(host) {
                    Err(SniError::InvalidHostname)
                } else {
                    Ok(host)
                }
            }
        }
    }
}

/// Parses the body of a server_name extension.
pub fn parse_sni_extension(data: &[u8]) -> (r: Result<Vec<u8>, SniError>)
    ensures
        match r {
            Ok(h) => spec_parse_sni_extension(data@) == Ok::<Seq<u8>, SniError>(h@),
            Err(e) => spec_parse_sni_extension(data@) == Err::<Seq<u8>, SniError>(e),
        },
{
    if data.len() < 2 {
        return Err(SniError::InvalidExtension);
    }
    let list_len = (data[0] as usize) * 0x100 + (data[1] as usize);
    if data.len() < 2 || data.len() - 2 < list_len {
        return Err(SniError::InvalidExtension);
    }
    if data.len() < 5 {
        return Err(SniError::InvalidExtension);
    }
    if data[2] != 0 {
        return Err(SniError::InvalidHostname);
    }
    let name_len = (data[3] as usize) * 0x100 + (data[4] as usize);
    if data.len() - 5 < name_len {
        return Err(SniError::InvalidExtension);
    }
    let host = vstd::slice::slice_subrange(data, 5, 5 + name_len);
    if !is_valid_hostname(host) {
        return Err(SniError::InvalidHostname);
    }
    Ok(vstd::slice::slice_to_vec(host))
}

/// One step of the extension walk: skip extensions until the
/// server_name extension (type 0) is found; a truncated extension
/// header ends the walk without a name; a body that overruns the
/// ClientHello is an error.
pub open spec fn spec_scan_extensions(ch: Seq<u8>, offset: int, ext_end: int) -> Result<
    Option<Seq<u8>>,
    SniError,
>
    decreases ext_end - offset,
{
    if offset >= ext_end {
        Ok(None)
    } else if offset + 4 > ch.len() {
        Ok(None)
    } else {
        let ext_type = spec_be16(ch, offset);
        let ext_len = spec_be16(ch, offset + 2);
        if offset + 4 + ext_len > ch.len() {
            Err(SniError::InvalidExtension)
        } else if ext_type == 0 {
            match spec_parse_sni_extension(ch.subrange(offset + 4, offset + 4 + ext_len)) {
                Ok(h) => Ok(Some(h)),
                Err(e) => Err(e),
            }
        } else {
            let next = offset + 4 + ext_len;
            if next >= ext_end {
                Ok(None)
            } else {
                spec_scan_extensions(ch, next, ext_end)
            }
        }
    }
}

/// The meaning of SNI extraction from either a TLS record or bare
/// handshake bytes: unwrap the record layer if present, check for a
/// ClientHello, skip its fixed and variable-length fields, then walk
/// the extensions.
pub open spec fn spec_extract_sni(d: Seq<u8>) -> Result<Option<Seq<u8>>, SniError> {
    let payload = if d.len() >= 1 && d[0] == 0x16 {
        if d.len() < 5 {
            Err(SniError::DataTooShort)
        } else {
            let record_len = spec_be16(d, 3);
            if d.len() < 5 + record_len {
                Err(SniError::DataTooShort)
            } else {
                Ok(d.subrange(5, 5 + record_len))
            }
        }
    } else {
        Ok(d)
    };
    match payload {
        Err(e) => Err(e),
        Ok(pl) => {
            if pl.len() < 4 {
                Err(SniError::DataTooShort)
            } else if pl[0] != 0x01 {
                Err(SniError::NotHandshake)
            } else {
                let hs_len = pl[1] * 0x10000 + pl[2] * 0x100 + pl[3];
                if pl.len() < 4 + hs_len {
                    Err(SniError::DataTooShort)
                } else {
                    let ch = pl.subrange(4, 4 + hs_len);
                    if ch.len() < 38 {
                        Err(SniError::DataTooShort)
                    } else {
                        let sil = ch[34] as int;
                        let o1 = 35 + sil;
                        if o1 + 1 >= ch.len() {
                            Ok(None)
                        } else {
                            let o2 = o1 + 2 + spec_be16(ch, o1);
                            if o2 >= ch.len() {
                                Ok(None)
                            } else {
                                let o3 = o2 + 1 + ch[o2];
                                if o3 + 2 > ch.len() {
                                    Ok(None)
                                } else {
                                    let ext_len = spec_be16(ch, o3);
                                    let o4 = o3 + 2;
                                    if o4 + ext_len > ch.len() {
                                        Err(SniError::InvalidExtension)
                                    } else {
                                        spec_scan_extensions(ch, o4, o4 + ext_len)
                                    }
                                }
                            }
                        }
                    }
                }
            }
        },
    }
}

/// Extracts the SNI host name from a ClientHello, given either as a
/// TLS record or as bare handshake bytes.  `Ok(None)` means the
/// ClientHello is well-formed but carries no server name.
pub fn extract_sni(data: &[u8]) -> (r: Result<Option<Vec<u8>>, SniError>)
    ensures
        match r {
            Ok(Some(h)) => spec_extract_sni(data@) == Ok::<Option<Seq<u8>>, SniError>(
                Some(h@),
            ),
            Ok(None) => spec_extract_sni(data@) == Ok::<Option<Seq<u8>>, SniError>(None),
            Err(e) => spec_extract_sni(data@) == Err::<Option<Seq<u8>>, SniError>(e),
        },
{
    let payload: &[u8] = if data.len() >= 1 && data[0] == 0x16 {
        if data.len() < 5 {
            return Err(SniError::DataTooShort);
        }
        let record_len = (data[3] as usize) * 0x100 + (data[4] as usize);
        if data.len() - 5 < record_len {
            return Err(SniError::DataTooShort);
        }
        vstd::slice::slice_subrange(data, 5, 5 + record_len)
    } else {
        data
    };

    if payload.len() < 4 {
        return Err(SniError::DataTooShort);
    }
    if payload[0] != 0x01 {
        return Err(SniError::NotHandshake);
    }
    let hs_len = (payload[1] as usize) * 0x10000 + (payload[2] as usize) * 0x100 + (
    payload[3] as usize);
    if payload.len() - 4 < hs_len {
        return Err(SniError::DataTooShort);
    }
    let ch = vstd::slice::slice_subrange(payload, 4, 4 + hs_len);
    if ch.len() < 38 {
        return Err(SniError::DataTooShort);
    }

    let sil = ch[34] as usize;
    let o1 = 35 + sil;
    if o1 + 1 >= ch.len() {
        return Ok(None);
    }
    let cs_len = (ch[o1] as usize) * 0x100 + (ch[o1 + 1] as usize);
    let o2 = o1 + 2 + cs_len;
    if o2 >= ch.len() {
        return Ok(None);
    }
    let comp_len = ch[o2] as usize;
    let o3 = o2 + 1 + comp_len;
    if o3 + 2 > ch.len() {
        return Ok(None);
    }
    let ext_len = (ch[o3] as usize) * 0x100 + (ch[o3 + 1] as usize);
    let o4 = o3 + 2;
    if ch.len() - o4 < ext_len {
        return Err(SniError::InvalidExtension);
    }
    let ext_end = o4 + ext_len;
    proof {
        assert(spec_extract_sni(data@) == spec_scan_extensions(ch@, o4 as int, ext_end as int));
    }

    let mut offset = o4;
    while offset < ext_end
        invariant
            o4 <= offset,
            ext_end <= ch@.len(),
            ch@.len() < 0x1000000,
            spec_extract_sni(data@) == spec_scan_extensions(ch@, offset as int, ext_end as int),
        decreases (if offset < ext_end {
            ext_end - offset
        } else {
            0int
        }),
    {
        if offset + 4 > ch.len() {
            return Ok(None);
        }
        let ext_type = (ch[offset] as usize) * 0x100 + (ch[offset + 1] as usize);
        let this_ext_len = (ch[offset + 2] as usize) * 0x100 + (ch[offset + 3] as usize);
        if ch.len() - offset - 4 < this_ext_len {
            return Err(SniError::InvalidExtension);
        }
        if ext_type == 0 {
            let body = vstd::slice::slice_subrange(ch, offset + 4, offset + 4 + this_ext_len);
            match parse_sni_extension(body) {
                Ok(h) => {
                    return Ok(Some(h));
                },
                Err(e) => {
                    return Err(e);
                },
            }
        }
        offset = offset + 4 + this_ext_len;
    }
    Ok(None)
}

} // verus!
