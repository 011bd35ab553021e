//! Host-header extraction from a plain HTTP/1.x request head.

use vstd::prelude::*;

use crate::http::error::HttpError;

verus! {

/// ASCII whitespace, the bytes `str::trim` removes from ASCII text.
pub open spec fn spec_is_space(b: u8) -> bool {
    b == 0x20 || b == 0x09 || b == 0x0a || b == 0x0b || b == 0x0c || b == 0x0d
}

/// The byte lowered: ASCII upper-case letters gain 0x20.
pub open spec fn spec_lower(b: u8) -> u8 {
    if 0x41 <= b <= 0x5a {
        (b + 0x20) as u8
    } else {
        b
    }
}

/// The sequence without its leading whitespace.
pub open spec fn spec_trim_start(s: Seq<u8>) -> Seq<u8>
    decreases s.len(),
{
    if s.len() > 0 && spec_is_space(s[0]) {
        spec_trim_start(s.skip(1))
    } else {
        s
    }
}

/// The sequence without its trailing whitespace.
pub open spec fn spec_trim_end(s: Seq<u8>) -> Seq<u8>
    decreases s.len(),
{
    if s.len() > 0 && spec_is_space(s.last()) {
        spec_trim_end(s.drop_last())
    } else {
        s
    }
}

/// The sequence without leading and trailing whitespace.
pub open spec fn spec_trim(s: Seq<u8>) -> Seq<u8> {
    spec_trim_end(spec_trim_start(s))
}

/// The first index at or after `from` holding byte `b`, or the length.
pub open spec fn spec_find_byte(s: Seq<u8>, b: u8, from: int) -> int
    decreases s.len() - from,
{
    if from < 0 || from >= s.len() {
        s.len() as int
    } else if s[from] == b {
        from
    } else {
        spec_find_byte(s, b, from + 1)
    }
}

/// Whether a trimmed line begins with "host:", compared without case.
pub open spec fn spec_is_host_line(line: Seq<u8>) -> bool {
    &&& line.len() >= 5
    &&& spec_lower(line[0]) == 0x68
    &&& spec_lower(line[1]) == 0x6f
    &&& spec_lower(line[2]) == 0x73
    &&& spec_lower(line[3]) == 0x74
    &&& line[4] == 0x3a
}

/// The host taken out of a Host-header value: a bracketed IPv6 literal
/// is kept up to its closing bracket, anything else is cut at the first
/// colon, which drops a port.
pub open spec fn spec_host_of_value(v: Seq<u8>) -> Seq<u8> {
    if v.len() >= 1 && v[0] == 0x5b {
        let e = spec_find_byte(v, 0x5d, 0);
        if e < v.len() {
            v.take(e + 1)
        } else {
            v
        }
    } else {
        v.take(spec_find_byte(v, 0x3a, 0))
    }
}

/// Whether every byte is plain ASCII.
pub open spec fn spec_all_ascii(s: Seq<u8>) -> bool {
    forall|i: int| 0 <= i < s.len() ==> #[trigger] s[i] < 0x80
}

/// The meaning of parsing one Host-header line (already trimmed): trim
/// the value, take the host part, and reject an empty or non-ASCII one.
pub open spec fn spec_parse_host_line(line: Seq<u8>) -> Result<Seq<u8>, ()> {
    let v = spec_trim(line.skip(5));
    let host = spec_host_of_value(v);
    if !spec_all_ascii(v) {
        Err(())
    } else if host.len() == 0 {
        Err(())
    } else {
        Ok(host)
    }
}

/// The meaning of Host extraction: walk the request line by line and
/// parse the first Host header; no Host header is a failure.
pub open spec fn spec_extract_host(d: Seq<u8>) -> Result<Seq<u8>, ()>
    decreases d.len(),
    via spec_extract_host_decreases
{
    let eol = spec_find_byte(d, 0x0a, 0);
    let line = spec_trim(d.take(eol));
    if spec_is_host_line(line) {
        spec_parse_host_line(line)
    } else if eol >= d.len() {
        Err(())
    } else {
        spec_extract_host(d.skip(eol + 1))
    }
}

#[via_fn]
proof fn spec_extract_host_decreases(d: Seq<u8>) {
    lemma_find_byte_shift(d, 0x0a, 0);
}

/// Finds the first occurrence of `b` at or after `from`.
fn find_byte(s: &[u8], b: u8, from: usize) -> (r: usize)
    requires
        from <= s@.len(),
    ensures
        r == spec_find_byte(s@, b, from as int),
        from <= r <= s@.len(),
        r < s@.len() ==> s@[r as int] == b,
{
    let mut j = from;
    while j < s.len()
        invariant
            from <= j <= s@.len(),
            spec_find_byte(s@, b, from as int) == spec_find_byte(s@, b, j as int),
        decreases s@.len() - j,
    {
        if s[j] == b {
            return j;
        }
        j = j + 1;
    }
    j
}

/// Whether the byte is ASCII whitespace.
fn is_space(b: u8) -> (r: bool)
    ensures
        r == spec_is_space(b),
{
    b == 0x20 || b == 0x09 || b == 0x0a || b == 0x0b || b == 0x0c || b == 0x0d
}

/// Trims whitespace from both ends, returning the trimmed slice.
fn trim_slice<'a>(s: &'a [u8]) -> (r: &'a [u8])
    ensures
        r@ == spec_trim(s@),
{
    proof {
        assert(s@.skip(0) =~= s@);
    }
    let mut start: usize = 0;
    while start < s.len() && is_space(s[start])
        invariant
            start <= s@.len(),
            spec_trim_start(s@) == spec_trim_start(s@.skip(start as int)),
        decreases s@.len() - start,
    {
        proof {
            assert(s@.skip(start as int).skip(1) =~= s@.skip(start + 1));
        }
        start = start + 1;
    }
    proof {
        assert(spec_trim_start(s@) =~= s@.skip(start as int));
    }
    let mut end: usize = s.len();
    proof {
        assert(s@.skip(start as int).take(end - start as int) =~= s@.skip(start as int));
    }
    while end > start && (s[end - 1] == 0x20 || s[end - 1] == 0x09 || s[end - 1] == 0x0a || s[end
        - 1] == 0x0b || s[end - 1] == 0x0c || s[end - 1] == 0x0d)
        invariant
            start <= end <= s@.len(),
            spec_trim_start(s@) == s@.skip(start as int),
            spec_trim_end(s@.skip(start as int)) == spec_trim_end(
                s@.skip(start as int).take(end - start as int),
            ),
        decreases end,
    {
        proof {
            assert(s@.skip(start as int).take(end - start as int).drop_last() =~= s@.skip(
                start as int,
            ).take(end - 1 - start as int));
        }
        end = end - 1;
    }
    let out = vstd::slice::slice_subrange(s, start, end);
    proof {
        assert(s@.skip(start as int).take(end - start as int) =~= out@);
        if end > start {
            assert(!spec_is_space(s@.skip(start as int).take(end - start as int).last()));
        }
        assert(spec_trim_end(s@.skip(start as int).take(end - start as int)) =~= out@);
    }
    out
}

/// Whether the trimmed line opens a Host header.
fn is_host_line(line: &[u8]) -> (r: bool)
    ensures
        r == spec_is_host_line(line@),
{
    if line.len() < 5 {
        return false;
    }
    let l0 = if 0x41 <= line[0] && line[0] <= 0x5a {
        line[0] + 0x20
    } else {
        line[0]
    };
    let l1 = if 0x41 <= line[1] && line[1] <= 0x5a {
        line[1] + 0x20
    } else {
        line[1]
    };
    let l2 = if 0x41 <= line[2] && line[2] <= 0x5a {
        line[2] + 0x20
    } else {
        line[2]
    };
    let l3 = if 0x41 <= line[3] && line[3] <= 0x5a {
        line[3] + 0x20
    } else {
        line[3]
    };
    l0 == 0x68 && l1 == 0x6f && l2 == 0x73 && l3 == 0x74 && line[4] == 0x3a
}

/// Whether every byte of the slice is plain ASCII.
fn all_ascii(s: &[u8]) -> (r: bool)
    ensures
        r == spec_all_ascii(s@),
{
    let mut i: usize = 0;
    while i < s.len()
        invariant
            i <= s@.len(),
            forall|j: int| 0 <= j < i ==> #[trigger] s@[j] < 0x80,
        decreases s@.len() - i,
    {
        if s[i] >= 0x80 {
            proof {
                assert(!(s@[i as int] < 0x80));
            }
            return false;
        }
        i = i + 1;
    }
    true
}

/// Extracts the value of the first Host header in an HTTP request
/// head; the port, if any, is dropped; a bracketed IPv6 literal keeps
/// its brackets.
pub fn extract_host(buf: &[u8]) -> (r: Result<Vec<u8>, HttpError>)
    ensures
        match r {
            Ok(h) => spec_extract_host(buf@) == Ok::<Seq<u8>, ()>(h@),
            Err(_) => spec_extract_host(buf@) is Err,
        },
{
    let mut pos: usize = 0;
    proof {
        assert(buf@.skip(0) =~= buf@);
    }
    loop
        invariant
            pos <= buf@.len(),
            spec_extract_host(buf@) == spec_extract_host(buf@.skip(pos as int)),
        decreases buf@.len() - pos,
    {
        let ghost d = buf@.skip(pos as int);
        let eol = find_byte(buf, 0x0a, pos);
        proof {
            assert(spec_find_byte(d, 0x0a, 0) == eol - pos) by {
                lemma_find_byte_shift(buf@, 0x0a, pos as int);
            }
            assert(buf@.subrange(pos as int, eol as int) =~= d.take(eol - pos as int));
        }
        let line = trim_slice(vstd::slice::slice_subrange(buf, pos, eol));
        if is_host_line(line) {
            let value = trim_slice(vstd::slice::slice_subrange(line, 5, line.len()));
            proof {
                assert(line@.subrange(5, line@.len() as int) =~= line@.skip(5));
            }
            if !all_ascii(value) {
                return Err(HttpError::Utf8Error);
            }
            let host: &[u8] = if value.len() >= 1 && value[0] == 0x5b {
                let e = find_byte(value, 0x5d, 0);
                if e < value.len() {
                    vstd::slice::slice_subrange(value, 0, e + 1)
                } else {
                    value
                }
            } else {
                let c = find_byte(value, 0x3a, 0);
                vstd::slice::slice_subrange(value, 0, c)
            };
            proof {
                assert(host@ =~= spec_host_of_value(value@));
            }
            if host.len() == 0 {
                return Err(HttpError::MalformedHost("empty host".to_owned()));
            }
            return Ok(vstd::slice::slice_to_vec(host));
        }
        if eol >= buf.len() {
            return Err(HttpError::HostNotFound);
        }
        proof {
            assert(buf@.skip(eol + 1) =~= d.skip(eol - pos + 1));
        }
        pos = eol + 1;
    }
}

/// The byte search stays within bounds, and searching from `from` in
/// the whole buffer agrees with searching from zero in the suffix.
pub proof fn lemma_find_byte_shift(s: Seq<u8>, b: u8, from: int)
    requires
        0 <= from <= s.len(),
    ensures
        from <= spec_find_byte(s, b, from) <= s.len(),
        spec_find_byte(s.skip(from), b, 0) == spec_find_byte(s, b, from) - from,
    decreases s.len() - from,
{
    if from == s.len() {
        assert(s.skip(from).len() == 0);
    } else if s[from] == b {
    } else {
        lemma_find_byte_shift(s, b, from + 1);
        lemma_find_byte_shift(s.skip(from), b, 1);
        assert(s.skip(from).skip(1) =~= s.skip(from + 1));
    }
}

} // verus!
