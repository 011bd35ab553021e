//! The hostname allow-list: wildcard patterns matched against an
//! extracted server name decide whether a connection is forwarded.

use vstd::prelude::*;

use crate::config::RulesConfig;

verus! {

/// The first index at or after `from` where `part` occurs in `host`;
/// the leftmost-first search that string `find` performs.
pub open spec fn spec_find(host: Seq<u8>, part: Seq<u8>, from: int) -> Option<int>
    recommends
        0 <= from,
        part.len() >= 1,
    decreases host.len() - from,
{
    if from + part.len() > host.len() {
        None
    } else if part.len() == 0 {
        Some(from)
    } else if host.subrange(from, from + part.len() as int) == part {
        Some(from)
    } else {
        spec_find(host, part, from + 1)
    }
}

/// The next-star index lies between `from` and the pattern's length,
/// and strictly after `from` when `from` is not itself a star.
pub proof fn lemma_next_star_bounds(p: Seq<u8>, from: int)
    requires
        from <= p.len(),
    ensures
        from <= spec_next_star(p, from) <= p.len(),
        from < p.len() && p[from] != 0x2a ==> spec_next_star(p, from) > from,
        spec_next_star(p, from) < p.len() ==> p[spec_next_star(p, from)] == 0x2a,
    decreases p.len() - from,
{
    if from < p.len() && p[from] != 0x2a {
        lemma_next_star_bounds(p, from + 1);
    }
}

/// The index of the next `*` at or after `from`, or the pattern's
/// length when none follows.
pub open spec fn spec_next_star(p: Seq<u8>, from: int) -> int
    recommends
        0 <= from <= p.len(),
    decreases p.len() - from,
{
    if from >= p.len() {
        p.len() as int
    } else if p[from] == 0x2a {
        from
    } else {
        spec_next_star(p, from + 1)
    }
}

/// The wildcard walk: `*` matches any run of bytes, each literal piece
/// between stars must occur in order (leftmost occurrence taken), and a
/// final piece not followed by a star must end exactly at the end of
/// the hostname.
pub open spec fn spec_match_from(pattern: Seq<u8>, host: Seq<u8>, pi: int, hpos: int) -> bool
    recommends
        0 <= pi <= pattern.len(),
        0 <= hpos,
    decreases pattern.len() - pi,
    via spec_match_from_decreases
{
    if pi >= pattern.len() {
        true
    } else if pattern[pi] == 0x2a {
        spec_match_from(pattern, host, pi + 1, hpos)
    } else {
        let pe = spec_next_star(pattern, pi);
        let piece = pattern.subrange(pi, pe);
        match spec_find(host, piece, hpos) {
            None => false,
            Some(j) => {
                let pos2 = j + piece.len();
                if pe >= pattern.len() {
                    pos2 == host.len()
                } else {
                    spec_match_from(pattern, host, pe, pos2)
                }
            },
        }
    }
}

#[via_fn]
proof fn spec_match_from_decreases(pattern: Seq<u8>, host: Seq<u8>, pi: int, hpos: int) {
    if pi < pattern.len() {
        lemma_next_star_bounds(pattern, pi);
    }
}

/// Whether a wildcard pattern matches a hostname.
pub open spec fn spec_match_pattern(pattern: Seq<u8>, host: Seq<u8>) -> bool {
    spec_match_from(pattern, host, 0, 0)
}

/// Whether the rule set admits the hostname: an empty set admits every
/// hostname, otherwise some pattern must match.
pub open spec fn spec_is_allowed(patterns: Seq<Seq<u8>>, host: Seq<u8>) -> bool {
    patterns.len() == 0 || exists|i: int|
        0 <= i < patterns.len() && spec_match_pattern(#[trigger] patterns[i], host)
}

/// Compares `part` against `host` at position `j`.
fn bytes_match_at(host: &[u8], part: &[u8], j: usize) -> (r: bool)
    requires
        j + part@.len() <= host@.len(),
        host@.len() <= usize::MAX,
    ensures
        r == (host@.subrange(j as int, j + part@.len() as int) == part@),
{
    let mut k: usize = 0;
    while k < part.len()
        invariant
            k <= part@.len(),
            j + part@.len() <= host@.len(),
            host@.len() <= usize::MAX,
            forall|t: int| 0 <= t < k ==> host@[j + t] == part@[t],
        decreases part@.len() - k,
    {
        if host[j + k] != part[k] {
            proof {
                assert(host@.subrange(j as int, j + part@.len() as int)[k as int] != part@[k as int]);
            }
            return false;
        }
        k = k + 1;
    }
    proof {
        assert(host@.subrange(j as int, j + part@.len() as int) =~= part@);
    }
    true
}

/// Finds the first occurrence of `part` in `host` at or after `from`.
fn find_part(host: &[u8], part: &[u8], from: usize) -> (r: Option<usize>)
    requires
        part@.len() >= 1,
        from <= host@.len(),
    ensures
        match r {
            Some(j) => spec_find(host@, part@, from as int) == Some(j as int) && j + part@.len()
                <= host@.len(),
            None => spec_find(host@, part@, from as int) is None,
        },
{
    let mut j = from;
    loop
        invariant
            from <= j <= host@.len(),
            part@.len() >= 1,
            spec_find(host@, part@, from as int) == spec_find(host@, part@, j as int),
        decreases host@.len() - j,
    {
        if host.len() - j < part.len() {
            return None;
        }
        if bytes_match_at(host, part, j) {
            return Some(j);
        }
        j = j + 1;
    }
}

/// Finds the next `*` at or after `from`, or the pattern's length.
fn next_star(pattern: &[u8], from: usize) -> (r: usize)
    requires
        from <= pattern@.len(),
    ensures
        r == spec_next_star(pattern@, from as int),
        from <= r <= pattern@.len(),
        r < pattern@.len() ==> pattern@[r as int] == 0x2a,
{
    let mut j = from;
    while j < pattern.len()
        invariant
            from <= j <= pattern@.len(),
            spec_next_star(pattern@, from as int) == spec_next_star(pattern@, j as int),
        decreases pattern@.len() - j,
    {
        if pattern[j] == 0x2a {
            return j;
        }
        j = j + 1;
    }
    j
}

/// Consults the allow-list for each hostname handed to it.
pub struct Router {
    pub rules: RulesConfig,
}

impl Router {
    /// A router over the given rule set.
    pub fn new(rules: RulesConfig) -> (r: Router)
        ensures
            r.rules.view_patterns() == rules.view_patterns(),
    {
        Router { rules }
    }

    /// Whether one pattern matches the hostname.
    fn match_pattern(&self, hostname: &[u8], pattern: &[u8]) -> (r: bool)
        ensures
            r == spec_match_pattern(pattern@, hostname@),
    {
        // Read both lengths so the loop can rely on their machine bounds.
        let _hn = hostname.len();
        let _pn = pattern.len();
        let mut pi: usize = 0;
        let mut hpos: usize = 0;
        loop
            invariant
                pi <= pattern@.len(),
                hpos <= hostname@.len(),
                hostname@.len() <= usize::MAX,
                pattern@.len() <= usize::MAX,
                spec_match_pattern(pattern@, hostname@) == spec_match_from(
                    pattern@,
                    hostname@,
                    pi as int,
                    hpos as int,
                ),
            decreases pattern@.len() - pi,
        {
            if pi == pattern.len() {
                return true;
            }
            if pattern[pi] == 0x2a {
                pi = pi + 1;
            } else {
                let pe = next_star(pattern, pi);
                let piece = vstd::slice::slice_subrange(pattern, pi, pe);
                match find_part(hostname, piece, hpos) {
                    None => {
                        return false;
                    },
                    Some(j) => {
                        let pos2 = j + piece.len();
                        if pe == pattern.len() {
                            return pos2 == hostname.len();
                        }
                        pi = pe;
                        hpos = pos2;
                    },
                }
            }
        }
    }

    /// Whether the hostname may be forwarded: an empty allow-list
    /// admits everything, otherwise some pattern must match.
    pub fn is_allowed(&self, hostname: &[u8]) -> (r: bool)
        ensures
            r == spec_is_allowed(self.rules.view_patterns(), hostname@),
    {
        if self.rules.allow.len() == 0 {
            return true;
        }
        let mut i: usize = 0;
        while i < self.rules.allow.len()
            invariant
                i <= self.rules.allow@.len(),
                forall|k: int|
                    0 <= k < i ==> !spec_match_pattern(
                        #[trigger] self.rules.view_patterns()[k],
                        hostname@,
                    ),
            decreases self.rules.allow@.len() - i,
        {
            let pattern = &self.rules.allow[i];
            if self.match_pattern(hostname, pattern.as_slice()) {
                proof {
                    assert(spec_match_pattern(self.rules.view_patterns()[i as int], hostname@));
                }
                return true;
            }
            i = i + 1;
        }
        false
    }
}

} // verus!
