//! CRYPTO stream reassembly: fragments keyed by stream offset are
//! merged per DCID and the longest contiguous prefix from offset zero
//! is handed to the TLS parser.

use vstd::prelude::*;

use crate::quic::crypto::InitialKeyRole;
use crate::quic::decrypt::{frags_view, CryptoFragment};

verus! {

/// Fragment lists are kept strictly sorted by offset, offsets unique.
pub open spec fn frags_sorted(v: Seq<(u64, Seq<u8>)>) -> bool {
    forall|i: int, j: int| 0 <= i < j < v.len() ==> v[i].0 < v[j].0
}

/// The reassembly fold: walk the sorted fragments, and while a
/// fragment starts at or before the cursor (the bytes collected so
/// far), append its unseen tail.  A fragment past the cursor is a gap
/// and stops the walk.
pub open spec fn spec_assemble_from(v: Seq<(u64, Seq<u8>)>, i: int, acc: Seq<u8>) -> Seq<u8>
    decreases v.len() - i,
{
    if i < 0 || i >= v.len() {
        acc
    } else {
        let off = v[i].0 as int;
        let data = v[i].1;
        if off > acc.len() {
            acc
        } else {
            let start = acc.len() - off;
            if start < data.len() {
                spec_assemble_from(v, i + 1, acc + data.skip(start))
            } else {
                spec_assemble_from(v, i + 1, acc)
            }
        }
    }
}

/// The longest contiguous prefix from offset zero that the fragments
/// cover.
pub open spec fn spec_assemble(v: Seq<(u64, Seq<u8>)>) -> Seq<u8> {
    spec_assemble_from(v, 0, seq![])
}

/// Buffered CRYPTO fragments for one DCID: the role whose keys opened
/// them, the fragments sorted by offset, and the time of the last
/// merge, in milliseconds of the caller's clock.
pub struct PendingCrypto {
    pub role: InitialKeyRole,
    pub fragments: Vec<CryptoFragment>,
    pub last_update: u64,
}

impl PendingCrypto {
    /// Well-formedness: sorted unique offsets, and every fragment's end
    /// offset representable.
    pub open spec fn wf(&self) -> bool {
        &&& frags_sorted(frags_view(self.fragments@))
        &&& forall|i: int|
            0 <= i < self.fragments@.len() ==> self.fragments@[i].offset
                + self.fragments@[i].data@.len() <= u64::MAX
    }

    /// An empty buffer for the given role.
    pub fn new(role: InitialKeyRole, now_ms: u64) -> (r: PendingCrypto)
        ensures
            r.wf(),
            r.role == role,
            r.fragments@.len() == 0,
            r.last_update == now_ms,
    {
        PendingCrypto { role, fragments: Vec::new(), last_update: now_ms }
    }

    /// Merges one fragment, keeping the list sorted.  A fragment at an
    /// already-present offset replaces the old data, as a map insert
    /// would.
    pub fn insert_fragment(&mut self, offset: u64, data: Vec<u8>)
        requires
            old(self).wf(),
            offset + data@.len() <= u64::MAX,
        ensures
            final(self).wf(),
            final(self).role == old(self).role,
            final(self).last_update == old(self).last_update,
            frags_view(final(self).fragments@).to_set() == frags_view(old(self).fragments@).filter(
                |f: (u64, Seq<u8>)| f.0 != offset,
            ).to_set().insert((offset, data@)),
    {
        let ghost old_view = frags_view(old(self).fragments@);
        let mut idx: usize = 0;
        while idx < self.fragments.len() && self.fragments[idx].offset < offset
            invariant
                idx <= self.fragments@.len(),
                *self == *old(self),
                forall|k: int| 0 <= k < idx ==> self.fragments@[k].offset < offset,
            decreases self.fragments@.len() - idx,
        {
            idx = idx + 1;
        }
        if idx < self.fragments.len() {
            let existing = self.fragments[idx].offset;
            if existing == offset {
                self.fragments.set(idx, CryptoFragment { offset, data });
                proof {
                    lemma_insert_set_replace(old_view, frags_view(self.fragments@), idx as int, offset, data@);
                }
                return ;
            }
        }
        proof {
            assert forall|k: int| idx <= k < old_view.len() implies old_view[k].0 > offset by {
                assert(old_view[idx as int].0 > offset);
                if k > idx {
                    assert(old_view[idx as int].0 < old_view[k].0);
                }
            }
        }
        self.fragments.insert(idx, CryptoFragment { offset, data });
        proof {
            lemma_insert_set_fresh(old_view, frags_view(self.fragments@), idx as int, offset, data@);
        }
    }

    /// Returns the longest contiguous prefix starting at offset zero.
    pub fn assemble(&self) -> (r: Vec<u8>)
        requires
            self.wf(),
        ensures
            r@ == spec_assemble(frags_view(self.fragments@)),
    {
        let ghost v = frags_view(self.fragments@);
        let mut out: Vec<u8> = Vec::new();
        let mut i: usize = 0;
        while i < self.fragments.len()
            invariant
                self.wf(),
                i <= self.fragments@.len(),
                v == frags_view(self.fragments@),
                spec_assemble(v) == spec_assemble_from(v, i as int, out@),
                out@.len() <= u64::MAX,
            decreases self.fragments@.len() - i,
        {
            let off = self.fragments[i].offset;
            if off as u64 > out.len() as u64 {
                return out;
            }
            let start = (out.len() as u64 - off) as usize;
            let flen = self.fragments[i].data.len();
            if start < flen {
                let tail = vstd::slice::slice_subrange(
                    self.fragments[i].data.as_slice(),
                    start,
                    flen,
                );
                let mut tail_vec = vstd::slice::slice_to_vec(tail);
                proof {
                    assert(out@ + tail_vec@ =~= out@ + self.fragments@[i as int].data@.skip(
                        start as int,
                    ));
                }
                out.append(&mut tail_vec);
            }
            i = i + 1;
        }
        out
    }
}

/// Replacing the element at `idx` (same offset, new data) adjusts the
/// fragment set accordingly.
proof fn lemma_insert_set_replace(
    old_v: Seq<(u64, Seq<u8>)>,
    new_v: Seq<(u64, Seq<u8>)>,
    idx: int,
    offset: u64,
    data: Seq<u8>,
)
    requires
        frags_sorted(old_v),
        0 <= idx < old_v.len(),
        old_v[idx].0 == offset,
        new_v =~= old_v.update(idx, (offset, data)),
    ensures
        new_v.to_set() == old_v.filter(|f: (u64, Seq<u8>)| f.0 != offset).to_set().insert(
            (offset, data),
        ),
        frags_sorted(new_v),
{
    let filtered = old_v.filter(|f: (u64, Seq<u8>)| f.0 != offset);
    assert forall|x: (u64, Seq<u8>)| new_v.to_set().contains(x) implies filtered.to_set().insert(
        (offset, data),
    ).contains(x) by {
        let k = choose|k: int| 0 <= k < new_v.len() && new_v[k] == x;
        if k == idx {
        } else {
            assert(old_v[k] == x);
            assert(old_v[k].0 != offset);
            lemma_filter_contains(old_v, |f: (u64, Seq<u8>)| f.0 != offset, k);
        }
    }
    assert forall|x: (u64, Seq<u8>)|
        filtered.to_set().insert((offset, data)).contains(x) implies new_v.to_set().contains(
        x,
    ) by {
        if x == (offset, data) {
            assert(new_v[idx] == x);
        } else {
            assert(filtered.to_set().contains(x));
            let k = choose|k: int| 0 <= k < filtered.len() && filtered[k] == x;
            lemma_filter_origin(old_v, |f: (u64, Seq<u8>)| f.0 != offset, k);
            let j = choose|j: int|
                0 <= j < old_v.len() && old_v[j] == x && (|f: (u64, Seq<u8>)| f.0 != offset)(
                    old_v[j],
                );
            assert(j != idx);
            assert(new_v[j] == x);
        }
    }
    assert(new_v.to_set() =~= filtered.to_set().insert((offset, data)));
}

/// Inserting a fragment at a fresh offset position keeps sortedness and
/// adds exactly that pair to the fragment set.
proof fn lemma_insert_set_fresh(
    old_v: Seq<(u64, Seq<u8>)>,
    new_v: Seq<(u64, Seq<u8>)>,
    idx: int,
    offset: u64,
    data: Seq<u8>,
)
    requires
        frags_sorted(old_v),
        0 <= idx <= old_v.len(),
        forall|k: int| 0 <= k < idx ==> old_v[k].0 < offset,
        forall|k: int| idx <= k < old_v.len() ==> old_v[k].0 > offset,
        new_v =~= old_v.insert(idx, (offset, data)),
    ensures
        new_v.to_set() == old_v.filter(|f: (u64, Seq<u8>)| f.0 != offset).to_set().insert(
            (offset, data),
        ),
        frags_sorted(new_v),
{
    let pred = |f: (u64, Seq<u8>)| f.0 != offset;
    assert(old_v.filter(pred) =~= old_v) by {
        lemma_filter_all(old_v, pred);
    }
    assert forall|x: (u64, Seq<u8>)| new_v.to_set().contains(x) implies old_v.to_set().insert(
        (offset, data),
    ).contains(x) by {
        let k = choose|k: int| 0 <= k < new_v.len() && new_v[k] == x;
        if k < idx {
            assert(old_v[k] == x);
        } else if k == idx {
        } else {
            assert(old_v[k - 1] == x);
        }
    }
    assert forall|x: (u64, Seq<u8>)|
        old_v.to_set().insert((offset, data)).contains(x) implies new_v.to_set().contains(x) by {
        if x == (offset, data) {
            assert(new_v[idx] == x);
        } else {
            let k = choose|k: int| 0 <= k < old_v.len() && old_v[k] == x;
            if k < idx {
                assert(new_v[k] == x);
            } else {
                assert(new_v[k + 1] == x);
            }
        }
    }
    assert(new_v.to_set() =~= old_v.to_set().insert((offset, data)));
    assert(old_v.filter(pred).to_set() =~= old_v.to_set());
}

/// Whether every fragment is a faithful slice of the stream `h`.
pub open spec fn frags_slices_of(v: Seq<(u64, Seq<u8>)>, h: Seq<u8>) -> bool {
    forall|i: int|
        0 <= i < v.len() ==> (#[trigger] v[i]).0 + v[i].1.len() <= h.len() && v[i].1 == h.subrange(
            v[i].0 as int,
            v[i].0 + v[i].1.len(),
        )
}

/// Whether some fragment covers stream position `pos`.
pub open spec fn frag_covers_at(v: Seq<(u64, Seq<u8>)>, pos: int) -> bool {
    exists|i: int| 0 <= i < v.len() && (#[trigger] v[i]).0 <= pos < v[i].0 + v[i].1.len()
}

/// Whether the fragments together cover every position of `[0, L)`.
pub open spec fn frags_cover(v: Seq<(u64, Seq<u8>)>, len: int) -> bool {
    forall|pos: int| 0 <= pos < len ==> #[trigger] frag_covers_at(v, pos)
}

/// The inductive step of the coverage law: with the cursor at `c`, the
/// collected bytes equal to the stream's first `c` bytes, and every
/// fragment before `i` fully consumed, the walk reproduces the whole
/// stream.
proof fn lemma_assemble_from_covers(v: Seq<(u64, Seq<u8>)>, h: Seq<u8>, i: int, acc: Seq<u8>)
    requires
        frags_sorted(v),
        frags_slices_of(v, h),
        frags_cover(v, h.len() as int),
        0 <= i <= v.len(),
        acc == h.take(acc.len() as int),
        acc.len() <= h.len(),
        forall|k: int| 0 <= k < i ==> (#[trigger] v[k]).0 + v[k].1.len() <= acc.len(),
    ensures
        spec_assemble_from(v, i, acc) == h,
    decreases v.len() - i,
{
    let c = acc.len() as int;
    if c == h.len() {
        if i < v.len() {
            let off = v[i].0 as int;
            let dlen = v[i].1.len() as int;
            if off > c {
                assert(spec_assemble_from(v, i, acc) == acc);
                assert(acc =~= h);
            } else {
                assert(c - off >= dlen);
                lemma_assemble_from_covers(v, h, i + 1, acc);
            }
        } else {
            assert(acc =~= h);
        }
    } else {
        assert(0 <= c < h.len());
        assert(frag_covers_at(v, c));
        let w = choose|w: int| 0 <= w < v.len() && (#[trigger] v[w]).0 <= c < v[w].0 + v[w].1.len();
        assert(w >= i) by {
            if w < i {
                assert(v[w].0 + v[w].1.len() <= c);
            }
        }
        assert(i < v.len());
        let off = v[i].0 as int;
        let data = v[i].1;
        let dlen = data.len() as int;
        assert(off <= v[w].0 <= c) by {
            if i < w {
                assert(v[i].0 < v[w].0);
            }
        }
        let start = c - off;
        if start < dlen {
            let acc2 = acc + data.skip(start);
            assert(acc2.len() == off + dlen);
            assert(acc2 =~= h.take(off + dlen)) by {
                assert(data == h.subrange(off, off + dlen));
                assert forall|x: int| 0 <= x < off + dlen implies acc2[x] == h[x] by {
                    if x < c {
                    } else {
                        assert(acc2[x] == data.skip(start)[x - c]);
                        assert(data.skip(start)[x - c] == data[x - off]);
                        assert(data[x - off] == h[x]);
                    }
                }
            }
            lemma_assemble_from_covers(v, h, i + 1, acc2);
        } else {
            lemma_assemble_from_covers(v, h, i + 1, acc);
        }
    }
}

/// Coverage law: for any fragment set that is sorted, whose fragments
/// are slices of one stream `h`, and which together cover all of
/// `[0, h.len())`, reassembly returns exactly `h`.  Overlap is allowed;
/// since overlapping fragments carry the same stream's bytes, later
/// writes agree with earlier ones.
pub proof fn lemma_assemble_covers(v: Seq<(u64, Seq<u8>)>, h: Seq<u8>)
    requires
        frags_sorted(v),
        frags_slices_of(v, h),
        frags_cover(v, h.len() as int),
    ensures
        spec_assemble(v) == h,
{
    assert(Seq::<u8>::empty() =~= h.take(0));
    lemma_assemble_from_covers(v, h, 0, Seq::<u8>::empty());
}

/// Overlaying one fragment onto a fragment set: any fragment at the
/// same offset is replaced.
pub open spec fn spec_put_fragment(base: Set<(u64, Seq<u8>)>, f: (u64, Seq<u8>)) -> Set<
    (u64, Seq<u8>),
> {
    base.filter(|x: (u64, Seq<u8>)| x.0 != f.0).insert(f)
}

/// Overlaying a list of fragments left to right.
pub open spec fn spec_merge_fragments(
    base: Set<(u64, Seq<u8>)>,
    frags: Seq<(u64, Seq<u8>)>,
) -> Set<(u64, Seq<u8>)>
    decreases frags.len(),
{
    if frags.len() == 0 {
        base
    } else {
        spec_merge_fragments(spec_put_fragment(base, frags[0]), frags.skip(1))
    }
}

/// The elements of a filtered sequence are the elements that satisfy
/// the predicate.
proof fn lemma_filter_to_set<A>(v: Seq<A>, pred: spec_fn(A) -> bool)
    ensures
        v.filter(pred).to_set() =~= v.to_set().filter(pred),
{
    assert forall|x: A| v.filter(pred).to_set().contains(x) implies v.to_set().filter(
        pred,
    ).contains(x) by {
        let k = choose|k: int| 0 <= k < v.filter(pred).len() && v.filter(pred)[k] == x;
        lemma_filter_origin(v, pred, k);
    }
    assert forall|x: A| v.to_set().filter(pred).contains(x) implies v.filter(pred).to_set().contains(
        x,
    ) by {
        let k = choose|k: int| 0 <= k < v.len() && v[k] == x;
        lemma_filter_contains(v, pred, k);
    }
}

/// Buffered CRYPTO state per DCID.
pub struct PendingCryptoMap {
    pub entries: Vec<(Vec<u8>, PendingCrypto)>,
}

impl PendingCryptoMap {
    /// Well-formedness: DCID keys unique, every buffer well-formed.
    pub open spec fn wf(&self) -> bool {
        &&& forall|i: int, j: int|
            0 <= i < j < self.entries@.len() ==> (#[trigger] self.entries@[i]).0@ != (
            #[trigger] self.entries@[j]).0@
        &&& forall|i: int| 0 <= i < self.entries@.len() ==> (#[trigger] self.entries@[i]).1.wf()
    }

    /// The index of a DCID's entry, if one exists.
    pub open spec fn spec_index_of(&self, dcid: Seq<u8>) -> Option<int> {
        if exists|i: int| 0 <= i < self.entries@.len() && (#[trigger] self.entries@[i]).0@ == dcid {
            Some(
                choose|i: int|
                    0 <= i < self.entries@.len() && (#[trigger] self.entries@[i]).0@ == dcid,
            )
        } else {
            None
        }
    }

    /// The fragment set buffered for a DCID; empty when absent.
    pub open spec fn spec_frag_set(&self, dcid: Seq<u8>) -> Set<(u64, Seq<u8>)> {
        match self.spec_index_of(dcid) {
            Some(i) => frags_view(self.entries@[i].1.fragments@).to_set(),
            None => Set::empty(),
        }
    }

    /// An empty map.
    pub fn new() -> (r: PendingCryptoMap)
        ensures
            r.wf(),
            r.entries@.len() == 0,
    {
        PendingCryptoMap { entries: Vec::new() }
    }

    /// How many DCIDs are being buffered.
    pub fn len(&self) -> (r: usize)
        ensures
            r == self.entries@.len(),
    {
        self.entries.len()
    }

    /// Merges one packet's fragments into the DCID's buffer and returns
    /// the longest contiguous prefix.  The buffer is reset first when
    /// its role disagrees or when it has sat unmerged beyond the
    /// three-second time-to-live.
    pub fn merge_and_assemble(
        &mut self,
        dcid: &[u8],
        role: InitialKeyRole,
        now_ms: u64,
        frags: &Vec<CryptoFragment>,
    ) -> (r: Vec<u8>)
        requires
            old(self).wf(),
            forall|k: int|
                0 <= k < frags@.len() ==> (#[trigger] frags@[k]).offset + frags@[k].data@.len()
                    <= u64::MAX,
        ensures
            final(self).wf(),
            exists|j: int|
                {
                    let e = #[trigger] final(self).entries@[j];
                    &&& 0 <= j < final(self).entries@.len()
                    &&& e.0@ == dcid@
                    &&& e.1.role == role
                    &&& e.1.last_update == now_ms
                    &&& frags_view(e.1.fragments@).to_set() == spec_merge_fragments(
                        spec_base_set(*old(self), dcid@, role, now_ms),
                        frags_view(frags@),
                    )
                    &&& r@ == spec_assemble(frags_view(e.1.fragments@))
                },
            forall|j: int|
                0 <= j < final(self).entries@.len() && (#[trigger] final(self).entries@[j]).0@
                    != dcid@ ==> exists|k: int|
                    0 <= k < old(self).entries@.len() && old(self).entries@[k]
                        == final(self).entries@[j],
    {
        let ghost base = spec_base_set(*old(self), dcid@, role, now_ms);

        let mut idx: usize = 0;
        let n = self.entries.len();
        while idx < n && !bytes_eq(self.entries[idx].0.as_slice(), dcid)
            invariant
                idx <= n == self.entries@.len(),
                *self == *old(self),
                forall|i: int| 0 <= i < idx ==> (#[trigger] self.entries@[i]).0@ != dcid@,
            decreases n - idx,
        {
            idx = idx + 1;
        }

        let (key, mut pc) = if idx < n {
            self.entries.remove(idx)
        } else {
            (vstd::slice::slice_to_vec(dcid), PendingCrypto::new(role, now_ms))
        };
        proof {
            if idx < n {
                assert(old(self).spec_index_of(dcid@) == Some(idx as int)) by {
                    assert((old(self).entries@[idx as int]).0@ == dcid@);
                    let w = choose|i: int|
                        0 <= i < old(self).entries@.len() && (#[trigger] old(
                            self,
                        ).entries@[i]).0@ == dcid@;
                    if w != idx {
                        assert((old(self).entries@[w]).0@ != (old(self).entries@[idx as int]).0@);
                    }
                }
            } else {
                if old(self).spec_index_of(dcid@) is Some {
                    let w = old(self).spec_index_of(dcid@)->Some_0;
                    assert((old(self).entries@[w]).0@ == dcid@);
                }
            }
        }

        let mismatch = !role_eq(pc.role, role);
        let stale = now_ms >= 3000 && now_ms - 3000 > pc.last_update;
        if mismatch || stale {
            pc.fragments.clear();
            pc.role = role;
        }
        pc.last_update = now_ms;
        proof {
            assert(frags_view(pc.fragments@).to_set() =~= base);
        }

        let mut k: usize = 0;
        while k < frags.len()
            invariant
                k <= frags@.len(),
                pc.wf(),
                pc.role == role,
                pc.last_update == now_ms,
                forall|t: int|
                    0 <= t < frags@.len() ==> (#[trigger] frags@[t]).offset + frags@[t].data@.len()
                        <= u64::MAX,
                frags_view(pc.fragments@).to_set() == spec_merge_fragments(
                    base,
                    frags_view(frags@).take(k as int),
                ),
            decreases frags@.len() - k,
        {
            let ghost pre = frags_view(pc.fragments@);
            let off = frags[k].offset;
            let data = clone_bytes(&frags[k].data);
            pc.insert_fragment(off, data);
            proof {
                lemma_filter_to_set(pre, |f: (u64, Seq<u8>)| f.0 != off);
                assert(frags_view(pc.fragments@).to_set() =~= spec_put_fragment(
                    pre.to_set(),
                    frags_view(frags@)[k as int],
                ));
                lemma_merge_step(base, frags_view(frags@), k as int);
            }
            k = k + 1;
        }
        proof {
            assert(frags_view(frags@).take(frags@.len() as int) =~= frags_view(frags@));
        }

        let out = pc.assemble();
        self.entries.insert(idx, (key, pc));
        proof {
            assert((final(self).entries@[idx as int]).0@ == dcid@);
        }
        out
    }
}

/// The buffer contents that survive into a merge: the old fragments
/// when the entry exists with the same role and is fresh, nothing
/// otherwise.
pub open spec fn spec_base_set(
    m: PendingCryptoMap,
    dcid: Seq<u8>,
    role: InitialKeyRole,
    now_ms: u64,
) -> Set<(u64, Seq<u8>)> {
    match m.spec_index_of(dcid) {
        None => Set::empty(),
        Some(i) => {
            let e = m.entries@[i].1;
            if e.role != role || (now_ms >= 3000 && now_ms - 3000 > e.last_update) {
                Set::empty()
            } else {
                frags_view(e.fragments@).to_set()
            }
        },
    }
}

/// Folding one more fragment extends the merge by one step.
proof fn lemma_merge_step(base: Set<(u64, Seq<u8>)>, frags: Seq<(u64, Seq<u8>)>, k: int)
    requires
        0 <= k < frags.len(),
    ensures
        spec_merge_fragments(base, frags.take(k + 1)) == spec_put_fragment(
            spec_merge_fragments(base, frags.take(k)),
            frags[k],
        ),
    decreases k,
{
    if k == 0 {
        let b2 = spec_put_fragment(base, frags[0]);
        assert(frags.take(1).skip(1) =~= Seq::<(u64, Seq<u8>)>::empty());
        assert(frags.take(1)[0] == frags[0]);
        assert(frags.take(0) =~= Seq::<(u64, Seq<u8>)>::empty());
        lemma_merge_shift(base, frags.take(1));
        assert(spec_merge_fragments(b2, frags.take(1).skip(1)) == b2);
        assert(spec_merge_fragments(base, frags.take(0)) == base);
    } else {
        let b2 = spec_put_fragment(base, frags[0]);
        assert(frags.take(k + 1)[0] == frags[0]);
        assert(frags.take(k)[0] == frags[0]);
        lemma_merge_shift(base, frags.take(k + 1));
        lemma_merge_shift(base, frags.take(k));
        assert(frags.take(k + 1).skip(1) =~= frags.skip(1).take(k));
        assert(frags.take(k).skip(1) =~= frags.skip(1).take(k - 1));
        assert(spec_merge_fragments(base, frags.take(k + 1)) == spec_merge_fragments(
            b2,
            frags.skip(1).take(k),
        ));
        assert(spec_merge_fragments(base, frags.take(k)) == spec_merge_fragments(
            b2,
            frags.skip(1).take(k - 1),
        ));
        lemma_merge_step(b2, frags.skip(1), k - 1);
        assert(frags.skip(1).take((k - 1) + 1) =~= frags.skip(1).take(k));
        assert(spec_merge_fragments(b2, frags.skip(1).take(k)) == spec_put_fragment(
            spec_merge_fragments(b2, frags.skip(1).take(k - 1)),
            frags.skip(1)[k - 1],
        ));
        assert(frags.skip(1)[k - 1] == frags[k]);
    }
}

/// Unfolds one step of the merge fold.
proof fn lemma_merge_shift(base: Set<(u64, Seq<u8>)>, frags: Seq<(u64, Seq<u8>)>)
    requires
        frags.len() >= 1,
    ensures
        spec_merge_fragments(base, frags) == spec_merge_fragments(
            spec_put_fragment(base, frags[0]),
            frags.skip(1),
        ),
{
}

/// Compares two byte strings.
pub fn bytes_eq(a: &[u8], b: &[u8]) -> (r: bool)
    ensures
        r == (a@ == b@),
{
    if a.len() != b.len() {
        proof {
            assert(a@.len() != b@.len());
        }
        return false;
    }
    let mut i: usize = 0;
    while i < a.len()
        invariant
            i <= a@.len(),
            a@.len() == b@.len(),
            forall|j: int| 0 <= j < i ==> a@[j] == b@[j],
        decreases a@.len() - i,
    {
        if a[i] != b[i] {
            return false;
        }
        i = i + 1;
    }
    proof {
        assert(a@ =~= b@);
    }
    true
}

/// Copies a byte vector.
pub fn clone_bytes(v: &Vec<u8>) -> (r: Vec<u8>)
    ensures
        r@ == v@,
{
    vstd::slice::slice_to_vec(v.as_slice())
}

/// Compares two roles.
fn role_eq(a: InitialKeyRole, b: InitialKeyRole) -> (r: bool)
    ensures
        r == (a == b),
{
    match (a, b) {
        (InitialKeyRole::Client, InitialKeyRole::Client) => true,
        (InitialKeyRole::Server, InitialKeyRole::Server) => true,
        _ => false,
    }
}

/// A sequence where every element satisfies the predicate filters to
/// itself.
proof fn lemma_filter_all<A>(v: Seq<A>, pred: spec_fn(A) -> bool)
    requires
        forall|k: int| 0 <= k < v.len() ==> #[trigger] pred(v[k]),
    ensures
        v.filter(pred) =~= v,
    decreases v.len(),
{
    reveal(Seq::filter);
    if v.len() > 0 {
        lemma_filter_all(v.drop_last(), pred);
    }
}

/// An element kept by filter appears in the filtered sequence.
proof fn lemma_filter_contains<A>(v: Seq<A>, pred: spec_fn(A) -> bool, k: int)
    requires
        0 <= k < v.len(),
        pred(v[k]),
    ensures
        v.filter(pred).contains(v[k]),
    decreases v.len(),
{
    reveal(Seq::filter);
    if v.len() > 0 {
        if k == v.len() - 1 {
            assert(v.filter(pred).last() == v[k]);
        } else {
            lemma_filter_contains(v.drop_last(), pred, k);
            let i = choose|i: int|
                0 <= i < v.drop_last().filter(pred).len() && v.drop_last().filter(pred)[i] == v[k];
            if pred(v.last()) {
                assert(v.filter(pred)[i] == v[k]);
            } else {
                assert(v.filter(pred)[i] == v[k]);
            }
        }
    }
}

/// Every element of a filtered sequence came from the original and
/// satisfies the predicate.
pub proof fn lemma_filter_origin<A>(v: Seq<A>, pred: spec_fn(A) -> bool, k: int)
    requires
        0 <= k < v.filter(pred).len(),
    ensures
        exists|j: int| 0 <= j < v.len() && v[j] == v.filter(pred)[k] && pred(v[j]),
    decreases v.len(),
{
    reveal(Seq::filter);
    if v.len() > 0 {
        if pred(v.last()) && k == v.filter(pred).len() - 1 {
            assert(v[v.len() - 1] == v.filter(pred)[k] && pred(v[v.len() - 1]));
        } else {
            lemma_filter_origin(v.drop_last(), pred, k);
            let j = choose|j: int|
                0 <= j < v.drop_last().len() && v.drop_last()[j] == v.drop_last().filter(pred)[k]
                    && pred(v.drop_last()[j]);
            assert(v[j] == v.filter(pred)[k] && pred(v[j]));
        }
    }
}

} // verus!
