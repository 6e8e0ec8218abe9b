//! Scatter-gather views of user buffers.
use crate::mm::lemma_page_join;
use crate::mm::lemma_page_split;
use crate::mm::ps;
use crate::mm::AddressSpace;
use crate::mm::PAGE_SIZE;
use vstd::prelude::*;

verus! {

/// A run of physical memory: `len` bytes from physical address `start`.
#[derive(Clone, Copy)]
pub struct Segment {
    pub start: usize,
    pub len: usize,
}

/// The physical addresses that a segment covers, in order.
pub open spec fn seg_addrs(s: Segment) -> Seq<int> {
    Seq::new(s.len as nat, |j: int| s.start + j)
}

/// The physical addresses that a sequence of segments covers, in order.
pub open spec fn flat(segs: Seq<Segment>) -> Seq<int>
    decreases segs.len(),
{
    if segs.len() == 0 {
        seq![]
    } else {
        flat(segs.drop_last()) + seg_addrs(segs.last())
    }
}

/// The addresses of the first `m` segments come first among those of all.
pub proof fn lemma_flat_prefix(segs: Seq<Segment>, m: int)
    requires
        0 <= m <= segs.len(),
    ensures
        flat(segs.take(m)).len() <= flat(segs).len(),
        forall|i: int| 0 <= i < flat(segs.take(m)).len() ==> flat(segs.take(m))[i] == flat(segs)[i],
    decreases segs.len(),
{
    if m == segs.len() {
        assert(segs.take(m) =~= segs);
    } else {
        assert(segs.drop_last().take(m) =~= segs.take(m));
        lemma_flat_prefix(segs.drop_last(), m);
    }
}

/// The addresses of the first `m + 1` segments: those of the first `m`, then those of segment `m`.
pub proof fn lemma_flat_take_step(segs: Seq<Segment>, m: int)
    requires
        0 <= m < segs.len(),
    ensures
        flat(segs.take(m + 1)) == flat(segs.take(m)) + seg_addrs(segs[m]),
{
    assert(segs.take(m + 1).drop_last() =~= segs.take(m));
}

/// Segments that end by `bound` cover addresses below `bound` only.
pub proof fn lemma_flat_bound(segs: Seq<Segment>, bound: int)
    requires
        forall|k: int| 0 <= k < segs.len() ==> (#[trigger] segs[k]).start + segs[k].len <= bound,
    ensures
        forall|i: int| 0 <= i < flat(segs).len() ==> 0 <= #[trigger] flat(segs)[i] < bound,
    decreases segs.len(),
{
    if segs.len() > 0 {
        let init = segs.drop_last();
        assert forall|k: int| 0 <= k < init.len() implies (#[trigger] init[k]).start + init[k].len
            <= bound by {
            assert(init[k] == segs[k]);
        }
        lemma_flat_bound(init, bound);
        let last = segs[segs.len() - 1];
        assert(segs.last() == last);
        assert forall|i: int| 0 <= i < flat(segs).len() implies 0 <= #[trigger] flat(segs)[i]
            < bound by {
            if i >= flat(init).len() {
                assert(flat(segs)[i] == seg_addrs(last)[i - flat(init).len()]);
            } else {
                assert(flat(segs)[i] == flat(init)[i]);
            }
        }
    }
}

/// The bytes of physical memory at the addresses `addrs`, in order.
pub open spec fn phys_at(space: &AddressSpace, addrs: Seq<int>) -> Seq<u8> {
    Seq::new(addrs.len(), |i: int| space.phys@[addrs[i]])
}

/// A user buffer as the physical runs that back it, in order.
pub struct UserBuffer {
    pub segments: Vec<Segment>,
}

impl UserBuffer {
    /// The physical addresses of the buffer's bytes, in order.
    pub open spec fn addrs(&self) -> Seq<int> {
        flat(self.segments@)
    }

    /// Each segment lies inside the physical memory of `space`.
    pub open spec fn inside(&self, space: &AddressSpace) -> bool {
        &&& space.phys@.len() <= usize::MAX
        &&& forall|k: int|
            0 <= k < self.segments@.len() ==> (#[trigger] self.segments@[k]).start
                + self.segments@[k].len <= space.phys@.len()
    }

    /// The buffer backs the `len` bytes of `space` from virtual address `ptr` on.
    pub open spec fn covers(&self, space: &AddressSpace, ptr: int, len: int) -> bool {
        &&& self.inside(space)
        &&& self.addrs() == Seq::new(len as nat, |i: int| space.phys_addr(ptr + i))
    }

    /// No physical address occurs twice in the buffer.
    pub open spec fn distinct(&self) -> bool {
        forall|i: int, m: int| 0 <= i < m < self.addrs().len() ==> self.addrs()[i] != self.addrs()[m]
    }

    /// Number of bytes in the buffer.
    pub open spec fn len(&self) -> nat {
        self.addrs().len()
    }
}

/// Translates the user buffer `[ptr, ptr + len)` of `space` into the physical
/// runs that back it, one segment per page touched.
pub fn translated_byte_buffer(space: &AddressSpace, ptr: usize, len: usize) -> (buf: UserBuffer)
    requires
        space.wf(),
        space.range_mapped(ptr as int, len as int),
    ensures
        buf.covers(space, ptr as int, len as int),
{
    let mut segs: Vec<Segment> = Vec::new();
    if len == 0 {
        assert(flat(segs@) =~= Seq::new(0, |i: int| space.phys_addr(ptr + i)));
        return UserBuffer { segments: segs };
    }
    proof {
        assert(space.mapped(ptr + len - 1));
        space.lemma_mapped_bound(ptr + len - 1);
    }
    let end = ptr + len;
    let mut cur = ptr;
    while cur < end
        invariant
            space.wf(),
            space.range_mapped(ptr as int, len as int),
            end == ptr + len,
            ptr <= cur <= end,
            flat(segs@) == Seq::new((cur - ptr) as nat, |i: int| space.phys_addr(ptr + i)),
            forall|k: int|
                0 <= k < segs@.len() ==> (#[trigger] segs@[k]).start + segs@[k].len
                    <= space.phys@.len(),
        decreases end - cur,
    {
        proof {
            assert(space.mapped(cur as int));
            space.lemma_phys_in_range(cur as int);
            lemma_page_split(cur as int);
            let f = space.page_table@[cur as int / ps()].unwrap();
            assert(f * PAGE_SIZE + PAGE_SIZE <= space.phys@.len());
        }
        let pa = space.translate(cur);
        let off = cur % PAGE_SIZE;
        let room = PAGE_SIZE - off;
        let n = if end - cur < room {
            end - cur
        } else {
            room
        };
        let seg = Segment { start: pa, len: n };
        proof {
            assert forall|j: int| 0 <= j < n implies #[trigger] space.phys_addr(cur + j) == pa + j by {
                space.lemma_same_page(cur as int, j);
            }
            assert((segs@.push(seg)).drop_last() =~= segs@);
            assert(flat(segs@.push(seg)) =~= Seq::new(
                (cur + n - ptr) as nat,
                |i: int| space.phys_addr(ptr + i),
            ));
        }
        segs.push(seg);
        cur = cur + n;
    }
    UserBuffer { segments: segs }
}

impl UserBuffer {
    /// Gathers the buffer's bytes from physical memory, in order.
    pub fn read_all(&self, space: &AddressSpace) -> (data: Vec<u8>)
        requires
            self.inside(space),
        ensures
            data@ == phys_at(space, self.addrs()),
    {
        let mut out: Vec<u8> = Vec::new();
        let mut si: usize = 0;
        while si < self.segments.len()
            invariant
                self.inside(space),
                0 <= si <= self.segments@.len(),
                out@ == phys_at(space, flat(self.segments@.take(si as int))),
            decreases self.segments@.len() - si,
        {
            let seg = self.segments[si];
            let ghost done = flat(self.segments@.take(si as int));
            let mut j: usize = 0;
            while j < seg.len
                invariant
                    seg == self.segments@[si as int],
                    seg.start + seg.len <= space.phys@.len(),
                    space.phys@.len() <= usize::MAX,
                    0 <= j <= seg.len,
                    out@ == phys_at(space, done + seg_addrs(seg).take(j as int)),
                decreases seg.len - j,
            {
                out.push(space.phys[seg.start + j]);
                j = j + 1;
                assert(out@ =~= phys_at(space, done + seg_addrs(seg).take(j as int)));
            }
            proof {
                lemma_flat_take_step(self.segments@, si as int);
                assert(seg_addrs(seg).take(j as int) =~= seg_addrs(seg));
            }
            si = si + 1;
        }
        assert(self.segments@.take(si as int) =~= self.segments@);
        out
    }

    /// Scatters `data` into the buffer's first `data.len()` bytes.
    pub fn write_all(&self, space: &mut AddressSpace, data: &Vec<u8>)
        requires
            self.inside(old(space)),
            data@.len() <= self.len(),
            self.distinct(),
        ensures
            final(space).page_table@ == old(space).page_table@,
            final(space).phys@.len() == old(space).phys@.len(),
            forall|i: int|
                0 <= i < data@.len() ==> final(space).phys@[#[trigger] self.addrs()[i]] == data@[i],
            forall|a: int|
                0 <= a < old(space).phys@.len() && final(space).phys@[a] != old(space).phys@[a]
                    ==> exists|i: int| 0 <= i < data@.len() && #[trigger] self.addrs()[i] == a,
    {
        let ghost before = *space;
        let ghost all = self.addrs();
        proof {
            lemma_flat_bound(self.segments@, before.phys@.len() as int);
        }
        let n = data.len();
        let mut k: usize = 0;
        let mut si: usize = 0;
        while si < self.segments.len() && k < n
            invariant
                self.inside(&before),
                all == self.addrs(),
                n == data@.len(),
                n <= all.len(),
                0 <= si <= self.segments@.len(),
                k == flat(self.segments@.take(si as int)).len() || k == n,
                k <= n,
                space.page_table@ == before.page_table@,
                space.phys@.len() == before.phys@.len(),
                forall|i: int| 0 <= i < k ==> space.phys@[#[trigger] all[i]] == data@[i],
                forall|i: int, m: int| 0 <= i < m < all.len() ==> all[i] != all[m],
                forall|i: int| 0 <= i < all.len() ==> 0 <= #[trigger] all[i] < before.phys@.len(),
                forall|a: int|
                    0 <= a < before.phys@.len() && space.phys@[a] != before.phys@[a] ==> exists|
                        i: int,
                    | 0 <= i < k && #[trigger] all[i] == a,
            decreases self.segments@.len() - si,
        {
            let seg = self.segments[si];
            let ghost base = k as int;
            assert(self.segments@[si as int].start + self.segments@[si as int].len <= before.phys@.len());
            proof {
                lemma_flat_take_step(self.segments@, si as int);
                lemma_flat_prefix(self.segments@, si + 1);
            }
            let mut j: usize = 0;
            while j < seg.len && k < n
                invariant
                    seg == self.segments@[si as int],
                    seg.start + seg.len <= before.phys@.len(),
                    before.phys@.len() <= usize::MAX,
                    all == self.addrs(),
                    n == data@.len(),
                    0 <= j <= seg.len,
                    k == base + j,
                    k <= n,
                    base + seg.len <= all.len(),
                    forall|t: int| 0 <= t < seg.len ==> #[trigger] all[base + t] == seg.start + t,
                    space.page_table@ == before.page_table@,
                    space.phys@.len() == before.phys@.len(),
                    forall|i: int| 0 <= i < k ==> space.phys@[#[trigger] all[i]] == data@[i],
                    forall|i: int, m: int| 0 <= i < m < all.len() ==> all[i] != all[m],
                    forall|i: int| 0 <= i < all.len() ==> 0 <= #[trigger] all[i] < before.phys@.len(),
                    forall|a: int|
                        0 <= a < before.phys@.len() && space.phys@[a] != before.phys@[a]
                            ==> exists|i: int| 0 <= i < k && #[trigger] all[i] == a,
                decreases seg.len - j,
            {
                assert(all[base + j] == seg.start + j);
                let ghost prev = space.phys@;
                space.phys.set(seg.start + j, data[k]);
                proof {
                    assert forall|i: int| 0 <= i < k + 1 implies space.phys@[#[trigger] all[i]]
                        == data@[i] by {
                        assert(all[k as int] == seg.start + j);
                        if i == k {
                            assert(space.phys@[seg.start + j] == data@[k as int]);
                        } else {
                            assert(all[i] != all[k as int]);
                            assert(space.phys@[all[i]] == prev[all[i]]);
                            assert(prev[all[i]] == data@[i]);
                        }
                    }
                    assert forall|a: int|
                        0 <= a < before.phys@.len() && space.phys@[a] != before.phys@[a] implies exists|
                            i: int,
                        | 0 <= i < k + 1 && #[trigger] all[i] == a by {
                        if a == all[k as int] {
                            assert(all[k as int] == a);
                        } else {
                            assert(prev[a] != before.phys@[a]);
                        }
                    }
                }
                j = j + 1;
                k = k + 1;
            }
            si = si + 1;
        }
        proof {
            if si == self.segments@.len() {
                assert(self.segments@.take(si as int) =~= self.segments@);
            }
        }
    }
}

impl UserBuffer {
    /// A buffer that backs a mapped range holds no physical address twice.
    pub proof fn lemma_covers_distinct(&self, space: &AddressSpace, ptr: int, len: int)
        requires
            space.wf(),
            0 <= len,
            space.range_mapped(ptr, len),
            self.covers(space, ptr, len),
        ensures
            self.distinct(),
    {
        assert forall|i: int, m: int| 0 <= i < m < self.addrs().len() implies self.addrs()[i]
            != self.addrs()[m] by {
            assert(space.mapped(ptr + i));
            assert(space.mapped(ptr + m));
            if self.addrs()[i] == self.addrs()[m] {
                space.lemma_phys_injective(ptr + i, ptr + m);
            }
        }
    }

    /// Gathering a buffer that backs `[ptr, ptr + len)` yields the bytes there.
    pub proof fn lemma_gather_bytes(&self, space: &AddressSpace, ptr: int, len: int)
        requires
            self.covers(space, ptr, len),
        ensures
            phys_at(space, self.addrs()) == space.bytes(ptr, len),
    {
        assert(phys_at(space, self.addrs()) =~= space.bytes(ptr, len));
    }

    /// Scattering `data` into a buffer that backs `[ptr, ptr + len)` puts
    /// `data` at `ptr` and leaves every other byte as it was.
    pub proof fn lemma_scatter_bytes(
        &self,
        before: &AddressSpace,
        after: &AddressSpace,
        ptr: int,
        len: int,
        data: Seq<u8>,
    )
        requires
            before.wf(),
            before.range_mapped(ptr, len),
            self.covers(before, ptr, len),
            data.len() <= len,
            after.page_table@ == before.page_table@,
            after.phys@.len() == before.phys@.len(),
            forall|i: int| 0 <= i < data.len() ==> after.phys@[#[trigger] self.addrs()[i]] == data[i],
            forall|a: int|
                0 <= a < before.phys@.len() && after.phys@[a] != before.phys@[a] ==> exists|i: int|
                    0 <= i < data.len() && #[trigger] self.addrs()[i] == a,
        ensures
            after.wf(),
            after.bytes(ptr, data.len() as int) == data,
            after.same_outside(before, ptr, data.len() as int),
    {
        assert forall|i: int| 0 <= i < data.len() implies #[trigger] after.bytes(
            ptr,
            data.len() as int,
        )[i] == data[i] by {
            assert(self.addrs()[i] == before.phys_addr(ptr + i));
        }
        assert(after.bytes(ptr, data.len() as int) =~= data);
        assert forall|va: int|
            #[trigger] after.mapped(va) && !(ptr <= va < ptr + data.len()) implies after.byte(va)
            == before.byte(va) by {
            before.lemma_phys_in_range(va);
            let pa = before.phys_addr(va);
            if after.phys@[pa] != before.phys@[pa] {
                let i = choose|i: int| 0 <= i < data.len() && #[trigger] self.addrs()[i] == pa;
                assert(before.mapped(ptr + i));
                before.lemma_phys_injective(va, ptr + i);
            }
        }
    }
}

} // verus!
