//! User address spaces and the translation of user pointers into
//! kernel-visible memory.
use vstd::arithmetic::div_mod::lemma_fundamental_div_mod;
use vstd::arithmetic::div_mod::lemma_fundamental_div_mod_converse;
use vstd::prelude::*;

verus! {

/// Size of one page and of one physical frame, in bytes.
pub const PAGE_SIZE: usize = 4096;

/// One process's view of memory: a page table from virtual page numbers to
/// physical frame numbers, over the physical memory that holds the frames.
pub struct AddressSpace {
    /// `page_table[vpn]` is the frame that virtual page `vpn` maps to.
    pub page_table: Vec<Option<usize>>,
    /// Physical memory; frame `f` occupies `[f * PAGE_SIZE, (f + 1) * PAGE_SIZE)`.
    pub phys: Vec<u8>,
}

/// The page size as a mathematical integer.
pub open spec fn ps() -> int {
    PAGE_SIZE as int
}

/// Proves that the virtual address `va` lies in page `va / PAGE_SIZE` at offset
/// `va % PAGE_SIZE`, and that a page and an offset name one address.
pub proof fn lemma_page_split(va: int)
    requires
        0 <= va,
    ensures
        va == (va / ps()) * ps() + va % ps(),
        0 <= va % ps() < ps(),
        0 <= va / ps(),
{
    lemma_fundamental_div_mod(va, ps());
}

/// Proves that the address at offset `off` of page `vpn` has that page and that offset.
pub proof fn lemma_page_join(vpn: int, off: int)
    requires
        0 <= off < ps(),
    ensures
        (vpn * ps() + off) / ps() == vpn,
        (vpn * ps() + off) % ps() == off,
{
    lemma_fundamental_div_mod_converse(vpn * ps() + off, ps(), vpn, off);
}

/// A table of at most `vpn + 1` pages fits the address range when `vpn` is
/// below `usize::MAX / PAGE_SIZE`.
proof fn lemma_table_fits(len: int, vpn: int)
    requires
        0 <= len <= vpn + 1,
        0 <= vpn < usize::MAX as int / ps(),
    ensures
        len * ps() <= usize::MAX,
{
    lemma_fundamental_div_mod(usize::MAX as int, ps());
    assert(len * ps() <= (usize::MAX as int / ps()) * ps()) by (nonlinear_arith)
        requires
            len <= usize::MAX as int / ps(),
            ps() > 0,
    ;
}

impl AddressSpace {
    /// Well-formed: each mapped frame lies inside physical memory, no two pages
    /// share a frame, and every virtual address fits in a `usize`.
    pub open spec fn wf(&self) -> bool {
        &&& self.page_table@.len() * PAGE_SIZE <= usize::MAX
        &&& self.phys@.len() as int % ps() == 0
        &&& self.phys@.len() <= usize::MAX
        &&& forall|v: int|
            0 <= v < self.page_table@.len() && (#[trigger] self.page_table@[v]).is_some()
                ==> self.page_table@[v].unwrap() * PAGE_SIZE + PAGE_SIZE <= self.phys@.len()
        &&& forall|v: int, w: int|
            0 <= v < self.page_table@.len() && 0 <= w < self.page_table@.len() && v != w
                && (#[trigger] self.page_table@[v]).is_some()
                && (#[trigger] self.page_table@[w]).is_some()
                ==> self.page_table@[v].unwrap() != self.page_table@[w].unwrap()
    }

    /// The virtual address `va` falls in a mapped page.
    pub open spec fn mapped(&self, va: int) -> bool {
        &&& 0 <= va
        &&& va / ps() < self.page_table@.len()
        &&& self.page_table@[va / ps()].is_some()
    }

    /// The physical address that the virtual address `va` translates to.
    pub open spec fn phys_addr(&self, va: int) -> int {
        self.page_table@[va / ps()].unwrap() * ps() + va % ps()
    }

    /// The byte that the process sees at virtual address `va`.
    pub open spec fn byte(&self, va: int) -> u8 {
        self.phys@[self.phys_addr(va)]
    }

    /// Every address of `[ptr, ptr + len)` is mapped.
    pub open spec fn range_mapped(&self, ptr: int, len: int) -> bool {
        forall|va: int| ptr <= va < ptr + len ==> #[trigger] self.mapped(va)
    }

    /// The `len` bytes that the process sees from `ptr` on.
    pub open spec fn bytes(&self, ptr: int, len: int) -> Seq<u8> {
        Seq::new(len as nat, |i: int| self.byte(ptr + i))
    }

    /// `self` maps the same pages as `other` and shows the same bytes,
    /// except possibly in `[ptr, ptr + len)`.
    pub open spec fn same_outside(&self, other: &AddressSpace, ptr: int, len: int) -> bool {
        &&& self.page_table@ == other.page_table@
        &&& self.phys@.len() == other.phys@.len()
        &&& forall|va: int|
            #[trigger] self.mapped(va) && !(ptr <= va < ptr + len) ==> self.byte(va) == other.byte(va)
    }

    /// A NUL-terminated string of `n` bytes (the NUL not counted) starts at `ptr`.
    pub open spec fn c_str_at(&self, ptr: int, n: int) -> bool {
        &&& 0 <= n
        &&& self.range_mapped(ptr, n + 1)
        &&& self.byte(ptr + n) == 0
        &&& forall|i: int| 0 <= i < n ==> #[trigger] self.byte(ptr + i) != 0
    }

    /// A NUL-terminated string starts at `ptr`, in mapped memory.
    pub open spec fn has_c_str(&self, ptr: int) -> bool {
        exists|n: int| self.c_str_at(ptr, n)
    }

    /// The string that starts at `ptr`, without its NUL.
    pub open spec fn c_str(&self, ptr: int) -> Seq<u8> {
        self.bytes(ptr, choose|n: int| self.c_str_at(ptr, n))
    }

    /// A mapped address translates into physical memory.
    pub proof fn lemma_phys_in_range(&self, va: int)
        requires
            self.wf(),
            self.mapped(va),
        ensures
            0 <= self.phys_addr(va) < self.phys@.len(),
            self.phys_addr(va) / ps() == self.page_table@[va / ps()].unwrap(),
            self.phys_addr(va) % ps() == va % ps(),
    {
        lemma_page_split(va);
        let f = self.page_table@[va / ps()].unwrap() as int;
        lemma_page_join(f, va % ps());
    }

    /// Two mapped addresses that translate to one physical address are equal.
    pub proof fn lemma_phys_injective(&self, va: int, vb: int)
        requires
            self.wf(),
            self.mapped(va),
            self.mapped(vb),
            self.phys_addr(va) == self.phys_addr(vb),
        ensures
            va == vb,
    {
        self.lemma_phys_in_range(va);
        self.lemma_phys_in_range(vb);
        lemma_page_split(va);
        lemma_page_split(vb);
    }

    /// A mapped address lies below the end of the addressable range.
    pub proof fn lemma_mapped_bound(&self, va: int)
        requires
            self.wf(),
            self.mapped(va),
        ensures
            va < self.page_table@.len() * ps(),
            va < usize::MAX,
    {
        lemma_page_split(va);
    }

    /// Addresses of one page at offsets `off` and `off + j` translate `j` apart.
    pub proof fn lemma_same_page(&self, va: int, j: int)
        requires
            self.wf(),
            self.mapped(va),
            0 <= j,
            va % ps() + j < ps(),
        ensures
            self.mapped(va + j),
            self.phys_addr(va + j) == self.phys_addr(va) + j,
    {
        lemma_page_split(va);
        lemma_page_join(va / ps(), va % ps() + j);
        assert(va + j == (va / ps()) * ps() + (va % ps() + j));
    }

    /// An empty address space over no physical memory.
    pub fn new() -> (r: AddressSpace)
        ensures
            r.wf(),
            r.page_table@.len() == 0,
            r.phys@.len() == 0,
    {
        proof {
            lemma_page_join(0, 0);
        }
        AddressSpace { page_table: Vec::new(), phys: Vec::new() }
    }

    /// Maps virtual page `vpn` to a fresh zero-filled frame, returning `true`,
    /// or returns `false` and changes nothing where `vpn` is already mapped or
    /// lies beyond the addressable range.
    pub fn map_page(&mut self, vpn: usize) -> (ok: bool)
        requires
            old(self).wf(),
        ensures
            final(self).wf(),
            ok == (old(self).phys@.len() + PAGE_SIZE <= usize::MAX && (vpn + 1) * PAGE_SIZE
                <= usize::MAX && !(vpn < old(self).page_table@.len()
                && old(self).page_table@[vpn as int].is_some())),
            !ok ==> *final(self) == *old(self),
            ok ==> forall|va: int|
                #[trigger] final(self).mapped(va) == (old(self).mapped(va) || va / ps()
                    == vpn),
            ok ==> forall|va: int|
                #[trigger] final(self).mapped(va) ==> final(self).byte(va) == if va / ps()
                    == vpn {
                    0u8
                } else {
                    old(self).byte(va)
                },
    {
        if vpn < self.page_table.len() && self.page_table[vpn].is_some() {
            return false;
        }
        if self.phys.len() > usize::MAX - PAGE_SIZE || vpn >= usize::MAX / PAGE_SIZE {
            return false;
        }
        let frame = self.phys.len() / PAGE_SIZE;
        let ghost old_space = *self;
        proof {
            lemma_fundamental_div_mod(usize::MAX as int, ps());
        }
        let mut i: usize = 0;
        while i < PAGE_SIZE
            invariant
                0 <= i <= PAGE_SIZE,
                self.page_table@ == old_space.page_table@,
                self.phys@.len() == old_space.phys@.len() + i,
                forall|a: int| 0 <= a < old_space.phys@.len() ==> self.phys@[a] == old_space.phys@[a],
                forall|a: int|
                    old_space.phys@.len() <= a < self.phys@.len() ==> self.phys@[a] == 0u8,
                old_space.phys@.len() + PAGE_SIZE <= usize::MAX,
            decreases PAGE_SIZE - i,
        {
            self.phys.push(0u8);
            i = i + 1;
        }
        let ghost filled = self.phys@;
        while self.page_table.len() <= vpn
            invariant
                self.phys@ == filled,
                self.page_table@.len() <= vpn + 1 || self.page_table@.len()
                    == old_space.page_table@.len(),
                forall|v: int|
                    0 <= v < old_space.page_table@.len() ==> self.page_table@[v]
                        == old_space.page_table@[v],
                forall|v: int|
                    old_space.page_table@.len() <= v < self.page_table@.len()
                        ==> self.page_table@[v].is_none(),
                old_space.page_table@.len() <= self.page_table@.len(),
            decreases vpn + 1 - self.page_table@.len(),
        {
            self.page_table.push(None);
        }
        self.page_table.set(vpn, Some(frame));
        proof {
            assert(frame * PAGE_SIZE == old_space.phys@.len()) by {
                lemma_fundamental_div_mod(old_space.phys@.len() as int, ps());
            }
            lemma_page_join(frame + 1, 0);
            if self.page_table@.len() <= vpn + 1 {
                lemma_fundamental_div_mod(usize::MAX as int, ps());
                lemma_table_fits(self.page_table@.len() as int, vpn as int);
            }
            assert forall|v: int|
                0 <= v < self.page_table@.len() && (#[trigger] self.page_table@[v]).is_some()
                    implies self.page_table@[v].unwrap() * PAGE_SIZE + PAGE_SIZE
                    <= self.phys@.len() by {
                if v != vpn {
                    assert(old_space.page_table@[v].is_some());
                }
            }
            assert forall|v: int, w: int|
                0 <= v < self.page_table@.len() && 0 <= w < self.page_table@.len() && v != w
                    && (#[trigger] self.page_table@[v]).is_some()
                    && (#[trigger] self.page_table@[w]).is_some()
                    implies self.page_table@[v].unwrap() != self.page_table@[w].unwrap() by {
                if v != vpn {
                    assert(old_space.page_table@[v].is_some());
                }
                if w != vpn {
                    assert(old_space.page_table@[w].is_some());
                }
            }
            assert forall|va: int| #[trigger] self.mapped(va) implies self.byte(va) == if va
                / ps() == vpn {
                0u8
            } else {
                old_space.byte(va)
            } by {
                lemma_page_split(va);
                if va / ps() != vpn {
                    assert(old_space.mapped(va));
                    old_space.lemma_phys_in_range(va);
                    assert(self.phys_addr(va) == old_space.phys_addr(va));
                } else {
                    assert(self.phys_addr(va) == frame * PAGE_SIZE + va % ps());
                }
            }
        }
        true
    }
}


impl AddressSpace {
    /// Translates the mapped address `va` to its physical address.
    pub fn translate(&self, va: usize) -> (pa: usize)
        requires
            self.wf(),
            self.mapped(va as int),
        ensures
            pa == self.phys_addr(va as int),
            pa < self.phys@.len(),
    {
        proof {
            self.lemma_phys_in_range(va as int);
            lemma_page_split(va as int);
        }
        let frame = self.page_table[va / PAGE_SIZE].unwrap();
        assert(frame * PAGE_SIZE + PAGE_SIZE <= self.phys@.len());
        frame * PAGE_SIZE + va % PAGE_SIZE
    }

    /// The byte that the process sees at the mapped address `va`.
    pub fn read_byte(&self, va: usize) -> (b: u8)
        requires
            self.wf(),
            self.mapped(va as int),
        ensures
            b == self.byte(va as int),
    {
        let pa = self.translate(va);
        self.phys[pa]
    }

    /// Copies the NUL-terminated string at `ptr` into the kernel, without its NUL.
    pub fn translated_str(&self, ptr: usize) -> (s: Vec<u8>)
        requires
            self.wf(),
            self.has_c_str(ptr as int),
        ensures
            s@ == self.c_str(ptr as int),
    {
        let ghost n = choose|n: int| self.c_str_at(ptr as int, n);
        let mut out: Vec<u8> = Vec::new();
        let mut i: usize = 0;
        loop
            invariant
                self.wf(),
                self.c_str_at(ptr as int, n),
                0 <= i <= n,
                out@ == self.bytes(ptr as int, i as int),
            ensures
                out@ == self.bytes(ptr as int, n),
            decreases n - i,
        {
            proof {
                assert(self.mapped(ptr + i));
                self.lemma_mapped_bound(ptr + i);
            }
            let b = self.read_byte(ptr + i);
            if b == 0 {
                break;
            }
            out.push(b);
            i = i + 1;
            assert(out@ =~= self.bytes(ptr as int, i as int));
        }
        out
    }

    /// Writes `data` at `ptr`, a value that lies within one mapped page.
    pub fn write_value(&mut self, ptr: usize, data: &Vec<u8>)
        requires
            old(self).wf(),
            old(self).mapped(ptr as int),
            ptr as int % ps() + data@.len() <= ps(),
        ensures
            final(self).wf(),
            final(self).bytes(ptr as int, data@.len() as int) == data@,
            final(self).same_outside(old(self), ptr as int, data@.len() as int),
    {
        let pa = self.translate(ptr);
        let ghost before = *self;
        proof {
            before.lemma_phys_in_range(ptr as int);
            lemma_page_split(ptr as int);
            lemma_page_split(pa as int);
            let f = before.page_table@[ptr as int / ps()].unwrap();
            assert(f * PAGE_SIZE + PAGE_SIZE <= before.phys@.len());
            assert(pa + data@.len() <= before.phys@.len());
        }
        let mut i: usize = 0;
        while i < data.len()
            invariant
                before.wf(),
                self.page_table@ == before.page_table@,
                self.phys@.len() == before.phys@.len(),
                pa as int % ps() == ptr as int % ps(),
                pa == before.phys_addr(ptr as int),
                pa + data@.len() <= self.phys@.len(),
                0 <= i <= data@.len(),
                forall|j: int| 0 <= j < i ==> self.phys@[pa + j] == data@[j],
                forall|a: int|
                    0 <= a < self.phys@.len() && !(pa <= a < pa + i) ==> self.phys@[a]
                        == before.phys@[a],
            decreases data@.len() - i,
        {
            self.phys.set(pa + i, data[i]);
            i = i + 1;
        }
        proof {
            assert forall|j: int| 0 <= j < data@.len() implies #[trigger] self.bytes(
                ptr as int,
                data@.len() as int,
            )[j] == data@[j] by {
                before.lemma_same_page(ptr as int, j);
            }
            assert(self.bytes(ptr as int, data@.len() as int) =~= data@);
            assert forall|va: int|
                #[trigger] self.mapped(va) && !(ptr <= va < ptr + data@.len()) implies self.byte(va)
                == before.byte(va) by {
                before.lemma_phys_in_range(va);
                let q = before.phys_addr(va);
                if pa <= q < pa + data@.len() {
                    before.lemma_same_page(ptr as int, q - pa);
                    before.lemma_phys_injective(va, ptr + (q - pa));
                }
            }
        }
    }
}

} // verus!
