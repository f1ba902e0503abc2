//! Syscall boundary translator: resolve a user-space pointer through a
//! task's address space into kernel-side physical byte ranges, and copy a
//! fixed-size value into or out of those ranges, splitting the copy across
//! page boundaries when the value straddles them.

use vstd::prelude::*;

use crate::mm::{AddressSpace, PhysMem};
use crate::PAGE_SIZE;

verus! {

/// One writable kernel-side fragment of a translated user byte range:
/// `len` physical bytes starting at physical byte address `start`.
#[derive(Clone, Copy, PartialEq, Eq, Structural, Debug)]
pub struct ByteRange {
    pub start: usize,
    pub len: usize,
}

/// The physical byte addresses a fragment covers, in order.
pub open spec fn range_addrs(f: ByteRange) -> Seq<int> {
    Seq::new(f.len as nat, |i: int| f.start + i)
}

/// The physical byte addresses a fragment sequence covers, concatenated in
/// order.
pub open spec fn frag_addrs(frags: Seq<ByteRange>) -> Seq<int>
    decreases frags.len(),
{
    if frags.len() == 0 {
        Seq::empty()
    } else {
        range_addrs(frags[0]) + frag_addrs(frags.drop_first())
    }
}

proof fn lemma_frag_addrs_push(frags: Seq<ByteRange>, f: ByteRange)
    ensures
        frag_addrs(frags.push(f)) == frag_addrs(frags) + range_addrs(f),
    decreases frags.len(),
{
    if frags.len() == 0 {
        assert(frags.push(f).drop_first() =~= Seq::<ByteRange>::empty());
        assert(frags.push(f)[0] == f);
        assert(frag_addrs(frags.push(f)) == range_addrs(f) + frag_addrs(
            Seq::<ByteRange>::empty(),
        ));
        assert(range_addrs(f) + frag_addrs(Seq::<ByteRange>::empty()) =~= frag_addrs(frags)
            + range_addrs(f));
    } else {
        assert(frags.push(f).drop_first() =~= frags.drop_first().push(f));
        lemma_frag_addrs_push(frags.drop_first(), f);
        assert(frag_addrs(frags.push(f)) =~= frag_addrs(frags) + range_addrs(f));
    }
}

proof fn lemma_frag_addrs_take_succ(frags: Seq<ByteRange>, m: int)
    requires
        0 <= m < frags.len(),
    ensures
        frag_addrs(frags.take(m + 1)) == frag_addrs(frags.take(m)) + range_addrs(frags[m]),
{
    assert(frags.take(m + 1) =~= frags.take(m).push(frags[m]));
    lemma_frag_addrs_push(frags.take(m), frags[m]);
}

proof fn lemma_frag_addrs_prefix(frags: Seq<ByteRange>, m: int)
    requires
        0 <= m <= frags.len(),
    ensures
        frag_addrs(frags).len() >= frag_addrs(frags.take(m)).len(),
        forall|j: int|
            0 <= j < frag_addrs(frags.take(m)).len() ==> frag_addrs(frags)[j] == frag_addrs(
                frags.take(m),
            )[j],
    decreases frags.len() - m,
{
    if m == frags.len() {
        assert(frags.take(m) =~= frags);
    } else {
        lemma_frag_addrs_take_succ(frags, m);
        lemma_frag_addrs_prefix(frags, m + 1);
    }
}

/// The physical byte address a mapped user virtual byte address resolves
/// to.
pub open spec fn phys_addr_of(aspace: AddressSpace, va: int) -> int {
    aspace.translate_page(va / (PAGE_SIZE as int)).unwrap() * (PAGE_SIZE as int) + va % (
    PAGE_SIZE as int)
}

/// Every byte of the user range `[ptr, ptr + size)` lies in a mapped page.
pub open spec fn va_range_mapped(aspace: AddressSpace, ptr: int, size: int) -> bool {
    forall|va: int| ptr <= va < ptr + size ==> aspace.page_mapped(#[trigger] (va / (PAGE_SIZE as int)))
}

/// The physical byte addresses backing the user range `[ptr, ptr + size)`,
/// in order.
pub open spec fn phys_addrs_of(aspace: AddressSpace, ptr: int, size: int) -> Seq<int> {
    Seq::new(size as nat, |i: int| phys_addr_of(aspace, ptr + i))
}

/// A mapped byte's physical address lies inside backed memory.
pub proof fn lemma_phys_addr_in_bounds(aspace: AddressSpace, va: int, frames: int)
    requires
        aspace.wf(),
        aspace.backed_by(frames),
        0 <= va,
        aspace.page_mapped(va / (PAGE_SIZE as int)),
    ensures
        0 <= phys_addr_of(aspace, va) < frames * (PAGE_SIZE as int),
{
    let p = va / (PAGE_SIZE as int);
    let i = choose|i: int|
        0 <= i < aspace.regions.len() && crate::mm::region_contains(#[trigger] aspace.regions[i], p);
    crate::mm::lemma_translate_at(aspace, i, p);
    let ppn = aspace.regions[i].frame_base + (p - aspace.regions[i].start);
    assert(ppn < frames);
    vstd::arithmetic::div_mod::lemma_fundamental_div_mod(va, PAGE_SIZE as int);
    assert(0 <= va % (PAGE_SIZE as int) < (PAGE_SIZE as int));
    assert((ppn + 1) * (PAGE_SIZE as int) <= frames * (PAGE_SIZE as int)) by (nonlinear_arith)
        requires
            ppn + 1 <= frames,
    ;
    assert((ppn + 1) * (PAGE_SIZE as int) == ppn * (PAGE_SIZE as int) + (PAGE_SIZE as int))
        by (nonlinear_arith);
    assert(ppn * (PAGE_SIZE as int) >= 0) by (nonlinear_arith)
        requires
            ppn >= 0,
    ;
}

/// Translation of bytes is injective: distinct mapped virtual byte
/// addresses resolve to distinct physical byte addresses.
pub proof fn lemma_phys_addr_injective(aspace: AddressSpace, va1: int, va2: int)
    requires
        aspace.wf(),
        0 <= va1,
        0 <= va2,
        va1 != va2,
        aspace.page_mapped(va1 / (PAGE_SIZE as int)),
        aspace.page_mapped(va2 / (PAGE_SIZE as int)),
    ensures
        phys_addr_of(aspace, va1) != phys_addr_of(aspace, va2),
{
    let ps = PAGE_SIZE as int;
    let p1 = va1 / ps;
    let p2 = va2 / ps;
    vstd::arithmetic::div_mod::lemma_fundamental_div_mod(va1, ps);
    vstd::arithmetic::div_mod::lemma_fundamental_div_mod(va2, ps);
    if p1 == p2 {
        assert(va1 % ps != va2 % ps);
    } else {
        crate::mm::lemma_translate_injective(aspace, p1, p2);
        let n1 = aspace.translate_page(p1).unwrap();
        let n2 = aspace.translate_page(p2).unwrap();
        assert(n1 != n2);
        if n1 < n2 {
            assert((n1 + 1) * ps <= n2 * ps) by (nonlinear_arith)
                requires
                    n1 + 1 <= n2,
                    ps > 0,
            ;
            assert((n1 + 1) * ps == n1 * ps + ps) by (nonlinear_arith);
        } else {
            assert((n2 + 1) * ps <= n1 * ps) by (nonlinear_arith)
                requires
                    n2 + 1 <= n1,
                    ps > 0,
            ;
            assert((n2 + 1) * ps == n2 * ps + ps) by (nonlinear_arith);
        }
    }
}

/// The backing addresses of a user range never repeat.
pub proof fn lemma_phys_addrs_no_dup(aspace: AddressSpace, ptr: int, size: int)
    requires
        aspace.wf(),
        0 <= ptr,
        0 <= size,
        va_range_mapped(aspace, ptr, size),
    ensures
        phys_addrs_of(aspace, ptr, size).no_duplicates(),
{
    let addrs = phys_addrs_of(aspace, ptr, size);
    assert forall|i: int, j: int| 0 <= i < addrs.len() && 0 <= j < addrs.len() && i != j implies addrs[i]
        != addrs[j] by {
        lemma_phys_addr_injective(aspace, ptr + i, ptr + j);
    }
}

/// Resolve a user pointer to a direct kernel-side physical address, the
/// fast path, possible exactly when the whole byte range lies within one
/// mapped page.
pub fn try_translate_contained(
    aspace: &AddressSpace,
    mem: &PhysMem,
    ptr: usize,
    size: usize,
) -> (r: Option<usize>)
    requires
        aspace.wf(),
        aspace.backed_by(mem.frames()),
        mem.wf(),
        size >= 1,
        ptr + size <= usize::MAX,
    ensures
        r is Some <==> ((ptr as int % (PAGE_SIZE as int)) + size <= (PAGE_SIZE as int)
            && aspace.page_mapped(ptr as int / (PAGE_SIZE as int))),
        match r {
            Some(pa) => {
                &&& forall|i: int| 0 <= i < size ==> #[trigger] phys_addr_of(*aspace, ptr + i) == pa + i
                &&& pa + size <= mem.bytes.len()
            },
            None => true,
        },
{
    let ps = PAGE_SIZE;
    let off = ptr % ps;
    if size > ps || off + size > ps {
        return None;
    }
    let vpn = ptr / ps;
    match aspace.translate(vpn) {
        Some(ppn) => {
            proof {
                vstd::arithmetic::div_mod::lemma_fundamental_div_mod(ptr as int, ps as int);
                lemma_phys_addr_in_bounds(*aspace, ptr as int, mem.frames());
                assert(mem.frames() * (ps as int) == mem.bytes.len()) by {
                    vstd::arithmetic::div_mod::lemma_fundamental_div_mod(
                        mem.bytes.len() as int,
                        ps as int,
                    );
                }
                assert(phys_addr_of(*aspace, ptr as int) == ppn * (ps as int) + off);
                assert forall|i: int| 0 <= i < size implies #[trigger] phys_addr_of(*aspace, ptr + i) == ppn
                    * (ps as int) + off + i by {
                    vstd::arithmetic::div_mod::lemma_fundamental_div_mod_converse(
                        ptr + i,
                        ps as int,
                        vpn as int,
                        off + i,
                    );
                }
            }
            Some(ppn * ps + off)
        },
        None => None,
    }
}

/// Resolve a user byte range into the ordered kernel-side fragments whose
/// concatenation is the range's storage, the slow path for values that may
/// straddle page boundaries.
pub fn translate_spanning(aspace: &AddressSpace, mem: &PhysMem, ptr: usize, size: usize) -> (frags:
    Vec<ByteRange>)
    requires
        aspace.wf(),
        aspace.backed_by(mem.frames()),
        mem.wf(),
        ptr + size <= usize::MAX,
        va_range_mapped(*aspace, ptr as int, size as int),
    ensures
        frag_addrs(frags@) == phys_addrs_of(*aspace, ptr as int, size as int),
        forall|j: int|
            0 <= j < size ==> 0 <= #[trigger] frag_addrs(frags@)[j] < mem.bytes.len(),
{
    let ps = PAGE_SIZE;
    proof {
        vstd::arithmetic::div_mod::lemma_fundamental_div_mod(mem.bytes.len() as int, ps as int);
    }
    let mut frags: Vec<ByteRange> = Vec::new();
    let mut done: usize = 0;
    while done < size
        invariant
            done <= size,
            frag_addrs(frags@) == phys_addrs_of(*aspace, ptr as int, done as int),
            forall|j: int|
                0 <= j < done ==> 0 <= #[trigger] frag_addrs(frags@)[j] < mem.bytes.len(),
        decreases size - done,
    {
        let cur = ptr + done;
        let off = cur % ps;
        let mut chunk = ps - off;
        if chunk > size - done {
            chunk = size - done;
        }
        let vpn = cur / ps;
        let ppn = match aspace.translate(vpn) {
            Some(p) => p,
            None => {
                proof {
                    assert(aspace.page_mapped(cur as int / (ps as int)));
                    assert(false);
                }
                0
            },
        };
        proof {
            vstd::arithmetic::div_mod::lemma_fundamental_div_mod(cur as int, ps as int);
            lemma_phys_addr_in_bounds(*aspace, cur as int, mem.frames());
        }
        let start = ppn * ps + off;
        let f = ByteRange { start, len: chunk };
        let ghost pre = frags@;
        frags.push(f);
        proof {
            lemma_frag_addrs_push(pre, f);
            assert forall|i: int| 0 <= i < chunk implies #[trigger] phys_addr_of(*aspace, cur + i) == start
                + i by {
                vstd::arithmetic::div_mod::lemma_fundamental_div_mod_converse(
                    cur + i,
                    ps as int,
                    vpn as int,
                    off + i,
                );
            }
            assert forall|i: int| 0 <= i < chunk implies 0 <= #[trigger] phys_addr_of(
                *aspace,
                cur + i,
            ) < mem.bytes.len() by {
                lemma_phys_addr_in_bounds(*aspace, cur + i, mem.frames());
            }
            assert(frag_addrs(frags@) =~= phys_addrs_of(
                *aspace,
                ptr as int,
                done + chunk,
            ));
        }
        done = done + chunk;
    }
    frags
}

/// `post` is `pre` with `data` scattered to `addrs`, byte `j` of the value
/// at address `addrs[j]`, and every other byte untouched.
pub open spec fn scatter_post(pre: Seq<u8>, post: Seq<u8>, addrs: Seq<int>, data: Seq<u8>) -> bool {
    &&& post.len() == pre.len()
    &&& forall|j: int| 0 <= j < addrs.len() ==> post[#[trigger] addrs[j]] == data[j]
    &&& forall|a: int| 0 <= a < pre.len() && !addrs.contains(a) ==> post[a] == pre[a]
}

/// `out` gathers the bytes of `mem` at `addrs`, in order.
pub open spec fn gather_post(mem: Seq<u8>, out: Seq<u8>, addrs: Seq<int>) -> bool {
    &&& out.len() == addrs.len()
    &&& forall|j: int| 0 <= j < addrs.len() ==> out[j] == mem[#[trigger] addrs[j]]
}

/// Serialize `data` into the fragment sequence in order, filling each
/// fragment to capacity before advancing to the next.
pub fn copy_into_fragments(mem: &mut PhysMem, frags: &Vec<ByteRange>, data: &Vec<u8>)
    requires
        frag_addrs(frags@).len() == data.len(),
        forall|j: int|
            0 <= j < data.len() ==> 0 <= #[trigger] frag_addrs(frags@)[j] < old(
                mem,
            ).bytes.len(),
        frag_addrs(frags@).no_duplicates(),
    ensures
        scatter_post(old(mem).bytes@, final(mem).bytes@, frag_addrs(frags@), data@),
{
    let ghost addrs = frag_addrs(frags@);
    let nf = frags.len();
    let mut fi: usize = 0;
    let mut t: usize = 0;
    while fi < nf
        invariant
            fi <= nf,
            t == frag_addrs(frags@.take(fi as int)).len(),
            t <= data.len(),
            forall|j: int|
                0 <= j < frag_addrs(frags@.take(fi as int)).len() ==> addrs[j] == frag_addrs(
                    frags@.take(fi as int),
                )[j],
            mem.bytes.len() == old(mem).bytes.len(),
            forall|j: int| 0 <= j < t ==> mem.bytes[#[trigger] addrs[j]] == data[j],
            forall|a: int|
                0 <= a < old(mem).bytes.len() && !addrs.take(t as int).contains(a)
                    ==> mem.bytes[a] == old(mem).bytes[a],
        decreases nf - fi,
    {
        let f = frags[fi];
        proof {
            lemma_frag_addrs_take_succ(frags@, fi as int);
            lemma_frag_addrs_prefix(frags@, fi as int + 1);
            assert(t + f.len <= data.len());
        }
        let mut k: usize = 0;
        while k < f.len
            invariant
                k <= f.len,
                t + f.len <= data.len(),
                forall|j: int|
                    0 <= j < t + f.len ==> addrs[j] == frag_addrs(
                        frags@.take(fi as int + 1),
                    )[j],
                forall|j: int| 0 <= j < t + f.len ==> 0 <= #[trigger] addrs[j] < old(mem).bytes.len(),
                frag_addrs(frags@.take(fi as int + 1)) == frag_addrs(frags@.take(fi as int))
                    + range_addrs(f),
                mem.bytes.len() == old(mem).bytes.len(),
                forall|j: int| 0 <= j < t + k ==> mem.bytes[#[trigger] addrs[j]] == data[j],
                forall|a: int|
                    0 <= a < old(mem).bytes.len() && !addrs.take(t + k as int).contains(a)
                        ==> mem.bytes[a] == old(mem).bytes[a],
            decreases f.len - k,
        {
            proof {
                assert(addrs[t + k as int] == range_addrs(f)[k as int]);
                assert(addrs[t + k as int] == f.start + k);
            }
            mem.write_byte(f.start + k, data[t + k]);
            proof {
                assert forall|j: int| 0 <= j < t + k + 1 implies mem.bytes[#[trigger] addrs[j]]
                    == data[j] by {
                    if j < t + k {
                        assert(addrs[j] != addrs[t + k as int]);
                    }
                }
                assert forall|a: int|
                    0 <= a < old(mem).bytes.len() && !addrs.take(t + k + 1 as int).contains(
                        a,
                    ) implies mem.bytes[a] == old(mem).bytes[a] by {
                    assert(forall|j: int|
                        0 <= j < t + k + 1 ==> addrs.take(t + k + 1 as int)[j] == addrs[j]);
                    assert(a != addrs[t + k as int]) by {
                        assert(addrs.take(t + k + 1 as int)[t + k as int] == addrs[t
                            + k as int]);
                    }
                    assert(!addrs.take(t + k as int).contains(a)) by {
                        if addrs.take(t + k as int).contains(a) {
                            let j = choose|j: int|
                                0 <= j < t + k && #[trigger] addrs.take(t + k as int)[j] == a;
                            assert(addrs.take(t + k + 1 as int)[j] == a);
                        }
                    }
                }
            }
            k = k + 1;
        }
        t = t + f.len;
        fi = fi + 1;
    }
    proof {
        assert(frags@.take(nf as int) =~= frags@);
        assert(addrs.take(t as int) =~= addrs);
    }
}

/// Gather the bytes a fragment sequence covers, in order.
pub fn read_from_fragments(mem: &PhysMem, frags: &Vec<ByteRange>) -> (out: Vec<u8>)
    requires
        forall|j: int|
            0 <= j < frag_addrs(frags@).len() ==> 0 <= #[trigger] frag_addrs(frags@)[j]
                < mem.bytes.len(),
    ensures
        gather_post(mem.bytes@, out@, frag_addrs(frags@)),
{
    let ghost addrs = frag_addrs(frags@);
    let nf = frags.len();
    let mut out: Vec<u8> = Vec::new();
    let mut fi: usize = 0;
    while fi < nf
        invariant
            fi <= nf,
            out.len() == frag_addrs(frags@.take(fi as int)).len(),
            out.len() <= addrs.len(),
            forall|j: int|
                0 <= j < frag_addrs(frags@.take(fi as int)).len() ==> addrs[j] == frag_addrs(
                    frags@.take(fi as int),
                )[j],
            forall|j: int| 0 <= j < out.len() ==> out[j] == mem.bytes[#[trigger] addrs[j]],
        decreases nf - fi,
    {
        let f = frags[fi];
        let ghost t = out.len() as int;
        proof {
            lemma_frag_addrs_take_succ(frags@, fi as int);
            lemma_frag_addrs_prefix(frags@, fi as int + 1);
        }
        let mut k: usize = 0;
        while k < f.len
            invariant
                k <= f.len,
                out.len() == t + k,
                t + f.len <= addrs.len(),
                forall|j: int|
                    0 <= j < t + f.len ==> addrs[j] == frag_addrs(
                        frags@.take(fi as int + 1),
                    )[j],
                forall|j: int| 0 <= j < t + f.len ==> 0 <= #[trigger] addrs[j] < mem.bytes.len(),
                frag_addrs(frags@.take(fi as int + 1)) == frag_addrs(frags@.take(fi as int))
                    + range_addrs(f),
                forall|j: int| 0 <= j < out.len() ==> out[j] == mem.bytes[#[trigger] addrs[j]],
            decreases f.len - k,
        {
            proof {
                assert(addrs[t + k as int] == range_addrs(f)[k as int]);
                assert(addrs[t + k as int] == f.start + k);
            }
            let b = mem.read_byte(f.start + k);
            out.push(b);
            k = k + 1;
        }
        fi = fi + 1;
    }
    proof {
        assert(frags@.take(nf as int) =~= frags@);
    }
    out
}

/// Round trip across the boundary: scattering a value's bytes to a set of
/// addresses and gathering from those same addresses reconstructs the
/// exact original bytes.
pub proof fn lemma_fragment_round_trip(
    pre: Seq<u8>,
    post: Seq<u8>,
    addrs: Seq<int>,
    data: Seq<u8>,
    out: Seq<u8>,
)
    requires
        addrs.len() == data.len(),
        scatter_post(pre, post, addrs, data),
        gather_post(post, out, addrs),
    ensures
        out == data,
{
    assert forall|j: int| 0 <= j < out.len() implies out[j] == data[j] by {
        assert(out[j] == post[addrs[j]]);
        assert(post[addrs[j]] == data[j]);
    }
    assert(out =~= data);
}

} // verus!
