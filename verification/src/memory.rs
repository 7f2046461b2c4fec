//! The copy of a module's read-only memory that is patched: which regions are
//! read, where each one's bytes sit in the copy, and where they go back.
use vstd::prelude::*;

verus! {

use crate::dxcontainer::{computes, patch_recursive, scan_from, scan_ok, ScanOutcome};
use crate::error::Error;
use crate::BinaryPatcher;

/// The state of a region whose pages are committed.
pub const MEM_COMMIT: u32 = 0x1000;

/// The protection of a region whose pages are read-only.
pub const PAGE_READONLY: u32 = 0x02;

/// The protection of a region whose pages can be read and written.
pub const PAGE_READWRITE: u32 = 0x04;

/// What a memory query tells of one region of the target process.
#[derive(Debug, Clone, Copy, PartialEq, Eq)]
pub struct RegionInfo {
    pub base_address: usize,
    pub region_size: usize,
    pub state: u32,
    pub protect: u32,
}

/// Where the bytes of one recorded region sit in the copy, and the region.
#[derive(Debug, Clone, Copy, PartialEq, Eq)]
pub struct RegionWrite {
    pub info: RegionInfo,
    pub start: usize,
    pub end: usize,
}

/// Where the bytes of region `i` start in the copy: the sizes of the regions
/// recorded before it, added up.
pub open spec fn region_start(regions: Seq<RegionInfo>, i: int) -> nat
    decreases i,
{
    if i <= 0 {
        0
    } else {
        region_start(regions, i - 1) + regions[i - 1].region_size as nat
    }
}

/// Whether a region is read: committed and read-only.
pub open spec fn is_wanted(info: RegionInfo) -> bool {
    info.state == MEM_COMMIT && info.protect == PAGE_READONLY
}

/// One region as the read loop met it: what the query told, the bytes read
/// from it (none for a region that is not read) and how many were read.
#[derive(Debug, PartialEq, Eq)]
pub struct RegionRead {
    pub info: RegionInfo,
    pub bytes: Vec<u8>,
    pub bytes_read: usize,
}

/// The regions among `reads` that are read, in order.
pub open spec fn wanted_regions(reads: Seq<RegionRead>) -> Seq<RegionInfo> {
    reads.filter(|x: RegionRead| is_wanted(x.info)).map_values(|x: RegionRead| x.info)
}

/// The bytes of the regions among `reads` that are read, one after another.
pub open spec fn wanted_bytes(reads: Seq<RegionRead>) -> Seq<u8>
    decreases reads.len(),
{
    if reads.len() == 0 {
        Seq::empty()
    } else if is_wanted(reads.last().info) {
        wanted_bytes(reads.drop_last()) + reads.last().bytes@
    } else {
        wanted_bytes(reads.drop_last())
    }
}

/// Whether every region among `reads` that is read was read in full.
pub open spec fn full_reads(reads: Seq<RegionRead>) -> bool {
    forall|k: int|
        0 <= k < reads.len() && is_wanted(#[trigger] reads[k].info) ==> reads[k].bytes_read
            == reads[k].info.region_size
}

proof fn lemma_wanted_step(reads: Seq<RegionRead>, i: int)
    requires
        0 <= i < reads.len(),
    ensures
        wanted_regions(reads.take(i + 1)) == if is_wanted(reads[i].info) {
            wanted_regions(reads.take(i)).push(reads[i].info)
        } else {
            wanted_regions(reads.take(i))
        },
        wanted_bytes(reads.take(i + 1)) == if is_wanted(reads[i].info) {
            wanted_bytes(reads.take(i)) + reads[i].bytes@
        } else {
            wanted_bytes(reads.take(i))
        },
{
    assert(reads.take(i + 1).drop_last() =~= reads.take(i));
    assert(reads.take(i + 1).last() == reads[i]);
    let p = |x: RegionRead| is_wanted(x.info);
    let f = |x: RegionRead| x.info;
    let t = reads.take(i + 1);
    reveal(Seq::filter);
    assert(t.filter(p) == if p(t.last()) {
        t.drop_last().filter(p).push(t.last())
    } else {
        t.drop_last().filter(p)
    });
    if is_wanted(reads[i].info) {
        assert(reads.take(i + 1).filter(p) == reads.take(i).filter(p).push(reads[i]));
        assert(reads.take(i + 1).filter(p).map_values(f) =~= reads.take(i).filter(p).map_values(
            f,
        ).push(reads[i].info));
    } else {
        assert(reads.take(i + 1).filter(p) == reads.take(i).filter(p));
    }
}

/// A module of a target process, the regions read from it and the copy of
/// their bytes.
pub struct ShaderPatcher {
    module_addr: usize,
    module_size: u32,
    page_infos: Vec<RegionInfo>,
    memory: Vec<u8>,
}

proof fn lemma_region_start_monotone(regions: Seq<RegionInfo>, i: int, j: int)
    requires
        0 <= i <= j <= regions.len(),
    ensures
        region_start(regions, i) <= region_start(regions, j),
    decreases j - i,
{
    if i < j {
        lemma_region_start_monotone(regions, i, j - 1);
    }
}

proof fn lemma_region_start_push(regions: Seq<RegionInfo>, info: RegionInfo, i: int)
    requires
        0 <= i <= regions.len(),
    ensures
        region_start(regions.push(info), i) == region_start(regions, i),
    decreases i,
{
    if i > 0 {
        lemma_region_start_push(regions, info, i - 1);
    }
}

proof fn lemma_wanted_bytes_prefix(reads: Seq<RegionRead>, i: int)
    requires
        0 <= i <= reads.len(),
    ensures
        wanted_bytes(reads.take(i)).len() <= wanted_bytes(reads).len(),
    decreases reads.len() - i,
{
    if i < reads.len() {
        lemma_wanted_bytes_prefix(reads, i + 1);
        lemma_wanted_step(reads, i);
    } else {
        assert(reads.take(i) =~= reads);
    }
}

impl ShaderPatcher {
    /// The address where the module starts.
    pub closed spec fn module_addr(self) -> usize {
        self.module_addr
    }

    /// The size of the module in bytes.
    pub closed spec fn module_size(self) -> u32 {
        self.module_size
    }

    /// The regions recorded, in the order they were read.
    pub closed spec fn regions(self) -> Seq<RegionInfo> {
        self.page_infos@
    }

    /// The copy of the bytes read.
    pub closed spec fn memory(self) -> Seq<u8> {
        self.memory@
    }

    /// The module ends inside the address space, and the bytes of every
    /// recorded region lie inside the copy.
    pub open spec fn wf(self) -> bool {
        &&& self.module_addr() + self.module_size() <= usize::MAX
        &&& region_start(self.regions(), self.regions().len() as int) <= self.memory().len()
    }

    /// The patcher of a module that starts at `module_addr` and is
    /// `module_size` bytes long, with nothing read yet.
    pub fn new(module_addr: usize, module_size: u32) -> (r: Self)
        requires
            module_addr + module_size <= usize::MAX,
        ensures
            r.wf(),
            r.module_addr() == module_addr,
            r.module_size() == module_size,
            r.regions() == Seq::<RegionInfo>::empty(),
            r.memory() == Seq::<u8>::empty(),
    {
        ShaderPatcher { module_addr, module_size, page_infos: Vec::new(), memory: Vec::new() }
    }

    /// The address `mem_offset` bytes into the module, to query; fails when
    /// that is past the module's end.
    pub fn mempage_address(&self, mem_offset: usize) -> (r: Result<usize, Error>)
        requires
            self.wf(),
        ensures
            mem_offset < self.module_size() ==> r == Ok::<usize, Error>(
                (self.module_addr() + mem_offset) as usize,
            ),
            mem_offset >= self.module_size() ==> r == Err::<usize, Error>(
                Error::AddressBeyondModule,
            ),
    {
        if mem_offset >= self.module_size as usize {
            Err(Error::AddressBeyondModule)
        } else {
            Ok(self.module_addr + mem_offset)
        }
    }

    /// The offset of the region that follows one of `region_size` bytes at
    /// `mem_offset`: the read loop queries there next. `None` when it would
    /// not fit in a `usize`.
    pub fn next_offset(mem_offset: usize, region_size: usize) -> (r: Option<usize>)
        ensures
            mem_offset + region_size <= usize::MAX ==> r == Some((mem_offset + region_size) as usize),
            mem_offset + region_size > usize::MAX ==> r is None,
    {
        mem_offset.checked_add(region_size)
    }

    /// Whether the read loop goes on past `read`: it stops at a region that
    /// is read and was not read in full.
    pub fn keeps_reading(read: &RegionRead) -> (r: bool)
        ensures
            r == !(is_wanted(read.info) && read.bytes_read != read.info.region_size),
    {
        !(Self::wants_region(&read.info) && read.bytes_read != read.info.region_size)
    }

    /// Whether the copy is written back to the process after patching: only
    /// when some shader was patched. A run that patched none is a failure.
    pub fn writes_back(patched: usize) -> (r: bool)
        ensures
            r == (patched > 0),
    {
        patched > 0
    }

    /// Whether the region is one to read: committed and read-only.
    pub fn wants_region(info: &RegionInfo) -> (r: bool)
        ensures
            r == is_wanted(*info),
            r == (info.state == 0x1000u32 && info.protect == 0x02u32),
    {
        info.state == MEM_COMMIT && info.protect == PAGE_READONLY
    }

    /// Appends the bytes read from a region to the copy. The region is
    /// recorded when all of its bytes were read; else the read is reported as
    /// partial.
    pub fn record_region(&mut self, info: RegionInfo, bytes: Vec<u8>, bytes_read: usize) -> (r:
        Result<(), Error>)
        requires
            old(self).wf(),
            bytes@.len() == info.region_size,
            old(self).memory().len() + bytes@.len() <= usize::MAX,
        ensures
            final(self).wf(),
            final(self).module_addr() == old(self).module_addr(),
            final(self).module_size() == old(self).module_size(),
            final(self).memory() == old(self).memory() + bytes@,
            bytes_read == info.region_size ==> r is Ok && final(self).regions() == old(
                self,
            ).regions().push(info),
            bytes_read != info.region_size ==> r == Err::<(), Error>(
                Error::PartialMemoryRead(bytes_read, info.region_size),
            ) && final(self).regions() == old(self).regions(),
    {
        let mut bytes = bytes;
        let ghost regions = self.page_infos@;
        self.memory.append(&mut bytes);
        if bytes_read != info.region_size {
            return Err(Error::PartialMemoryRead(bytes_read, info.region_size));
        }
        self.page_infos.push(info);
        proof {
            lemma_region_start_push(regions, info, regions.len() as int);
        }
        Ok(())
    }

    /// Records, in order, the regions the read loop met: each region that is
    /// read (see `wants_region`) is recorded with its bytes, the others are
    /// passed over. Stops at the first region that was not read in full, with
    /// its bytes appended but the region not recorded, and reports the
    /// partial read. When the copy held exactly the bytes of the regions
    /// recorded before, it still does.
    pub fn record_regions(&mut self, reads: Vec<RegionRead>) -> (r: Result<(), Error>)
        requires
            old(self).wf(),
            forall|k: int|
                0 <= k < reads@.len() && is_wanted(#[trigger] reads@[k].info) ==> reads@[k].bytes@.len()
                    == reads@[k].info.region_size,
            old(self).memory().len() + wanted_bytes(reads@).len() <= usize::MAX,
        ensures
            final(self).wf(),
            final(self).module_addr() == old(self).module_addr(),
            final(self).module_size() == old(self).module_size(),
            full_reads(reads@) ==> {
                &&& r is Ok
                &&& final(self).regions() == old(self).regions() + wanted_regions(reads@)
                &&& final(self).memory() == old(self).memory() + wanted_bytes(reads@)
            },
            !full_reads(reads@) ==> exists|k: int|
                {
                    &&& 0 <= k < reads@.len()
                    &&& is_wanted(#[trigger] reads@[k].info)
                    &&& reads@[k].bytes_read != reads@[k].info.region_size
                    &&& full_reads(reads@.take(k))
                    &&& r == Err::<(), Error>(
                        Error::PartialMemoryRead(reads@[k].bytes_read, reads@[k].info.region_size),
                    )
                    &&& final(self).regions() == old(self).regions() + wanted_regions(reads@.take(k))
                    &&& final(self).memory() == old(self).memory() + wanted_bytes(
                        reads@.take(k + 1),
                    )
                },
            region_start(old(self).regions(), old(self).regions().len() as int) == old(
                self,
            ).memory().len() && r is Ok ==> region_start(
                final(self).regions(),
                final(self).regions().len() as int,
            ) == final(self).memory().len(),
    {
        let ghost all = reads@;
        let ghost regions0 = self.regions();
        let ghost memory0 = self.memory();
        let n = reads.len();
        let mut i: usize = 0;
        for read in it: reads.into_iter()
            invariant
                it.seq() == all,
                all == reads@,
                regions0 == old(self).regions(),
                memory0 == old(self).memory(),
                n == all.len(),
                i == it.index(),
                self.wf(),
                self.module_addr() == old(self).module_addr(),
                self.module_size() == old(self).module_size(),
                forall|k: int|
                    0 <= k < all.len() && is_wanted(#[trigger] all[k].info) ==> all[k].bytes@.len()
                        == all[k].info.region_size,
                memory0.len() + wanted_bytes(all).len() <= usize::MAX,
                full_reads(all.take(i as int)),
                self.regions() == regions0 + wanted_regions(all.take(i as int)),
                self.memory() == memory0 + wanted_bytes(all.take(i as int)),
                region_start(regions0, regions0.len() as int) == memory0.len() ==> region_start(
                    self.regions(),
                    self.regions().len() as int,
                ) == self.memory().len(),
        {
            proof {
                lemma_wanted_step(all, i as int);
                lemma_wanted_bytes_prefix(all, i + 1);
            }
            let ghost before_regions = self.regions();
            if Self::wants_region(&read.info) {
                let info = read.info;
                let bytes_read = read.bytes_read;
                let res = self.record_region(info, read.bytes, bytes_read);
                if res.is_err() {
                    proof {
                        assert(read == all[i as int]);
                        assert(self.memory() =~= memory0 + wanted_bytes(all.take(i + 1)));
                        assert(is_wanted(all[i as int].info));
                        assert(!full_reads(all));
                    }
                    return res;
                }
                proof {
                    lemma_region_start_push(before_regions, info, before_regions.len() as int);
                }
            }
            proof {
                assert forall|k: int|
                    0 <= k < all.take(i + 1).len() && is_wanted(
                        #[trigger] all.take(i + 1)[k].info,
                    ) implies all.take(i + 1)[k].bytes_read == all.take(i + 1)[k].info.region_size by {
                    if k < i {
                        assert(all.take(i + 1)[k] == all.take(i as int)[k]);
                    }
                }
            }
            i = i + 1;
        }
        proof {
            assert(all.take(n as int) =~= all);
        }
        Ok(())
    }

    /// The copy of the bytes read.
    pub fn view_memory(&self) -> (r: &[u8])
        ensures
            r@ == self.memory(),
    {
        self.memory.as_slice()
    }

    /// The recorded regions, each with where its bytes sit in the copy, in the
    /// order they were read.
    pub fn commit_plan(&self) -> (r: Vec<RegionWrite>)
        requires
            self.wf(),
        ensures
            r@.len() == self.regions().len(),
            forall|i: int|
                0 <= i < r@.len() ==> {
                    &&& (#[trigger] r@[i]).info == self.regions()[i]
                    &&& r@[i].start == region_start(self.regions(), i)
                    &&& r@[i].end == region_start(self.regions(), i + 1)
                    &&& r@[i].end <= self.memory().len()
                },
    {
        let n = self.page_infos.len();
        let mlen = self.memory.len();
        let mut plan: Vec<RegionWrite> = Vec::new();
        let mut mem_offset: usize = 0;
        let mut i: usize = 0;
        while i < n
            invariant
                n == self.regions().len(),
                mlen == self.memory().len(),
                self.wf(),
                i <= n,
                mem_offset == region_start(self.regions(), i as int),
                plan@.len() == i,
                forall|k: int|
                    0 <= k < i ==> {
                        &&& (#[trigger] plan@[k]).info == self.regions()[k]
                        &&& plan@[k].start == region_start(self.regions(), k)
                        &&& plan@[k].end == region_start(self.regions(), k + 1)
                        &&& plan@[k].end <= self.memory().len()
                    },
            decreases n - i,
        {
            let info = self.page_infos[i];
            proof {
                lemma_region_start_monotone(self.regions(), i + 1, n as int);
                assert(region_start(self.regions(), i + 1) == region_start(self.regions(), i as int)
                    + info.region_size);
            }
            let next_offset = mem_offset + info.region_size;
            plan.push(RegionWrite { info, start: mem_offset, end: next_offset });
            mem_offset = next_offset;
            i = i + 1;
        }
        plan
    }

    /// Patches the shaders in the copy with `patcher`, recursing into their
    /// data (see `patch_recursive`), and gives back how many count as
    /// patched.
    pub fn patch_shaders<T: BinaryPatcher, F: Fn(&[u8]) -> u128>(
        &mut self,
        patcher: &T,
        checksum: &F,
    ) -> (r: Result<usize, Error>)
        requires
            old(self).wf(),
            scan_ok(old(self).memory(), true),
            forall|d: &[u8]| #[trigger] checksum.requires((d,)),
        ensures
            final(self).wf(),
            final(self).module_addr() == old(self).module_addr(),
            final(self).module_size() == old(self).module_size(),
            final(self).regions() == old(self).regions(),
            final(self).memory().len() == old(self).memory().len(),
            forall|h: spec_fn(Seq<u8>) -> u128| #[trigger]
                computes(*checksum, h) ==> match scan_from(
                    old(self).memory(),
                    0,
                    true,
                    *patcher,
                    h,
                ) {
                    Ok((t, _, patched)) => r == Ok::<usize, Error>(patched as usize)
                        && final(self).memory() == t,
                    Err((t, e)) => r == Err::<usize, Error>(e) && final(self).memory() == t,
                },
    {
        let res = patch_recursive(self.memory.as_mut_slice(), patcher, true, checksum);
        match res {
            Ok((_found, patched)) => Ok(patched),
            Err(e) => Err(e),
        }
    }
}

/// Law: the bytes of a region that was read back in full sit, in the copy,
/// where the commit plan puts that region, as long as the copy held exactly
/// the regions recorded before: what is written back of a region is what was
/// read from it.
pub proof fn lemma_region_read_back(
    regions: Seq<RegionInfo>,
    memory: Seq<u8>,
    info: RegionInfo,
    bytes: Seq<u8>,
)
    requires
        region_start(regions, regions.len() as int) == memory.len(),
        bytes.len() == info.region_size,
    ensures
        ({
            let regions2 = regions.push(info);
            let memory2 = memory + bytes;
            let i = regions.len() as int;
            &&& region_start(regions2, i) == memory.len()
            &&& region_start(regions2, i + 1) == memory2.len()
            &&& memory2.subrange(
                region_start(regions2, i) as int,
                region_start(regions2, i + 1) as int,
            ) == bytes
        }),
{
    lemma_region_start_push(regions, info, regions.len() as int);
    let memory2 = memory + bytes;
    assert(memory2.subrange(memory.len() as int, memory2.len() as int) =~= bytes);
}

/// Law: the regions read are exactly those whose state is committed
/// (`MEM_COMMIT`, `0x1000`) and whose protection is read-only and nothing
/// else (`PAGE_READONLY`, `0x02`): not executable code, not writable data.
pub proof fn lemma_wanted_is_committed_read_only(info: RegionInfo)
    ensures
        is_wanted(info) <==> info.state == 0x1000u32 && info.protect == 0x02u32,
{
}

/// Law: the read loop records only committed read-only regions, and records
/// each such region it met.
pub proof fn lemma_recorded_regions_are_read_only(reads: Seq<RegionRead>)
    ensures
        forall|k: int|
            0 <= k < wanted_regions(reads).len() ==> (#[trigger] wanted_regions(reads)[k]).state
                == 0x1000u32 && wanted_regions(reads)[k].protect == 0x02u32,
        forall|k: int|
            0 <= k < reads.len() && (#[trigger] reads[k]).info.state == 0x1000u32
                && reads[k].info.protect == 0x02u32 ==> wanted_regions(reads).contains(reads[k].info),
{
    let p = |x: RegionRead| is_wanted(x.info);
    let f = |x: RegionRead| x.info;
    let fl = reads.filter(p);
    assert forall|k: int| 0 <= k < wanted_regions(reads).len() implies (#[trigger] wanted_regions(
        reads,
    )[k]).state == 0x1000u32 && wanted_regions(reads)[k].protect == 0x02u32 by {
        reads.lemma_filter_pred(p, k);
        assert(wanted_regions(reads)[k] == fl[k].info);
    }
    assert forall|k: int|
        0 <= k < reads.len() && (#[trigger] reads[k]).info.state == 0x1000u32
            && reads[k].info.protect == 0x02u32 implies wanted_regions(reads).contains(
        reads[k].info,
    ) by {
        reads.lemma_filter_contains(p, k);
        let j = choose|j: int| 0 <= j < fl.len() && fl[j] == reads[k];
        assert(wanted_regions(reads)[j] == reads[k].info);
    }
}

} // verus!
