//! DXBC containers: their header, their checksum, and the scan that finds and
//! patches them inside a block of memory.
use vstd::prelude::*;

verus! {

use crate::bytes::{
    le_bytes, le_value, lemma_byte_power_values, lemma_le_bytes_len, lemma_le_bytes_of_value,
    lemma_le_value_bound, lemma_le_value_of_bytes, push_le, read_u128_le, read_u16_le,
    read_u32_le, write_u128_le,
};
use crate::error::Error;
use crate::BinaryPatcher;

broadcast use vstd::array::group_array_axioms;

/// The four bytes every DXBC container starts with: `DXBC`.
pub const DXBC_MAGIC: [u8; 4] = [68u8, 88u8, 66u8, 67u8];

/// The size of a container header in bytes.
pub const DX_HEADER_SIZE: usize = 32;

/// The header at the start of a DXBC container, as it is laid out in memory:
/// the magic, the checksum, two version numbers, the container's size in
/// bytes and the number of its parts, the numbers little-endian.
#[derive(Debug, Clone, Copy)]
pub struct DXContainerHeader {
    pub magic: [u8; 4],
    pub digest: [u8; 16],
    pub major_version: u16,
    pub minor_version: u16,
    pub file_size: u32,
    pub part_count: u32,
}

/// The 32 bytes that hold `h`.
pub open spec fn header_bytes(h: DXContainerHeader) -> Seq<u8> {
    h.magic@ + h.digest@ + le_bytes(h.major_version as nat, 2) + le_bytes(
        h.minor_version as nat,
        2,
    ) + le_bytes(h.file_size as nat, 4) + le_bytes(h.part_count as nat, 4)
}

/// Whether the four bytes at `at` are `DXBC`.
pub open spec fn has_magic(s: Seq<u8>, at: int) -> bool {
    &&& s[at] == 68u8
    &&& s[at + 1] == 88u8
    &&& s[at + 2] == 66u8
    &&& s[at + 3] == 67u8
}

/// The container size recorded in a header that starts at `at`.
pub open spec fn file_size_at(s: Seq<u8>, at: int) -> nat {
    le_value(s.subrange(at + 24, at + 28))
}

/// The checksum recorded in the header of container `c`.
pub open spec fn stored_hash(c: Seq<u8>) -> nat {
    le_value(c.subrange(4, 20))
}

/// Container `c` with the checksum `v` recorded in its header.
pub open spec fn with_digest(c: Seq<u8>, v: nat) -> Seq<u8> {
    c.subrange(0, 4) + le_bytes(v, 16) + c.subrange(20, c.len() as int)
}

/// Whether the checksum function `f` computes the spec function `h`: every
/// value that a call of `f` returns is `h` of the bytes it was given.
pub open spec fn computes<F: Fn(&[u8]) -> u128>(f: F, h: spec_fn(Seq<u8>) -> u128) -> bool {
    forall|d: &[u8], r: u128| #[trigger] f.ensures((d,), r) ==> r == h(d@)
}

/// Container `c` after its checksum is brought up to date under `h`, and
/// whether the recorded checksum changed.
pub open spec fn fixed(c: Seq<u8>, h: spec_fn(Seq<u8>) -> u128) -> (Seq<u8>, bool) {
    if stored_hash(c) == h(c) as nat {
        (c, false)
    } else {
        (with_digest(c, h(c) as nat), true)
    }
}

/// The outcome of patching: the bytes it leaves, how many containers it found
/// and how many it counts as patched; or the bytes it leaves and the error it
/// stopped with.
pub type ScanOutcome = Result<(Seq<u8>, nat, nat), (Seq<u8>, Error)>;

/// One container patched on its own: the patcher is handed the container and
/// its recorded checksum, then the checksum is brought up to date. It counts
/// as found, and as patched when its recorded checksum changed. When the
/// patcher fails, the container stays as the patcher left it.
pub open spec fn leaf_result<P: BinaryPatcher>(
    c: Seq<u8>,
    p: P,
    h: spec_fn(Seq<u8>) -> u128,
) -> ScanOutcome {
    let (c1, res) = p.spec_patch(c, stored_hash(c) as u128);
    match res {
        Err(e) => Err((c1, e)),
        Ok(_) => {
            let (c2, changed) = fixed(c1, h);
            Ok((c2, 1, if changed { 1 } else { 0 }))
        },
    }
}

/// `s` with the bytes from `at` on overwritten by `c`; its length stays.
pub open spec fn splice(s: Seq<u8>, at: int, c: Seq<u8>) -> Seq<u8> {
    Seq::new(s.len(), |i: int| if at <= i < at + c.len() { c[i - at] } else { s[i] })
}

/// `o` with `found` and `patched` added to its counts.
pub open spec fn add_counts(o: ScanOutcome, found: nat, patched: nat) -> ScanOutcome {
    match o {
        Ok((t, a, b)) => Ok((t, a + found, b + patched)),
        Err(x) => Err(x),
    }
}

/// A container that holds sub-containers, given the outcome `sub` of the scan
/// of its data. When the scan found none, the container is patched on its
/// own; when it patched some, the container's checksum is brought up to date
/// and the container counts as patched too. When the scan of its data
/// failed, the data stays as that scan left it, under the header as it was.
pub open spec fn outer_result<P: BinaryPatcher>(
    c: Seq<u8>,
    sub: ScanOutcome,
    p: P,
    h: spec_fn(Seq<u8>) -> u128,
) -> ScanOutcome {
    match sub {
        Err((d, e)) => Err((c.subrange(0, 32) + d, e)),
        Ok((d, sub_found, sub_patched)) => {
            let c1 = c.subrange(0, 32) + d;
            if sub_found == 0 {
                leaf_result(c1, p, h)
            } else if sub_patched == 0 {
                Ok((c1, sub_found, 0))
            } else {
                Ok((fixed(c1, h).0, sub_found, sub_patched + 1))
            }
        },
    }
}

/// Patching `s` from `pos` on, with checksums computed by `h`. The scan moves
/// one byte at a time until a header starts at `pos` with 32 more bytes after
/// it; then it handles the container that header announces and moves past
/// it. With `recurse`, the data of each container is scanned first, without
/// recursing further. It stops at the first error, with the bytes as they
/// were left then: no container is restored.
pub open spec fn scan_from<P: BinaryPatcher>(
    s: Seq<u8>,
    pos: nat,
    recurse: bool,
    p: P,
    h: spec_fn(Seq<u8>) -> u128,
) -> ScanOutcome
    decreases s.len() - pos,
{
    if pos + 32 >= s.len() {
        Ok((s, 0, 0))
    } else if !has_magic(s, pos as int) {
        scan_from(s, pos + 1, recurse, p, h)
    } else {
        let f = file_size_at(s, pos as int);
        if f < 32 || pos + f > s.len() {
            Ok((s, 0, 0))
        } else {
            let c = s.subrange(pos as int, (pos + f) as int);
            let handled = if recurse && f >= 64 {
                outer_result(c, scan_from(c.subrange(32, f as int), 0, false, p, h), p, h)
            } else {
                leaf_result(c, p, h)
            };
            match handled {
                Err((c2, e)) => Err((splice(s, pos as int, c2), e)),
                Ok((c2, a, b)) => add_counts(
                    scan_from(splice(s, pos as int, c2), pos + f, recurse, p, h),
                    a,
                    b,
                ),
            }
        }
    }
}

/// Whether the scan of `s` from `pos` on meets only containers it can handle:
/// each one at least a header long (and, with `recurse`, a header longer than
/// that), inside `s`, and, with `recurse`, with well-formed data.
pub open spec fn ok_from(s: Seq<u8>, pos: nat, recurse: bool) -> bool
    decreases s.len() - pos,
{
    if pos + 32 >= s.len() {
        true
    } else if !has_magic(s, pos as int) {
        ok_from(s, pos + 1, recurse)
    } else {
        let f = file_size_at(s, pos as int);
        if f < 32 || pos + f > s.len() || (recurse && f < 64) {
            false
        } else {
            (recurse ==> ok_from(s.subrange((pos + 32) as int, (pos + f) as int), 0, false)) && ok_from(
                s,
                pos + f,
                recurse,
            )
        }
    }
}

/// Whether `patch_recursive` can handle `s`.
pub open spec fn scan_ok(s: Seq<u8>, recurse: bool) -> bool {
    s.len() >= 32 && ok_from(s, 0, recurse)
}

/// Whether a run of `patch_recursive` that returned `r` and left `s` did what
/// the outcome `o` says.
pub open spec fn outcome_matches(o: ScanOutcome, r: Result<(usize, usize), Error>, s: Seq<u8>) -> bool {
    match o {
        Ok((t, a, b)) => match r {
            Ok((found, patched)) => found as nat == a && patched as nat == b && s == t,
            Err(_) => false,
        },
        Err((t, e)) => r == Err::<(usize, usize), Error>(e) && s == t,
    }
}

proof fn lemma_ok_from_local(s1: Seq<u8>, s2: Seq<u8>, pos: nat, recurse: bool)
    requires
        s1.len() == s2.len(),
        forall|i: int| pos <= i < s1.len() ==> s1[i] == s2[i],
    ensures
        ok_from(s1, pos, recurse) == ok_from(s2, pos, recurse),
    decreases s1.len() - pos,
{
    if pos + 32 >= s1.len() {
    } else {
        assert(s1.subrange((pos + 24) as int, (pos + 28) as int) =~= s2.subrange((pos + 24) as int, (pos + 28) as int));
        if !has_magic(s1, pos as int) {
            lemma_ok_from_local(s1, s2, pos + 1, recurse);
        } else {
            let f = file_size_at(s1, pos as int);
            if f < 32 || pos + f > s1.len() || (recurse && f < 64) {
            } else {
                assert(s1.subrange((pos + 32) as int, (pos + f) as int) =~= s2.subrange((pos + 32) as int, (pos + f) as int));
                lemma_ok_from_local(s1, s2, pos + f, recurse);
            }
        }
    }
}

proof fn lemma_splice(s: Seq<u8>, at: int, c: Seq<u8>)
    requires
        0 <= at,
        at + c.len() <= s.len(),
    ensures
        splice(s, at, c) == s.subrange(0, at) + c + s.subrange(at + c.len(), s.len() as int),
        forall|i: int| at + c.len() <= i < s.len() ==> splice(s, at, c)[i] == s[i],
{
    assert(splice(s, at, c) =~= s.subrange(0, at) + c + s.subrange(at + c.len(), s.len() as int));
}

proof fn lemma_fixed_len(c: Seq<u8>, h: spec_fn(Seq<u8>) -> u128)
    requires
        c.len() >= 32,
    ensures
        fixed(c, h).0.len() == c.len(),
{
    lemma_le_bytes_len(h(c) as nat, 16);
}

pub proof fn lemma_header_fields(h: DXContainerHeader, b: Seq<u8>)
    requires
        header_bytes(h) == b,
    ensures
        b.len() == 32,
        h.magic@ == b.subrange(0, 4),
        h.digest@ == b.subrange(4, 20),
        h.major_version == le_value(b.subrange(20, 22)),
        h.minor_version == le_value(b.subrange(22, 24)),
        h.file_size == le_value(b.subrange(24, 28)),
        h.part_count == le_value(b.subrange(28, 32)),
{
    lemma_le_bytes_len(h.major_version as nat, 2);
    lemma_le_bytes_len(h.minor_version as nat, 2);
    lemma_le_bytes_len(h.file_size as nat, 4);
    lemma_le_bytes_len(h.part_count as nat, 4);
    lemma_byte_power_values();
    lemma_le_value_of_bytes(h.major_version as nat, 2);
    lemma_le_value_of_bytes(h.minor_version as nat, 2);
    lemma_le_value_of_bytes(h.file_size as nat, 4);
    lemma_le_value_of_bytes(h.part_count as nat, 4);
    assert(b.subrange(0, 4) =~= h.magic@);
    assert(b.subrange(4, 20) =~= h.digest@);
    assert(b.subrange(20, 22) =~= le_bytes(h.major_version as nat, 2));
    assert(b.subrange(22, 24) =~= le_bytes(h.minor_version as nat, 2));
    assert(b.subrange(24, 28) =~= le_bytes(h.file_size as nat, 4));
    assert(b.subrange(28, 32) =~= le_bytes(h.part_count as nat, 4));
}

/// Law: a header is determined by its bytes, so the header read back from the
/// bytes written for a header is that header.
pub proof fn lemma_header_bytes_injective(h1: DXContainerHeader, h2: DXContainerHeader)
    requires
        header_bytes(h1) == header_bytes(h2),
    ensures
        h1 == h2,
{
    let b = header_bytes(h1);
    lemma_header_fields(h1, b);
    lemma_header_fields(h2, b);
    assert(h1.magic == h2.magic);
    assert(h1.digest == h2.digest);
}

impl DXContainerHeader {
    /// Reads a header from its 32 bytes.
    pub fn from_bytes(bytes: &[u8]) -> (h: Self)
        requires
            bytes@.len() == DX_HEADER_SIZE,
        ensures
            header_bytes(h) == bytes@,
    {
        let magic: [u8; 4] = [bytes[0], bytes[1], bytes[2], bytes[3]];
        let mut digest: [u8; 16] = [0u8; 16];
        let mut i: usize = 0;
        while i < 16
            invariant
                i <= 16,
                bytes@.len() == 32,
                forall|k: int| 0 <= k < i ==> digest@[k] == bytes@[4 + k],
            decreases 16 - i,
        {
            digest[i] = bytes[4 + i];
            i = i + 1;
        }
        let h = DXContainerHeader {
            magic,
            digest,
            major_version: read_u16_le(bytes, 20),
            minor_version: read_u16_le(bytes, 22),
            file_size: read_u32_le(bytes, 24),
            part_count: read_u32_le(bytes, 28),
        };
        proof {
            lemma_le_bytes_of_value(bytes@.subrange(20, 22));
            lemma_le_bytes_of_value(bytes@.subrange(22, 24));
            lemma_le_bytes_of_value(bytes@.subrange(24, 28));
            lemma_le_bytes_of_value(bytes@.subrange(28, 32));
            assert(magic@ =~= bytes@.subrange(0, 4));
            assert(digest@ =~= bytes@.subrange(4, 20));
            assert(header_bytes(h) =~= bytes@);
        }
        h
    }

    /// The 32 bytes that hold this header.
    pub fn to_bytes(&self) -> (r: Vec<u8>)
        ensures
            r@ == header_bytes(*self),
    {
        let mut r: Vec<u8> = Vec::new();
        let mut i: usize = 0;
        while i < 4
            invariant
                i <= 4,
                r@ == self.magic@.subrange(0, i as int),
            decreases 4 - i,
        {
            r.push(self.magic[i]);
            i = i + 1;
            proof {
                assert(r@ =~= self.magic@.subrange(0, i as int));
            }
        }
        i = 0;
        while i < 16
            invariant
                i <= 16,
                r@ == self.magic@ + self.digest@.subrange(0, i as int),
            decreases 16 - i,
        {
            r.push(self.digest[i]);
            i = i + 1;
            proof {
                assert(r@ =~= self.magic@ + self.digest@.subrange(0, i as int));
            }
        }
        proof {
            assert(self.magic@.subrange(0, 4) =~= self.magic@);
            assert(self.digest@.subrange(0, 16) =~= self.digest@);
        }
        push_le(&mut r, self.major_version as u128, 2);
        push_le(&mut r, self.minor_version as u128, 2);
        push_le(&mut r, self.file_size as u128, 4);
        push_le(&mut r, self.part_count as u128, 4);
        r
    }
}

/// A mutable view of one container's bytes, header first.
#[derive(Debug)]
pub struct DXContainerViewMut<'a> {
    pub raw: &'a mut [u8],
}

impl<'a> DXContainerViewMut<'a> {
    /// Views `raw` as a container.
    pub fn from_raw(raw: &'a mut [u8]) -> (r: Self)
        ensures
            r.raw@ == old(raw)@,
            final(r.raw)@ == final(raw)@,
    {
        Self { raw }
    }

    /// The container's header.
    pub fn get_header(&self) -> (h: DXContainerHeader)
        requires
            self.raw@.len() >= DX_HEADER_SIZE,
        ensures
            header_bytes(h) == old(self.raw)@.subrange(0, 32),
    {
        let head: &[u8] = &self.raw[0..DX_HEADER_SIZE];
        DXContainerHeader::from_bytes(head)
    }

    /// The bytes that follow the header.
    pub fn get_data_mut(&mut self) -> (r: &mut [u8])
        requires
            old(self).raw@.len() >= DX_HEADER_SIZE,
        ensures
            r@ == old(self).raw@.subrange(32, old(self).raw@.len() as int),
            final(self).raw@ == old(self).raw@.subrange(0, 32) + final(r)@,
            final(final(self).raw)@ == final(old(self).raw)@,
    {
        let (_, data) = self.raw.split_at_mut(DX_HEADER_SIZE);
        data
    }

    /// Records in the header the checksum that `checksum` computes over the
    /// container. Gives back the checksum it replaced, or `None` when the
    /// recorded one was already that.
    pub fn fix_checksum<F: Fn(&[u8]) -> u128>(&mut self, checksum: &F) -> (r: Option<u128>)
        requires
            old(self).raw@.len() >= DX_HEADER_SIZE,
            forall|d: &[u8]| #[trigger] checksum.requires((d,)),
        ensures
            final(final(self).raw)@ == final(old(self).raw)@,
            final(self).raw@.len() == old(self).raw@.len(),
            forall|h: spec_fn(Seq<u8>) -> u128| #[trigger]
                computes(*checksum, h) ==> {
                    &&& final(self).raw@ == fixed(old(self).raw@, h).0
                    &&& r == if fixed(old(self).raw@, h).1 {
                        Some(stored_hash(old(self).raw@) as u128)
                    } else {
                        None::<u128>
                    }
                },
    {
        let hash = checksum(&*self.raw);
        let stored = read_u128_le(&*self.raw, 4);
        if stored == hash {
            None
        } else {
            write_u128_le(&mut *self.raw, 4, hash);
            proof {
                lemma_le_bytes_len(hash as nat, 16);
                assert forall|h: spec_fn(Seq<u8>) -> u128| #[trigger]
                    computes(*checksum, h) implies self.raw@ == fixed(old(self).raw@, h).0 by {
                    assert(self.raw@ =~= with_digest(old(self).raw@, hash as nat));
                }
            }
            Some(stored)
        }
    }

    /// Hands the container and its recorded checksum to `patcher`, then brings
    /// the checksum up to date. Answers whether the recorded checksum changed.
    pub fn patch<T: BinaryPatcher, F: Fn(&[u8]) -> u128>(&mut self, patcher: &T, checksum: &F) -> (r:
        Result<bool, Error>)
        requires
            old(self).raw@.len() >= DX_HEADER_SIZE,
            forall|d: &[u8]| #[trigger] checksum.requires((d,)),
        ensures
            final(final(self).raw)@ == final(old(self).raw)@,
            final(self).raw@.len() == old(self).raw@.len(),
            forall|h: spec_fn(Seq<u8>) -> u128| #[trigger]
                computes(*checksum, h) ==> match leaf_result(old(self).raw@, *patcher, h) {
                    Ok((c, _, n)) => r == Ok::<bool, Error>(n == 1) && final(self).raw@ == c,
                    Err((c, e)) => r == Err::<bool, Error>(e) && final(self).raw@ == c,
                },
    {
        let stored = read_u128_le(&*self.raw, 4);
        let _ = patcher.patch(&mut *self.raw, stored)?;
        let old_hash = self.fix_checksum(checksum);
        Ok(old_hash.is_some())
    }
}

/// How one container found by the scan is handled: see `scan_from`.
pub open spec fn container_outcome<P: BinaryPatcher>(
    c: Seq<u8>,
    recurse: bool,
    p: P,
    h: spec_fn(Seq<u8>) -> u128,
) -> ScanOutcome {
    if recurse && c.len() >= 64 {
        outer_result(c, scan_from(c.subrange(32, c.len() as int), 0, false, p, h), p, h)
    } else {
        leaf_result(c, p, h)
    }
}

/// One step of the scan over a container: its outcome and the scan past it
/// make up the scan from its header on.
proof fn lemma_scan_container_step<P: BinaryPatcher>(
    s: Seq<u8>,
    pos: nat,
    recurse: bool,
    p: P,
    h: spec_fn(Seq<u8>) -> u128,
)
    requires
        pos + 32 < s.len(),
        has_magic(s, pos as int),
        32 <= file_size_at(s, pos as int),
        pos + file_size_at(s, pos as int) <= s.len(),
    ensures
        ({
            let f = file_size_at(s, pos as int);
            scan_from(s, pos, recurse, p, h) == match container_outcome(
                s.subrange(pos as int, (pos + f) as int),
                recurse,
                p,
                h,
            ) {
                Err((c2, e)) => Err((splice(s, pos as int, c2), e)),
                Ok((c2, a, b)) => add_counts(
                    scan_from(splice(s, pos as int, c2), pos + f, recurse, p, h),
                    a,
                    b,
                ),
            }
        }),
{
}

proof fn lemma_add_counts_twice(o: ScanOutcome, a: nat, b: nat, x: nat, y: nat)
    ensures
        add_counts(add_counts(o, a, b), x, y) == add_counts(o, a + x, b + y),
{
}

/// The scan invariant carried past one container.
proof fn lemma_scan_advance<P: BinaryPatcher>(
    s0: Seq<u8>,
    before: Seq<u8>,
    pos: nat,
    found: nat,
    patched: nat,
    recurse: bool,
    p: P,
    h: spec_fn(Seq<u8>) -> u128,
)
    requires
        pos + 32 < before.len(),
        has_magic(before, pos as int),
        32 <= file_size_at(before, pos as int),
        pos + file_size_at(before, pos as int) <= before.len(),
        scan_from(s0, 0, recurse, p, h) == add_counts(
            scan_from(before, pos, recurse, p, h),
            found,
            patched,
        ),
    ensures
        ({
            let f = file_size_at(before, pos as int);
            match container_outcome(before.subrange(pos as int, (pos + f) as int), recurse, p, h) {
                Err((c2, e)) => scan_from(s0, 0, recurse, p, h) == Err::<(Seq<u8>, nat, nat), (Seq<u8>, Error)>(
                    (splice(before, pos as int, c2), e),
                ),
                Ok((c2, a, b)) => scan_from(s0, 0, recurse, p, h) == add_counts(
                    scan_from(splice(before, pos as int, c2), pos + f, recurse, p, h),
                    found + a,
                    patched + b,
                ),
            }
        }),
{
    let f = file_size_at(before, pos as int);
    lemma_scan_container_step(before, pos, recurse, p, h);
    match container_outcome(before.subrange(pos as int, (pos + f) as int), recurse, p, h) {
        Err(_) => {},
        Ok((c2, a, b)) => {
            lemma_add_counts_twice(
                scan_from(splice(before, pos as int, c2), pos + f, recurse, p, h),
                a,
                b,
                found,
                patched,
            );
        },
    }
}

/// Handles one container found by the scan, as `container_outcome` says.
fn handle_container<T: BinaryPatcher, F: Fn(&[u8]) -> u128>(
    cont: &mut [u8],
    patcher: &T,
    recurse: bool,
    checksum: &F,
) -> (r: Result<(usize, usize), Error>)
    requires
        old(cont)@.len() >= 32,
        recurse ==> old(cont)@.len() >= 64 && ok_from(
            old(cont)@.subrange(32, old(cont)@.len() as int),
            0,
            false,
        ),
        forall|d: &[u8]| #[trigger] checksum.requires((d,)),
    ensures
        final(cont)@.len() == old(cont)@.len(),
        r matches Ok((found, patched)) ==> found <= old(cont)@.len() && patched <= old(cont)@.len(),
        forall|h: spec_fn(Seq<u8>) -> u128| #[trigger]
            computes(*checksum, h) ==> outcome_matches(
                container_outcome(old(cont)@, recurse, *patcher, h),
                r,
                final(cont)@,
            ),
    decreases if recurse { 1int } else { 0int }, 0int,
{
    let ghost c0 = cont@;
    let n = cont.len();
    let mut shader = DXContainerViewMut::from_raw(cont);
    if recurse {
        let ghost d0 = c0.subrange(32, c0.len() as int);
        let sub = patch_recursive(shader.get_data_mut(), patcher, false, checksum);
        let ghost c1 = shader.raw@;
        match sub {
            Err(e) => {
                proof {
                    assert(c1 =~= c0.subrange(0, 32) + c1.subrange(32, n as int));
                    assert forall|h: spec_fn(Seq<u8>) -> u128| #[trigger]
                        computes(*checksum, h) implies container_outcome(c0, recurse, *patcher, h)
                        == Err::<(Seq<u8>, nat, nat), (Seq<u8>, Error)>((c1, e)) by {
                        assert(c1.subrange(32, n as int) =~= scan_from(d0, 0, false, *patcher, h)->Err_0.0);
                    }
                }
                Err(e)
            },
            Ok((sub_found, sub_patched)) => {
                proof {
                    assert forall|h: spec_fn(Seq<u8>) -> u128| #[trigger]
                        computes(*checksum, h) implies scan_from(d0, 0, false, *patcher, h) == Ok::<(Seq<u8>, nat, nat), (Seq<u8>, Error)>((c1.subrange(32, n as int), sub_found as nat, sub_patched as nat)) by {
                        assert(c1.subrange(32, n as int) =~= scan_from(
                            d0,
                            0,
                            false,
                            *patcher,
                            h,
                        )->Ok_0.0);
                    }
                    assert(c1 =~= c0.subrange(0, 32) + c1.subrange(32, n as int));
                }
                if sub_found != 0 {
                    if sub_patched != 0 {
                        shader.fix_checksum(checksum);
                        proof {
                            assert forall|h: spec_fn(Seq<u8>) -> u128| #[trigger]
                                computes(*checksum, h) implies container_outcome(
                                c0,
                                recurse,
                                *patcher,
                                h,
                            ) == Ok::<(Seq<u8>, nat, nat), (Seq<u8>, Error)>(
                                (shader.raw@, sub_found as nat, (sub_patched + 1) as nat),
                            ) by {
                                lemma_fixed_len(c1, h);
                            }
                        }
                        Ok((sub_found, sub_patched + 1))
                    } else {
                        Ok((sub_found, 0))
                    }
                } else {
                    let res = shader.patch(patcher, checksum);
                    proof {
                        assert forall|h: spec_fn(Seq<u8>) -> u128| #[trigger]
                            computes(*checksum, h) implies container_outcome(
                            c0,
                            recurse,
                            *patcher,
                            h,
                        ) == leaf_result(c1, *patcher, h) by {}
                    }
                    match res {
                        Err(e) => Err(e),
                        Ok(changed) => Ok((1, if changed { 1 } else { 0 })),
                    }
                }
            },
        }
    } else {
        let res = shader.patch(patcher, checksum);
        match res {
            Err(e) => Err(e),
            Ok(changed) => Ok((1, if changed { 1 } else { 0 })),
        }
    }
}

/// Finds the containers in `raw` and patches them with `patcher`, keeping
/// their checksums, as computed by `checksum`, in step. With `recurse`, the
/// data of each container found is searched for containers first, and a
/// container is patched on its own only when it holds none. Gives back how
/// many containers were found and how many count as patched.
#[verifier::rlimit(60)]
pub fn patch_recursive<T: BinaryPatcher, F: Fn(&[u8]) -> u128>(
    raw: &mut [u8],
    patcher: &T,
    recurse: bool,
    checksum: &F,
) -> (r: Result<(usize, usize), Error>)
    requires
        scan_ok(old(raw)@, recurse),
        forall|d: &[u8]| #[trigger] checksum.requires((d,)),
    ensures
        final(raw)@.len() == old(raw)@.len(),
        r matches Ok((found, patched)) ==> found <= old(raw)@.len() && patched <= old(raw)@.len(),
        forall|h: spec_fn(Seq<u8>) -> u128| #[trigger]
            computes(*checksum, h) ==> outcome_matches(
                scan_from(old(raw)@, 0, recurse, *patcher, h),
                r,
                final(raw)@,
            ),
    decreases if recurse { 1int } else { 0int }, 1int,
{
    let ghost raw0 = raw@;
    let len = raw.len();
    let mut found: usize = 0;
    let mut patched: usize = 0;
    let mut h_start: usize = 0;
    while h_start < len - DX_HEADER_SIZE
        invariant
            len == raw@.len(),
            raw0 == old(raw)@,
            raw0.len() == len,
            len >= 32,
            h_start <= len,
            found <= h_start,
            patched <= h_start,
            ok_from(raw@, h_start as nat, recurse),
            forall|d: &[u8]| #[trigger] checksum.requires((d,)),
            forall|h: spec_fn(Seq<u8>) -> u128| #[trigger]
                computes(*checksum, h) ==> scan_from(raw0, 0, recurse, *patcher, h) == add_counts(
                    scan_from(raw@, h_start as nat, recurse, *patcher, h),
                    found as nat,
                    patched as nat,
                ),
        decreases len - h_start,
    {
        if raw[h_start] == 68u8 && raw[h_start + 1] == 88u8 && raw[h_start + 2] == 66u8
            && raw[h_start + 3] == 67u8 {
            let h_end = h_start + DX_HEADER_SIZE;
            let header = DXContainerHeader::from_bytes(&raw[h_start..h_end]);
            let ghost before = raw@;
            proof {
                lemma_header_fields(header, before.subrange(h_start as int, h_end as int));
                assert(before.subrange(h_start as int, h_end as int).subrange(24, 28)
                    =~= before.subrange(h_start + 24, h_start + 28));
            }
            let f_size = header.file_size as usize;
            let f_end = h_start + f_size;
            let ghost c0 = before.subrange(h_start as int, f_end as int);
            proof {
                if recurse {
                    assert(c0.subrange(32, c0.len() as int) =~= before.subrange(
                        h_start + 32,
                        f_end as int,
                    ));
                }
            }
            let (_head, rest) = raw.split_at_mut(h_start);
            let (cont, _tail) = rest.split_at_mut(f_size);
            assert(cont@ =~= c0);
            let res = handle_container(&mut *cont, patcher, recurse, checksum);
            match res {
                Err(e) => {
                    let ghost c2 = cont@;
                    proof {
                        assert(c2 =~= raw@.subrange(h_start as int, f_end as int));
                        assert(raw@ =~= splice(before, h_start as int, c2));
                        assert forall|h: spec_fn(Seq<u8>) -> u128| #[trigger]
                            computes(*checksum, h) implies scan_from(raw0, 0, recurse, *patcher, h)
                            == Err::<(Seq<u8>, nat, nat), (Seq<u8>, Error)>((raw@, e)) by {
                            lemma_scan_advance(
                                raw0,
                                before,
                                h_start as nat,
                                found as nat,
                                patched as nat,
                                recurse,
                                *patcher,
                                h,
                            );
                        }
                    }
                    return Err(e);
                },
                Ok((d_found, d_patched)) => {
                    let ghost c2 = cont@;
                    proof {
                        assert(c2 =~= raw@.subrange(h_start as int, f_end as int));
                        assert(raw@ =~= splice(before, h_start as int, c2));
                        lemma_splice(before, h_start as int, c2);
                        lemma_ok_from_local(before, raw@, f_end as nat, recurse);
                        assert forall|h: spec_fn(Seq<u8>) -> u128| #[trigger]
                            computes(*checksum, h) implies scan_from(raw0, 0, recurse, *patcher, h)
                            == add_counts(
                            scan_from(raw@, f_end as nat, recurse, *patcher, h),
                            (found + d_found) as nat,
                            (patched + d_patched) as nat,
                        ) by {
                            lemma_scan_advance(
                                raw0,
                                before,
                                h_start as nat,
                                found as nat,
                                patched as nat,
                                recurse,
                                *patcher,
                                h,
                            );
                        }
                    }
                    found = found + d_found;
                    patched = patched + d_patched;
                    h_start = f_end;
                },
            }
        } else {
            h_start = h_start + 1;
        }
    }
    Ok((found, patched))
}

/// Tells whether `patch_recursive` can handle `raw`: whether it holds a full
/// header and every container the scan meets is one it can handle.
pub fn containers_well_formed(raw: &[u8], recurse: bool) -> (r: bool)
    ensures
        r == scan_ok(raw@, recurse),
    decreases if recurse { 1int } else { 0int },
{
    let len = raw.len();
    if len < DX_HEADER_SIZE {
        return false;
    }
    let mut pos: usize = 0;
    while pos < len - DX_HEADER_SIZE
        invariant
            len == raw@.len(),
            len >= 32,
            pos <= len,
            ok_from(raw@, 0, recurse) == ok_from(raw@, pos as nat, recurse),
        decreases len - pos,
    {
        if raw[pos] == 68u8 && raw[pos + 1] == 88u8 && raw[pos + 2] == 66u8 && raw[pos + 3]
            == 67u8 {
            let f = read_u32_le(raw, pos + 24) as usize;
            if f < DX_HEADER_SIZE || f > len - pos || (recurse && f < 64) {
                return false;
            }
            if recurse {
                let data: &[u8] = &raw[pos + DX_HEADER_SIZE..pos + f];
                if !containers_well_formed(data, false) {
                    return false;
                }
            }
            pos = pos + f;
        } else {
            pos = pos + 1;
        }
    }
    true
}

/// A container found for dumping: its recorded checksum and where its bytes
/// start and end.
#[derive(Debug, Clone, Copy, PartialEq, Eq)]
pub struct ShaderDump {
    pub hash: u128,
    pub start: usize,
    pub end: usize,
}

/// Whether reading the magic at `i` stays inside `s`: the check of the four
/// bytes stops at the first that differs.
pub open spec fn magic_read_ok(s: Seq<u8>, i: int) -> bool {
    s[i] != 68u8 || (i + 1 < s.len() && (s[i + 1] != 88u8 || (i + 2 < s.len() && (s[i + 2]
        != 66u8 || i + 3 < s.len()))))
}

/// Whether the dump scan of `s` from `i` on stays inside `s` and ends: every
/// container it meets has its header and its bytes inside `s`, and, when it
/// skips whole containers, is not empty.
pub open spec fn dump_ok(s: Seq<u8>, i: nat, only_big: bool) -> bool
    decreases s.len() - i,
{
    if i >= s.len() {
        true
    } else if !magic_read_ok(s, i as int) {
        false
    } else if i + 3 < s.len() && has_magic(s, i as int) {
        if i + 32 > s.len() {
            false
        } else {
            let f = file_size_at(s, i as int);
            if i + f > s.len() || (only_big && f == 0) {
                false
            } else {
                dump_ok(s, if only_big { i + f } else { i + 1 }, only_big)
            }
        }
    } else {
        dump_ok(s, i + 1, only_big)
    }
}

/// The containers the dump scan of `s` from `i` on meets, in order. It moves
/// one byte at a time; past a container it moves to the container's end when
/// `only_big`, else one byte, so that containers inside containers are met
/// too.
pub open spec fn dump_entries(s: Seq<u8>, i: nat, only_big: bool) -> Seq<ShaderDump>
    decreases s.len() - i,
{
    if i >= s.len() {
        Seq::empty()
    } else if i + 32 <= s.len() && has_magic(s, i as int) {
        let f = file_size_at(s, i as int);
        if i + f > s.len() || (only_big && f == 0) {
            Seq::empty()
        } else {
            seq![
                ShaderDump {
                    hash: le_value(s.subrange((i + 4) as int, (i + 20) as int)) as u128,
                    start: i as usize,
                    end: (i + f) as usize,
                },
            ] + dump_entries(s, if only_big { i + f } else { i + 1 }, only_big)
        }
    } else {
        dump_entries(s, i + 1, only_big)
    }
}

/// Tells whether the dump scan can run over `bytes`.
pub fn dump_scan_ok(bytes: &[u8], only_big: bool) -> (r: bool)
    ensures
        r == dump_ok(bytes@, 0, only_big),
{
    let len = bytes.len();
    let mut i: usize = 0;
    while i < len
        invariant
            len == bytes@.len(),
            i <= len,
            dump_ok(bytes@, 0, only_big) == dump_ok(bytes@, i as nat, only_big),
        decreases len - i,
    {
        if bytes[i] == 68u8 {
            if i + 1 >= len {
                return false;
            }
            if bytes[i + 1] == 88u8 {
                if i + 2 >= len {
                    return false;
                }
                if bytes[i + 2] == 66u8 {
                    if i + 3 >= len {
                        return false;
                    }
                    if bytes[i + 3] == 67u8 {
                        if len - i < DX_HEADER_SIZE {
                            return false;
                        }
                        let f = read_u32_le(bytes, i + 24) as usize;
                        if f > len - i || (only_big && f == 0) {
                            return false;
                        }
                        i = if only_big { i + f } else { i + 1 };
                        continue;
                    }
                }
            }
        }
        i = i + 1;
    }
    true
}

/// The containers to dump from `bytes`: each one's recorded checksum and
/// range, in the order the scan meets them.
pub fn shader_dumps(bytes: &[u8], only_big: bool) -> (r: Vec<ShaderDump>)
    requires
        dump_ok(bytes@, 0, only_big),
    ensures
        r@ == dump_entries(bytes@, 0, only_big),
{
    let len = bytes.len();
    let mut out: Vec<ShaderDump> = Vec::new();
    let mut i: usize = 0;
    while i < len
        invariant
            len == bytes@.len(),
            i <= len,
            dump_ok(bytes@, i as nat, only_big),
            dump_entries(bytes@, 0, only_big) == out@ + dump_entries(bytes@, i as nat, only_big),
        decreases len - i,
    {
        if bytes[i] == 68u8 && bytes[i + 1] == 88u8 && bytes[i + 2] == 66u8 && bytes[i + 3] == 67u8 {
            let header = DXContainerHeader::from_bytes(&bytes[i..i + DX_HEADER_SIZE]);
            proof {
                lemma_header_fields(header, bytes@.subrange(i as int, i + 32));
                assert(bytes@.subrange(i as int, i + 32).subrange(24, 28) =~= bytes@.subrange(
                    i + 24,
                    i + 28,
                ));
                assert(bytes@.subrange(i as int, i + 32).subrange(4, 20) =~= bytes@.subrange(
                    i + 4,
                    i + 20,
                ));
                lemma_le_value_bound(header.digest@);
                lemma_byte_power_values();
            }
            let file_size = header.file_size as usize;
            let hash = read_u128_le(&bytes[i..i + DX_HEADER_SIZE], 4);
            let entry = ShaderDump { hash, start: i, end: i + file_size };
            let ghost prev = out@;
            out.push(entry);
            proof {
                assert(out@ + dump_entries(bytes@, (if only_big { i + file_size } else { i + 1 }) as nat, only_big)
                    =~= prev + dump_entries(bytes@, i as nat, only_big));
            }
            i = if only_big { i + file_size } else { i + 1 };
        } else {
            i = i + 1;
        }
    }
    proof {
        assert(out@ + dump_entries(bytes@, i as nat, only_big) =~= out@);
    }
    out
}

/// Whether `h` does not look at the recorded checksum: rewriting the checksum
/// of a container leaves `h` of it unchanged.
pub open spec fn ignores_digest(h: spec_fn(Seq<u8>) -> u128) -> bool {
    forall|c: Seq<u8>, v: nat| c.len() >= 32 ==> #[trigger] h(with_digest(c, v)) == h(c)
}

/// Law: for a checksum that does not look at the recorded checksum, bringing
/// a container's checksum up to date a second time changes nothing.
pub proof fn lemma_fix_checksum_idempotent(c: Seq<u8>, h: spec_fn(Seq<u8>) -> u128)
    requires
        c.len() >= 32,
        ignores_digest(h),
    ensures
        fixed(fixed(c, h).0, h) == (fixed(c, h).0, false),
{
    if stored_hash(c) != h(c) as nat {
        let c1 = with_digest(c, h(c) as nat);
        lemma_le_bytes_len(h(c) as nat, 16);
        lemma_byte_power_values();
        lemma_le_value_of_bytes(h(c) as nat, 16);
        assert(c1.subrange(4, 20) =~= le_bytes(h(c) as nat, 16));
        assert(h(c1) == h(c));
    }
}

/// Law: when only whole containers are dumped, the dumped ranges follow one
/// another without overlapping, each starting at or after the scan's start.
pub proof fn lemma_big_dumps_disjoint(s: Seq<u8>, i: nat)
    requires
        s.len() <= usize::MAX,
    ensures
        forall|k: int|
            0 <= k < dump_entries(s, i, true).len() ==> i <= (#[trigger] dump_entries(
                s,
                i,
                true,
            )[k]).start <= dump_entries(s, i, true)[k].end,
        forall|k: int|
            0 <= k && k + 1 < dump_entries(s, i, true).len() ==> (#[trigger] dump_entries(
                s,
                i,
                true,
            )[k]).end <= dump_entries(s, i, true)[k + 1].start,
    decreases s.len() - i,
{
    if i >= s.len() {
    } else if i + 32 <= s.len() && has_magic(s, i as int) {
        let f = file_size_at(s, i as int);
        if i + f > s.len() || f == 0 {
        } else {
            lemma_big_dumps_disjoint(s, i + f);
            let rest = dump_entries(s, i + f, true);
            let all = dump_entries(s, i, true);
            let e = ShaderDump {
                hash: le_value(s.subrange((i + 4) as int, (i + 20) as int)) as u128,
                start: i as usize,
                end: (i + f) as usize,
            };
            assert(all == seq![e] + rest);
            assert(e.start == i && e.end == i + f);
            assert forall|k: int| 0 <= k && k + 1 < all.len() implies (#[trigger] all[k]).end
                <= all[k + 1].start by {
                if k > 0 {
                    assert(all[k] == rest[k - 1]);
                    assert(all[k + 1] == rest[k]);
                } else {
                    assert(all[1] == rest[0]);
                }
            }
            assert forall|k: int| 0 <= k < all.len() implies i <= (#[trigger] all[k]).start
                <= all[k].end by {
                if k > 0 {
                    assert(all[k] == rest[k - 1]);
                }
            }
        }
    } else {
        lemma_big_dumps_disjoint(s, i + 1);
        assert(dump_entries(s, i, true) == dump_entries(s, i + 1, true));
    }
}

/// The containers the scan of one level meets from `pos` on, as the position
/// of each one's header and its size. Where the scan goes depends only on the
/// bytes from `pos` on that no earlier container covers.
pub open spec fn scan_spans(s: Seq<u8>, pos: nat) -> Seq<(nat, nat)>
    decreases s.len() - pos,
{
    if pos + 32 >= s.len() {
        Seq::empty()
    } else if !has_magic(s, pos as int) {
        scan_spans(s, pos + 1)
    } else {
        let f = file_size_at(s, pos as int);
        if f < 32 || pos + f > s.len() {
            Seq::empty()
        } else {
            seq![(pos, f)] + scan_spans(s, pos + f)
        }
    }
}

/// Whether `p` keeps the length of the data it patches, as every patch of a
/// slice in place does.
pub open spec fn keeps_length<P: BinaryPatcher>(p: P) -> bool {
    forall|d: Seq<u8>, c: u128| (#[trigger] p.spec_patch(d, c)).0.len() == d.len()
}

proof fn lemma_scan_spans_local(s1: Seq<u8>, s2: Seq<u8>, pos: nat)
    requires
        s1.len() == s2.len(),
        forall|i: int| pos <= i < s1.len() ==> s1[i] == s2[i],
    ensures
        scan_spans(s1, pos) == scan_spans(s2, pos),
    decreases s1.len() - pos,
{
    if pos + 32 >= s1.len() {
    } else {
        assert(s1.subrange((pos + 24) as int, (pos + 28) as int) =~= s2.subrange(
            (pos + 24) as int,
            (pos + 28) as int,
        ));
        if !has_magic(s1, pos as int) {
            lemma_scan_spans_local(s1, s2, pos + 1);
        } else {
            let f = file_size_at(s1, pos as int);
            if f < 32 || pos + f > s1.len() {
            } else {
                lemma_scan_spans_local(s1, s2, pos + f);
            }
        }
    }
}

proof fn lemma_scan_spans_bounds(s: Seq<u8>, pos: nat)
    ensures
        forall|k: int|
            0 <= k < scan_spans(s, pos).len() ==> pos <= (#[trigger] scan_spans(s, pos)[k]).0
                && 32 <= scan_spans(s, pos)[k].1 && scan_spans(s, pos)[k].0 + scan_spans(
                s,
                pos,
            )[k].1 <= s.len(),
        forall|k: int|
            0 <= k && k + 1 < scan_spans(s, pos).len() ==> (#[trigger] scan_spans(s, pos)[k]).0
                + scan_spans(s, pos)[k].1 <= scan_spans(s, pos)[k + 1].0,
    decreases s.len() - pos,
{
    if pos + 32 >= s.len() {
    } else if !has_magic(s, pos as int) {
        lemma_scan_spans_bounds(s, pos + 1);
        assert(scan_spans(s, pos) == scan_spans(s, pos + 1));
    } else {
        let f = file_size_at(s, pos as int);
        if f < 32 || pos + f > s.len() {
        } else {
            lemma_scan_spans_bounds(s, pos + f);
            let rest = scan_spans(s, pos + f);
            let all = scan_spans(s, pos);
            assert(all == seq![(pos, f)] + rest);
            assert forall|k: int| 0 <= k < all.len() implies pos <= (#[trigger] all[k]).0 && 32
                <= all[k].1 && all[k].0 + all[k].1 <= s.len() by {
                if k > 0 {
                    assert(all[k] == rest[k - 1]);
                }
            }
            assert forall|k: int| 0 <= k && k + 1 < all.len() implies (#[trigger] all[k]).0
                + all[k].1 <= all[k + 1].0 by {
                if k > 0 {
                    assert(all[k] == rest[k - 1]);
                    assert(all[k + 1] == rest[k]);
                } else {
                    assert(all[1] == rest[0]);
                }
            }
        }
    }
}

/// Law: a run of one level of the scan that succeeds counts as found exactly
/// the containers it meets, keeps the length of the bytes, and leaves each
/// of those containers with its recorded checksum equal to the checksum of
/// its final bytes: the checksums are in step. This holds for a patcher that
/// keeps lengths and a checksum that does not look at the recorded one, as
/// the DXBC checksum does not.
pub proof fn lemma_scan_keeps_checksums_in_step<P: BinaryPatcher>(
    s: Seq<u8>,
    pos: nat,
    p: P,
    h: spec_fn(Seq<u8>) -> u128,
)
    requires
        keeps_length(p),
        ignores_digest(h),
        scan_from(s, pos, false, p, h) is Ok,
    ensures
        ({
            let (t, found, _) = scan_from(s, pos, false, p, h)->Ok_0;
            let spans = scan_spans(s, pos);
            &&& t.len() == s.len()
            &&& found == spans.len()
            &&& forall|i: int| 0 <= i < pos ==> t[i] == s[i]
            &&& forall|k: int|
                0 <= k < spans.len() ==> {
                    let c = t.subrange(
                        (#[trigger] spans[k]).0 as int,
                        (spans[k].0 + spans[k].1) as int,
                    );
                    stored_hash(c) == h(c) as nat
                }
        }),
    decreases s.len() - pos,
{
    lemma_scan_spans_bounds(s, pos);
    if pos + 32 >= s.len() {
    } else if !has_magic(s, pos as int) {
        lemma_scan_keeps_checksums_in_step(s, pos + 1, p, h);
        assert(scan_spans(s, pos) == scan_spans(s, pos + 1));
        assert(scan_from(s, pos, false, p, h) == scan_from(s, pos + 1, false, p, h));
    } else {
        let f = file_size_at(s, pos as int);
        if f < 32 || pos + f > s.len() {
        } else {
            let c = s.subrange(pos as int, (pos + f) as int);
            let c1 = p.spec_patch(c, stored_hash(c) as u128).0;
            assert(c1.len() == c.len());
            let c2 = fixed(c1, h).0;
            lemma_fixed_len(c1, h);
            lemma_fix_checksum_idempotent(c1, h);
            let s2 = splice(s, pos as int, c2);
            lemma_splice(s, pos as int, c2);
            lemma_scan_spans_local(s, s2, pos + f);
            lemma_scan_keeps_checksums_in_step(s2, pos + f, p, h);
            let (t, found, _) = scan_from(s, pos, false, p, h)->Ok_0;
            let spans = scan_spans(s, pos);
            let rest = scan_spans(s, pos + f);
            assert(spans == seq![(pos, f)] + rest);
            assert(t.subrange(pos as int, (pos + f) as int) =~= c2) by {
                assert forall|i: int| pos <= i < pos + f implies t[i] == s2[i] by {}
            }
            assert forall|k: int| 0 <= k < spans.len() implies {
                let c = t.subrange((#[trigger] spans[k]).0 as int, (spans[k].0 + spans[k].1) as int);
                stored_hash(c) == h(c) as nat
            } by {
                if k > 0 {
                    assert(spans[k] == rest[k - 1]);
                }
            }
            assert forall|i: int| 0 <= i < pos implies t[i] == s[i] by {
                assert(t[i] == s2[i]);
            }
        }
    }
}

/// Whether `p` succeeds on all data and changes none of it.
pub open spec fn changes_nothing<P: BinaryPatcher>(p: P) -> bool {
    forall|d: Seq<u8>, c: u128|
        (#[trigger] p.spec_patch(d, c)).1 is Ok && p.spec_patch(d, c).0 == d
}

/// Law: one level of the scan, with a patcher that changes nothing, over
/// containers whose recorded checksums are already in step, leaves the bytes
/// as they are and counts nothing as patched, though it finds every container
/// it meets.
pub proof fn lemma_scan_in_step_changes_nothing<P: BinaryPatcher>(
    s: Seq<u8>,
    pos: nat,
    p: P,
    h: spec_fn(Seq<u8>) -> u128,
)
    requires
        changes_nothing(p),
        forall|k: int|
            0 <= k < scan_spans(s, pos).len() ==> {
                let c = s.subrange(
                    (#[trigger] scan_spans(s, pos)[k]).0 as int,
                    (scan_spans(s, pos)[k].0 + scan_spans(s, pos)[k].1) as int,
                );
                stored_hash(c) == h(c) as nat
            },
    ensures
        scan_from(s, pos, false, p, h) == Ok::<(Seq<u8>, nat, nat), (Seq<u8>, Error)>(
            (s, scan_spans(s, pos).len(), 0),
        ),
    decreases s.len() - pos,
{
    if pos + 32 >= s.len() {
    } else if !has_magic(s, pos as int) {
        assert(scan_spans(s, pos) == scan_spans(s, pos + 1));
        lemma_scan_in_step_changes_nothing(s, pos + 1, p, h);
    } else {
        let f = file_size_at(s, pos as int);
        if f < 32 || pos + f > s.len() {
        } else {
            let c = s.subrange(pos as int, (pos + f) as int);
            let spans = scan_spans(s, pos);
            let rest = scan_spans(s, pos + f);
            assert(spans == seq![(pos, f)] + rest);
            assert(spans[0] == (pos, f));
            assert(p.spec_patch(c, stored_hash(c) as u128).1 is Ok);
            assert(splice(s, pos as int, c) =~= s);
            assert forall|k: int| 0 <= k < rest.len() implies {
                let c = s.subrange(
                    (#[trigger] rest[k]).0 as int,
                    (rest[k].0 + rest[k].1) as int,
                );
                stored_hash(c) == h(c) as nat
            } by {
                assert(rest[k] == spans[k + 1]);
            }
            lemma_scan_in_step_changes_nothing(s, pos + f, p, h);
        }
    }
}

/// Whether the checksum recorded in container `c` is the one `h` computes
/// over it.
pub open spec fn in_step(c: Seq<u8>, h: spec_fn(Seq<u8>) -> u128) -> bool {
    stored_hash(c) == h(c) as nat
}

/// Whether the sub-containers that the scan of the data of container `c0`
/// meets sit, in container `c`, with their checksums in step.
pub open spec fn subs_in_step(c0: Seq<u8>, c: Seq<u8>, h: spec_fn(Seq<u8>) -> u128) -> bool {
    let subs = scan_spans(c0.subrange(32, c0.len() as int), 0);
    forall|j: int|
        0 <= j < subs.len() ==> in_step(
            c.subrange((32 + (#[trigger] subs[j]).0) as int, (32 + subs[j].0 + subs[j].1) as int),
            h,
        )
}

/// Whether container `c0` gets its own checksum brought up to date by the
/// recursive scan: it holds no data to scan, or the scan of its data found
/// no sub-container, or patched one.
pub open spec fn outer_refixed<P: BinaryPatcher>(
    c0: Seq<u8>,
    p: P,
    h: spec_fn(Seq<u8>) -> u128,
) -> bool {
    let sub = scan_from(c0.subrange(32, c0.len() as int), 0, false, p, h);
    c0.len() < 64 || (sub matches Ok((_, found, patched)) && (found == 0 || patched != 0))
}

proof fn lemma_container_in_step<P: BinaryPatcher>(c: Seq<u8>, p: P, h: spec_fn(Seq<u8>) -> u128)
    requires
        c.len() >= 32,
        keeps_length(p),
        ignores_digest(h),
        container_outcome(c, true, p, h) is Ok,
    ensures
        ({
            let c2 = container_outcome(c, true, p, h)->Ok_0.0;
            &&& c2.len() == c.len()
            &&& subs_in_step(c, c2, h)
            &&& outer_refixed(c, p, h) ==> in_step(c2, h)
        }),
{
    let d0 = c.subrange(32, c.len() as int);
    let c2 = container_outcome(c, true, p, h)->Ok_0.0;
    if c.len() >= 64 {
        let sub = scan_from(d0, 0, false, p, h);
        assert(sub is Ok);
        lemma_scan_keeps_checksums_in_step(d0, 0, p, h);
        let (d1, found, patched) = sub->Ok_0;
        let c1 = c.subrange(0, 32) + d1;
        let subs = scan_spans(d0, 0);
        lemma_scan_spans_bounds(d0, 0);
        if found == 0 {
            let c3 = p.spec_patch(c1, stored_hash(c1) as u128).0;
            lemma_fixed_len(c3, h);
            lemma_fix_checksum_idempotent(c3, h);
        } else if patched == 0 {
            assert(c2 == c1);
            assert forall|j: int| 0 <= j < subs.len() implies in_step(
                c2.subrange((32 + (#[trigger] subs[j]).0) as int, (32 + subs[j].0 + subs[j].1) as int),
                h,
            ) by {
                assert(c2.subrange((32 + subs[j].0) as int, (32 + subs[j].0 + subs[j].1) as int) =~= d1.subrange(
                    subs[j].0 as int,
                    (subs[j].0 + subs[j].1) as int,
                ));
            }
        } else {
            lemma_fixed_len(c1, h);
            lemma_fix_checksum_idempotent(c1, h);
            lemma_le_bytes_len(h(c1) as nat, 16);
            assert forall|j: int| 0 <= j < subs.len() implies in_step(
                c2.subrange((32 + (#[trigger] subs[j]).0) as int, (32 + subs[j].0 + subs[j].1) as int),
                h,
            ) by {
                assert(c2.subrange((32 + subs[j].0) as int, (32 + subs[j].0 + subs[j].1) as int) =~= d1.subrange(
                    subs[j].0 as int,
                    (subs[j].0 + subs[j].1) as int,
                ));
            }
        }
    } else {
        assert(scan_spans(d0, 0).len() == 0);
        let c3 = p.spec_patch(c, stored_hash(c) as u128).0;
        lemma_fixed_len(c3, h);
        lemma_fix_checksum_idempotent(c3, h);
    }
}

/// Law: a run of the recursive scan that succeeds keeps the length of the
/// bytes, and in each container it meets leaves every sub-container that the
/// scan of its data met with its checksum in step; the container itself is
/// in step too whenever its checksum is brought up to date, that is unless
/// the scan of its data found sub-containers and patched none of them. This
/// holds for a patcher that keeps lengths and a checksum that does not look
/// at the recorded one.
pub proof fn lemma_recursive_scan_keeps_checksums_in_step<P: BinaryPatcher>(
    s: Seq<u8>,
    pos: nat,
    p: P,
    h: spec_fn(Seq<u8>) -> u128,
)
    requires
        keeps_length(p),
        ignores_digest(h),
        scan_from(s, pos, true, p, h) is Ok,
    ensures
        ({
            let t = scan_from(s, pos, true, p, h)->Ok_0.0;
            let spans = scan_spans(s, pos);
            &&& t.len() == s.len()
            &&& forall|i: int| 0 <= i < pos ==> t[i] == s[i]
            &&& forall|k: int|
                0 <= k < spans.len() ==> {
                    let c0 = s.subrange(
                        (#[trigger] spans[k]).0 as int,
                        (spans[k].0 + spans[k].1) as int,
                    );
                    let c = t.subrange(spans[k].0 as int, (spans[k].0 + spans[k].1) as int);
                    &&& subs_in_step(c0, c, h)
                    &&& outer_refixed(c0, p, h) ==> in_step(c, h)
                }
        }),
    decreases s.len() - pos,
{
    lemma_scan_spans_bounds(s, pos);
    if pos + 32 >= s.len() {
    } else if !has_magic(s, pos as int) {
        lemma_recursive_scan_keeps_checksums_in_step(s, pos + 1, p, h);
        assert(scan_spans(s, pos) == scan_spans(s, pos + 1));
        assert(scan_from(s, pos, true, p, h) == scan_from(s, pos + 1, true, p, h));
    } else {
        let f = file_size_at(s, pos as int);
        if f < 32 || pos + f > s.len() {
        } else {
            let c = s.subrange(pos as int, (pos + f) as int);
            lemma_scan_container_step(s, pos, true, p, h);
            assert(container_outcome(c, true, p, h) is Ok);
            lemma_container_in_step(c, p, h);
            let c2 = container_outcome(c, true, p, h)->Ok_0.0;
            let s2 = splice(s, pos as int, c2);
            lemma_splice(s, pos as int, c2);
            lemma_scan_spans_local(s, s2, pos + f);
            lemma_recursive_scan_keeps_checksums_in_step(s2, pos + f, p, h);
            lemma_scan_spans_bounds(s2, pos + f);
            let t = scan_from(s, pos, true, p, h)->Ok_0.0;
            let spans = scan_spans(s, pos);
            let rest = scan_spans(s, pos + f);
            assert(spans == seq![(pos, f)] + rest);
            assert(t.subrange(pos as int, (pos + f) as int) =~= c2) by {
                assert forall|i: int| pos <= i < pos + f implies t[i] == s2[i] by {}
            }
            assert forall|k: int| 0 <= k < spans.len() implies {
                let c0 = s.subrange(
                    (#[trigger] spans[k]).0 as int,
                    (spans[k].0 + spans[k].1) as int,
                );
                let c = t.subrange(spans[k].0 as int, (spans[k].0 + spans[k].1) as int);
                &&& subs_in_step(c0, c, h)
                &&& outer_refixed(c0, p, h) ==> in_step(c, h)
            } by {
                if k > 0 {
                    assert(spans[k] == rest[k - 1]);
                    let at = spans[k].0 as int;
                    let end = (spans[k].0 + spans[k].1) as int;
                    assert(s2.subrange(at, end) =~= s.subrange(at, end));
                }
            }
            assert forall|i: int| 0 <= i < pos implies t[i] == s[i] by {
                assert(t[i] == s2[i]);
            }
        }
    }
}

} // verus!
