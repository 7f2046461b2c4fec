use shader_patcher::error::Error;
use shader_patcher::memory::{
    RegionInfo, RegionRead, RegionWrite, ShaderPatcher, MEM_COMMIT, PAGE_READONLY, PAGE_READWRITE,
};
use shader_patcher::patcher::SimplePatcher;

fn region(base: usize, size: usize, state: u32, protect: u32) -> RegionInfo {
    RegionInfo { base_address: base, region_size: size, state, protect }
}

#[test]
fn addresses_past_the_module_are_refused() {
    let p = ShaderPatcher::new(0x1000, 0x300);
    assert_eq!(p.mempage_address(0), Ok(0x1000));
    assert_eq!(p.mempage_address(0x2ff), Ok(0x12ff));
    assert_eq!(p.mempage_address(0x300), Err(Error::AddressBeyondModule));
}

#[test]
fn only_committed_read_only_regions_are_wanted() {
    assert!(ShaderPatcher::wants_region(&region(0, 16, MEM_COMMIT, PAGE_READONLY)));
    assert!(!ShaderPatcher::wants_region(&region(0, 16, MEM_COMMIT, PAGE_READWRITE)));
    assert!(!ShaderPatcher::wants_region(&region(0, 16, 0x2000, PAGE_READONLY)));
}

#[test]
fn recorded_regions_come_back_in_the_commit_plan() {
    let mut p = ShaderPatcher::new(0x1000, 0x300);
    let a = region(0x1000, 4, MEM_COMMIT, PAGE_READONLY);
    let b = region(0x1100, 3, MEM_COMMIT, PAGE_READONLY);
    assert_eq!(p.record_region(a, vec![1, 2, 3, 4], 4), Ok(()));
    assert_eq!(p.record_region(b, vec![5, 6, 7], 3), Ok(()));
    assert_eq!(p.view_memory(), &[1, 2, 3, 4, 5, 6, 7]);
    let plan = p.commit_plan();
    assert_eq!(
        plan,
        vec![RegionWrite { info: a, start: 0, end: 4 }, RegionWrite { info: b, start: 4, end: 7 }]
    );
    assert_eq!(&p.view_memory()[plan[1].start..plan[1].end], &[5, 6, 7]);
}

#[test]
fn partial_reads_are_reported_and_not_recorded() {
    let mut p = ShaderPatcher::new(0x1000, 0x300);
    let a = region(0x1000, 4, MEM_COMMIT, PAGE_READONLY);
    assert_eq!(p.record_region(a, vec![1, 2, 0, 0], 2), Err(Error::PartialMemoryRead(2, 4)));
    assert_eq!(p.commit_plan(), vec![]);
    assert_eq!(p.view_memory(), &[1, 2, 0, 0]);
}

fn fake_checksum(d: &[u8]) -> u128 {
    d[20..].iter().map(|&b| b as u128).sum()
}

#[test]
fn patch_shaders_patches_the_copy() {
    let mut bytes = b"DXBC".to_vec();
    bytes.extend(0x85d254ecdbd4d71dcdec559258d1e696u128.to_le_bytes());
    bytes.extend([1, 0, 0, 0]);
    bytes.extend(80u32.to_le_bytes());
    bytes.extend(1u32.to_le_bytes());
    let mut data = vec![0u8; 32];
    for _ in 0..3 {
        data.extend(2.4f32.to_le_bytes());
    }
    data.extend([0u8; 4]);
    bytes.extend(&data);
    bytes.extend(vec![0u8; 8]);
    let mut p = ShaderPatcher::new(0x1000, 0x300);
    let n = bytes.len();
    assert_eq!(p.record_region(region(0x1000, n, MEM_COMMIT, PAGE_READONLY), bytes, n), Ok(()));
    let patcher = SimplePatcher::with_gamma(2.0f32.to_bits(), false).unwrap();
    assert_eq!(p.patch_shaders(&patcher, &fake_checksum), Ok(1));
    let mem = p.view_memory();
    assert_eq!(&mem[64..68], &2.0f32.to_le_bytes());
    assert_eq!(u128::from_le_bytes(mem[4..20].try_into().unwrap()), fake_checksum(&mem[..80]));
}

#[test]
fn read_loop_records_the_wanted_regions_in_order() {
    let mut p = ShaderPatcher::new(0x1000, 0x300);
    let a = region(0x1000, 2, MEM_COMMIT, PAGE_READONLY);
    let skipped = region(0x1002, 5, MEM_COMMIT, PAGE_READWRITE);
    let b = region(0x1007, 3, MEM_COMMIT, PAGE_READONLY);
    let reads = vec![
        RegionRead { info: a, bytes: vec![1, 2], bytes_read: 2 },
        RegionRead { info: skipped, bytes: vec![], bytes_read: 0 },
        RegionRead { info: b, bytes: vec![3, 4, 5], bytes_read: 3 },
    ];
    assert_eq!(p.record_regions(reads), Ok(()));
    assert_eq!(p.view_memory(), &[1u8, 2, 3, 4, 5][..]);
    assert_eq!(
        p.commit_plan(),
        vec![RegionWrite { info: a, start: 0, end: 2 }, RegionWrite { info: b, start: 2, end: 5 }]
    );
}

#[test]
fn read_loop_stops_at_a_partial_read() {
    let mut p = ShaderPatcher::new(0x1000, 0x300);
    let a = region(0x1000, 2, MEM_COMMIT, PAGE_READONLY);
    let b = region(0x1002, 3, MEM_COMMIT, PAGE_READONLY);
    let c = region(0x1005, 1, MEM_COMMIT, PAGE_READONLY);
    let reads = vec![
        RegionRead { info: a, bytes: vec![1, 2], bytes_read: 2 },
        RegionRead { info: b, bytes: vec![3, 0, 0], bytes_read: 1 },
        RegionRead { info: c, bytes: vec![9], bytes_read: 1 },
    ];
    assert_eq!(p.record_regions(reads), Err(Error::PartialMemoryRead(1, 3)));
    assert_eq!(p.view_memory(), &[1u8, 2, 3, 0, 0][..]);
    assert_eq!(p.commit_plan(), vec![RegionWrite { info: a, start: 0, end: 2 }]);
}

#[test]
fn read_loop_steps_by_region_size() {
    assert_eq!(ShaderPatcher::next_offset(0x1000, 0x200), Some(0x1200));
    assert_eq!(ShaderPatcher::next_offset(usize::MAX - 1, 2), None);
    assert_eq!(ShaderPatcher::next_offset(usize::MAX - 1, 1), Some(usize::MAX));
}

#[test]
fn read_loop_stops_only_at_a_partial_read_of_a_wanted_region() {
    let wanted = region(0, 4, MEM_COMMIT, PAGE_READONLY);
    let other = region(0, 4, MEM_COMMIT, PAGE_READWRITE);
    assert!(ShaderPatcher::keeps_reading(&RegionRead { info: wanted, bytes: vec![0; 4], bytes_read: 4 }));
    assert!(!ShaderPatcher::keeps_reading(&RegionRead { info: wanted, bytes: vec![0; 4], bytes_read: 3 }));
    assert!(ShaderPatcher::keeps_reading(&RegionRead { info: other, bytes: vec![], bytes_read: 0 }));
}

#[test]
fn memory_is_written_back_only_when_something_was_patched() {
    assert!(!ShaderPatcher::writes_back(0));
    assert!(ShaderPatcher::writes_back(1));
    assert!(ShaderPatcher::writes_back(7));
}
