use shader_patcher::dxcontainer::{
    containers_well_formed, dump_scan_ok, patch_recursive, shader_dumps, DXContainerHeader,
    DXContainerViewMut, ShaderDump, DXBC_MAGIC, DX_HEADER_SIZE,
};
use shader_patcher::error::Error;
use shader_patcher::patcher::SimplePatcher;
use shader_patcher::BinaryPatcher;

/// A checksum over everything after the recorded digest, as the DXBC one is.
fn fake_checksum(d: &[u8]) -> u128 {
    d[20..]
        .iter()
        .fold(7u128, |a, &b| a.wrapping_mul(1_000_003).wrapping_add(b as u128))
}

fn container(data: &[u8], digest: u128) -> Vec<u8> {
    let mut c = Vec::new();
    c.extend_from_slice(&DXBC_MAGIC);
    c.extend_from_slice(&digest.to_le_bytes());
    c.extend_from_slice(&1u16.to_le_bytes());
    c.extend_from_slice(&0u16.to_le_bytes());
    c.extend_from_slice(&((DX_HEADER_SIZE + data.len()) as u32).to_le_bytes());
    c.extend_from_slice(&1u32.to_le_bytes());
    c.extend_from_slice(data);
    c
}

fn vector(x: f32) -> Vec<u8> {
    let mut v = Vec::new();
    for _ in 0..3 {
        v.extend_from_slice(&x.to_le_bytes());
    }
    v.extend_from_slice(&0f32.to_le_bytes());
    v
}

fn digest_of(c: &[u8]) -> u128 {
    u128::from_le_bytes(c[4..20].try_into().unwrap())
}

struct Untouched;

impl BinaryPatcher for Untouched {
    fn patch(&self, _data: &mut [u8], _checksum: u128) -> Result<bool, Error> {
        Ok(false)
    }
}

struct Failing;

impl BinaryPatcher for Failing {
    fn patch(&self, _data: &mut [u8], _checksum: u128) -> Result<bool, Error> {
        Err(Error::ReplLenChange)
    }
}

#[test]
fn header_reads_fields_little_endian() {
    let c = container(&[0u8; 288], 0x0102030405060708090a0b0c0d0e0f10);
    let h = DXContainerHeader::from_bytes(&c[..32]);
    assert_eq!(h.magic, *b"DXBC");
    assert_eq!(h.file_size, 320);
    assert_eq!(h.major_version, 1);
    assert_eq!(h.minor_version, 0);
    assert_eq!(h.part_count, 1);
    assert_eq!(u128::from_le_bytes(h.digest), 0x0102030405060708090a0b0c0d0e0f10);
}

#[test]
fn header_bytes_round_trip() {
    let h = DXContainerHeader {
        magic: *b"DXBC",
        digest: [9; 16],
        major_version: 0x1234,
        minor_version: 0xfeed,
        file_size: 0xdeadbeef,
        part_count: 7,
    };
    let b = h.to_bytes();
    assert_eq!(b.len(), 32);
    let h2 = DXContainerHeader::from_bytes(&b);
    assert_eq!(h2.magic, h.magic);
    assert_eq!(h2.digest, h.digest);
    assert_eq!(h2.major_version, 0x1234);
    assert_eq!(h2.minor_version, 0xfeed);
    assert_eq!(h2.file_size, 0xdeadbeef);
    assert_eq!(h2.part_count, 7);
    assert_eq!(h2.to_bytes(), b);
}

#[test]
fn fix_checksum_records_new_and_returns_old() {
    let mut c = container(&[1, 2, 3, 4], 5);
    let expected = fake_checksum(&c);
    let mut view = DXContainerViewMut::from_raw(&mut c);
    assert_eq!(view.fix_checksum(&fake_checksum), Some(5));
    assert_eq!(u128::from_le_bytes(view.get_header().digest), expected);
    // A second fix finds the checksum up to date.
    assert_eq!(view.fix_checksum(&fake_checksum), None);
    assert_eq!(digest_of(&c), expected);
}

#[test]
fn get_data_mut_is_the_part_after_the_header() {
    let mut c = container(&[1, 2, 3], 0);
    let mut view = DXContainerViewMut::from_raw(&mut c);
    let data = view.get_data_mut();
    assert_eq!(data, &[1, 2, 3]);
    data[0] = 9;
    assert_eq!(c[32], 9);
}

#[test]
fn patch_reports_whether_the_checksum_changed() {
    let mut c = container(&[1, 2, 3, 4], 0);
    let sum = fake_checksum(&c);
    c[4..20].copy_from_slice(&sum.to_le_bytes());
    let mut view = DXContainerViewMut::from_raw(&mut c);
    assert_eq!(view.patch(&Untouched, &fake_checksum), Ok(false));
    let mut d = container(&[1, 2, 3, 4], 1);
    let mut view = DXContainerViewMut::from_raw(&mut d);
    assert_eq!(view.patch(&Untouched, &fake_checksum), Ok(true));
    let mut e = container(&[1, 2, 3, 4], 1);
    let mut view = DXContainerViewMut::from_raw(&mut e);
    assert_eq!(view.patch(&Failing, &fake_checksum), Err(Error::ReplLenChange));
}

fn gamma_patcher(ignore_whitelist: bool) -> SimplePatcher {
    SimplePatcher::with_gamma(2.2f32.to_bits(), ignore_whitelist).unwrap()
}

#[test]
fn patch_recursive_patches_a_single_container() {
    let mut data = vec![0xaa; 8];
    data.extend(vector(2.4));
    data.extend(vec![0xbb; 8]);
    let c = container(&data, 0);
    let mut mem = vec![0x11u8; 5];
    mem.extend(&c);
    mem.extend(vec![0x22u8; 40]);
    let before = mem.clone();
    let r = patch_recursive(&mut mem, &gamma_patcher(true), false, &fake_checksum);
    assert_eq!(r, Ok((1, 1)));
    let mut expected_data = vec![0xaa; 8];
    expected_data.extend(vector(2.2));
    expected_data.extend(vec![0xbb; 8]);
    assert_eq!(&mem[5 + 32..5 + 32 + expected_data.len()], &expected_data[..]);
    let end = 5 + c.len();
    assert_eq!(digest_of(&mem[5..end]), fake_checksum(&mem[5..end]));
    assert_eq!(&mem[..5], &before[..5]);
    assert_eq!(&mem[end..], &before[end..]);
}

#[test]
fn patch_recursive_fixes_outer_checksum_of_nested_containers() {
    let mut inner_data = vector(0.04045);
    inner_data.extend(vector(0.94786733));
    let inner = container(&inner_data, 0);
    let mut outer_data = vec![0u8; 4];
    outer_data.extend(&inner);
    outer_data.extend(vec![0u8; 32]);
    let outer = container(&outer_data, 3);
    let mut mem = outer.clone();
    mem.extend(vec![0u8; 8]);
    let r = patch_recursive(&mut mem, &gamma_patcher(true), true, &fake_checksum);
    // One sub-container found; it and its parent count as patched.
    assert_eq!(r, Ok((1, 2)));
    let inner_start = 32 + 4;
    let inner_end = inner_start + inner.len();
    assert_eq!(&mem[inner_start + 32..inner_start + 48], &vector(0.0)[..]);
    assert_eq!(&mem[inner_start + 48..inner_start + 64], &vector(1.0)[..]);
    assert_eq!(digest_of(&mem[inner_start..inner_end]), fake_checksum(&mem[inner_start..inner_end]));
    assert_eq!(digest_of(&mem[..outer.len()]), fake_checksum(&mem[..outer.len()]));
}

#[test]
fn patch_recursive_skips_shaders_off_the_whitelist() {
    let data = vector(2.4);
    let mut c = container(&data, 0);
    let sum = fake_checksum(&c);
    c[4..20].copy_from_slice(&sum.to_le_bytes());
    let mut mem = c.clone();
    mem.extend(vec![0u8; 4]);
    let r = patch_recursive(&mut mem, &gamma_patcher(false), false, &fake_checksum);
    assert_eq!(r, Ok((1, 0)));
    assert_eq!(&mem[..c.len()], &c[..]);
}

#[test]
fn patch_recursive_patches_whitelisted_shaders() {
    let data = vector(2.4);
    let c = container(&data, 0x85d254ecdbd4d71dcdec559258d1e696);
    let mut mem = c.clone();
    mem.extend(vec![0u8; 4]);
    let r = patch_recursive(&mut mem, &gamma_patcher(false), false, &fake_checksum);
    assert_eq!(r, Ok((1, 1)));
    assert_eq!(&mem[32..48], &vector(2.2)[..]);
}

#[test]
fn patch_recursive_stops_at_the_patchers_error() {
    let c = container(&[0u8; 40], 0);
    let mut mem = c.clone();
    mem.extend(vec![0u8; 4]);
    let r = patch_recursive(&mut mem, &Failing, false, &fake_checksum);
    assert_eq!(r, Err(Error::ReplLenChange));
}

#[test]
fn patch_recursive_finds_nothing_in_plain_bytes() {
    let mut mem = vec![0x44u8; 100];
    let r = patch_recursive(&mut mem, &Untouched, true, &fake_checksum);
    assert_eq!(r, Ok((0, 0)));
    assert_eq!(mem, vec![0x44u8; 100]);
}

#[test]
fn well_formedness_of_containers() {
    let c = container(&[0u8; 40], 0);
    let mut mem = c.clone();
    mem.extend(vec![0u8; 4]);
    assert!(containers_well_formed(&mem, false));
    assert!(containers_well_formed(&mem, true));
    // Too short to hold a header.
    assert!(!containers_well_formed(&[0u8; 10], false));
    // A container shorter than its header.
    let mut bad = mem.clone();
    bad[24..28].copy_from_slice(&8u32.to_le_bytes());
    assert!(!containers_well_formed(&bad, false));
    // A container that runs past the end.
    let mut long = mem.clone();
    long[24..28].copy_from_slice(&1000u32.to_le_bytes());
    assert!(!containers_well_formed(&long, false));
}

#[test]
fn dumps_list_top_level_or_all_containers() {
    let inner = container(&[5u8; 8], 0x77);
    let mut outer_data = inner.clone();
    outer_data.extend(vec![0u8; 8]);
    let outer = container(&outer_data, 0x99);
    let second = container(&[1u8; 4], 0x55);
    let mut mem = outer.clone();
    mem.extend(&second);
    assert!(dump_scan_ok(&mem, true));
    let big = shader_dumps(&mem, true);
    assert_eq!(
        big,
        vec![
            ShaderDump { hash: 0x99, start: 0, end: outer.len() },
            ShaderDump { hash: 0x55, start: outer.len(), end: outer.len() + second.len() },
        ]
    );
    assert!(dump_scan_ok(&mem, false));
    let all = shader_dumps(&mem, false);
    assert_eq!(
        all,
        vec![
            ShaderDump { hash: 0x99, start: 0, end: outer.len() },
            ShaderDump { hash: 0x77, start: 32, end: 32 + inner.len() },
            ShaderDump { hash: 0x55, start: outer.len(), end: outer.len() + second.len() },
        ]
    );
    // Whole-container dumps do not overlap.
    for w in big.windows(2) {
        assert!(w[0].end <= w[1].start);
    }
}

#[test]
fn dump_scan_refuses_a_magic_cut_at_the_end() {
    assert!(!dump_scan_ok(b"xxD", false));
    assert!(!dump_scan_ok(b"xxDXB", true));
    assert!(dump_scan_ok(b"xxDa", false));
    let mut short = b"DXBC".to_vec();
    short.extend([0u8; 10]);
    assert!(!dump_scan_ok(&short, false));
}

/// Writes a mark into the data it is handed; fails on data that holds 0x99.
struct MarkThenFailOnMarker;

impl BinaryPatcher for MarkThenFailOnMarker {
    fn patch(&self, data: &mut [u8], _checksum: u128) -> Result<bool, Error> {
        let fail = data.contains(&0x99);
        data[32] = if fail { 0xee } else { 0x77 };
        if fail {
            Err(Error::ReplLenChange)
        } else {
            Ok(true)
        }
    }
}

#[test]
fn patch_keeps_what_the_failing_patcher_left() {
    let mut c = container(&[0x99, 2, 3, 4], 5);
    let mut view = DXContainerViewMut::from_raw(&mut c);
    assert_eq!(view.patch(&MarkThenFailOnMarker, &fake_checksum), Err(Error::ReplLenChange));
    assert_eq!(c[32], 0xee);
    assert_eq!(digest_of(&c), 5);
}

#[test]
fn patch_recursive_keeps_earlier_work_after_an_error() {
    let a = container(&[1u8; 8], 3);
    let b = container(&[0x99u8; 8], 4);
    let mut mem = a.clone();
    mem.extend(&b);
    mem.extend(vec![0u8; 40]);
    let r = patch_recursive(&mut mem, &MarkThenFailOnMarker, false, &fake_checksum);
    assert_eq!(r, Err(Error::ReplLenChange));
    let first = &mem[..a.len()];
    assert_eq!(first[32], 0x77);
    assert_eq!(digest_of(first), fake_checksum(first));
    let second = &mem[a.len()..a.len() + b.len()];
    assert_eq!(second[32], 0xee);
    assert_eq!(digest_of(second), 4);
}
