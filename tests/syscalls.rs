use fs_syscalls::buffer::translated_byte_buffer;
use fs_syscalls::file::{
    open_file, read_file, FileHandle, Stat, O_APPEND, O_CREATE, O_RDONLY, O_RDWR, O_TRUNC,
    O_WRONLY, S_IFREG, STAT_SIZE,
};
use fs_syscalls::fs::{bytes_eq, FileSystem};
use fs_syscalls::mm::{AddressSpace, PAGE_SIZE};
use fs_syscalls::syscall::{
    sys_close, sys_fstat, sys_linkat, sys_open, sys_read, sys_unlinkat, sys_write,
};
use fs_syscalls::task::Process;

/// Page 3 holds path strings; pages 0..3 are free for buffers, mapped to
/// frames out of order so that a buffer crossing a page boundary is split.
const PATHS: usize = 3 * PAGE_SIZE;
const STAT_AT: usize = 2 * PAGE_SIZE + 64;

fn setup() -> (Process, FileSystem) {
    let mut space = AddressSpace::new();
    for vpn in [0usize, 2, 1, 3] {
        assert!(space.map_page(vpn));
    }
    (Process::new(space), FileSystem::new(7))
}

/// Puts the NUL-terminated `s` at slot `slot` of the path page and returns its address.
fn path(p: &mut Process, slot: usize, s: &str) -> usize {
    let at = PATHS + slot * 64;
    let mut bytes = s.as_bytes().to_vec();
    bytes.push(0);
    p.space.write_value(at, &bytes);
    at
}

fn put(p: &mut Process, at: usize, data: &[u8]) {
    for (i, b) in data.iter().enumerate() {
        p.space.write_value(at + i, &vec![*b]);
    }
}

fn get(p: &Process, at: usize, len: usize) -> Vec<u8> {
    (0..len).map(|i| p.space.read_byte(at + i)).collect()
}

fn stat_nlink(p: &Process) -> u32 {
    let b = get(p, STAT_AT, STAT_SIZE);
    u32::from_le_bytes([b[20], b[21], b[22], b[23]])
}

fn stat_mode(p: &Process) -> u32 {
    let b = get(p, STAT_AT, STAT_SIZE);
    u32::from_le_bytes([b[16], b[17], b[18], b[19]])
}

fn create_with(p: &mut Process, fs: &mut FileSystem, name: &str, data: &[u8]) {
    let at = path(p, 0, name);
    let fd = sys_open(p, fs, at, O_CREATE | O_WRONLY);
    assert!(fd >= 0);
    put(p, 100, data);
    assert_eq!(sys_write(p, fs, fd as usize, 100, data.len()), data.len() as isize);
    assert_eq!(sys_close(p, fd as usize), 0);
}

#[test]
fn read_write_fail_exactly_on_bad_fd() {
    let (mut p, mut fs) = setup();
    assert_eq!(sys_read(&mut p, &fs, 0, 0, 4), -1);
    assert_eq!(sys_write(&mut p, &mut fs, 5, 0, 4), -1);
    let at = path(&mut p, 0, "f");
    assert_eq!(sys_open(&mut p, &mut fs, at, O_CREATE | O_RDWR), 0);
    assert_eq!(sys_write(&mut p, &mut fs, 0, 0, 0), 0);
    assert_eq!(sys_read(&mut p, &fs, 0, 0, 4), 0);
    assert_eq!(sys_read(&mut p, &fs, 1, 0, 4), -1);
    assert_eq!(sys_close(&mut p, 0), 0);
    assert_eq!(sys_read(&mut p, &fs, 0, 0, 4), -1);
    assert_eq!(sys_write(&mut p, &mut fs, 0, 0, 4), -1);
}

#[test]
fn open_then_read_prefix() {
    let (mut p, mut fs) = setup();
    create_with(&mut p, &mut fs, "data", b"hello world");
    let at = path(&mut p, 0, "data");
    let fd = sys_open(&mut p, &mut fs, at, O_RDONLY);
    assert_eq!(fd, 0);
    assert_eq!(sys_read(&mut p, &fs, 0, 500, 5), 5);
    assert_eq!(get(&p, 500, 5), b"hello".to_vec());
    assert_eq!(sys_read(&mut p, &fs, 0, 500, 100), 6);
    assert_eq!(get(&p, 500, 6), b" world".to_vec());
    assert_eq!(sys_read(&mut p, &fs, 0, 500, 100), 0);
}

#[test]
fn close_then_every_op_fails() {
    let (mut p, mut fs) = setup();
    let at = path(&mut p, 0, "f");
    assert_eq!(sys_open(&mut p, &mut fs, at, O_CREATE | O_RDWR), 0);
    assert_eq!(sys_close(&mut p, 0), 0);
    assert_eq!(sys_close(&mut p, 0), -1);
    assert_eq!(sys_read(&mut p, &fs, 0, 0, 1), -1);
    assert_eq!(sys_write(&mut p, &mut fs, 0, 0, 1), -1);
    assert_eq!(sys_fstat(&mut p, &fs, 0, STAT_AT), -1);
    assert_eq!(sys_close(&mut p, 9), -1);
}

#[test]
fn lowest_slot_is_reused() {
    let (mut p, mut fs) = setup();
    let at = path(&mut p, 0, "f");
    for want in 0..3 {
        assert_eq!(sys_open(&mut p, &mut fs, at, O_CREATE | O_RDWR), want);
    }
    assert_eq!(sys_close(&mut p, 1), 0);
    assert_eq!(sys_open(&mut p, &mut fs, at, O_RDONLY), 1);
    assert_eq!(sys_open(&mut p, &mut fs, at, O_RDONLY), 3);
}

#[test]
fn self_link_fails_and_changes_nothing() {
    let (mut p, mut fs) = setup();
    create_with(&mut p, &mut fs, "p", b"x");
    let a = path(&mut p, 1, "p");
    let b = path(&mut p, 2, "p");
    assert_eq!(sys_linkat(&p, &mut fs, a, b), -1);
    assert_eq!(sys_linkat(&p, &mut fs, a, a), -1);
    assert_eq!(fs.entries.len(), 1);
    let fd = sys_open(&mut p, &mut fs, a, O_RDONLY);
    assert_eq!(sys_fstat(&mut p, &fs, fd as usize, STAT_AT), 0);
    assert_eq!(stat_nlink(&p), 1);
}

#[test]
fn link_survives_unlink_of_original() {
    let (mut p, mut fs) = setup();
    create_with(&mut p, &mut fs, "old", b"content");
    let o = path(&mut p, 1, "old");
    let n = path(&mut p, 2, "new");
    assert_eq!(sys_linkat(&p, &mut fs, o, n), 0);
    let fd = sys_open(&mut p, &mut fs, n, O_RDONLY);
    assert_eq!(sys_fstat(&mut p, &fs, fd as usize, STAT_AT), 0);
    assert_eq!(stat_nlink(&p), 2);
    assert_eq!(sys_unlinkat(&p, &mut fs, o), 0);
    assert_eq!(sys_fstat(&mut p, &fs, fd as usize, STAT_AT), 0);
    assert_eq!(stat_nlink(&p), 1);
    assert_eq!(sys_read(&mut p, &fs, fd as usize, 700, 7), 7);
    assert_eq!(get(&p, 700, 7), b"content".to_vec());
    assert_eq!(sys_open(&mut p, &mut fs, o, O_RDONLY), -1);
}

#[test]
fn unlink_last_link_reclaims_storage() {
    let (mut p, mut fs) = setup();
    create_with(&mut p, &mut fs, "secret", b"leftover");
    let s = path(&mut p, 1, "secret");
    assert_eq!(sys_unlinkat(&p, &mut fs, s), 0);
    assert!(fs.inodes[0].is_none());
    assert_eq!(sys_unlinkat(&p, &mut fs, s), -1);
    let f = path(&mut p, 2, "fresh");
    let fd = sys_open(&mut p, &mut fs, f, O_CREATE | O_RDWR);
    assert!(fd >= 0);
    assert_eq!(fs.inodes[0].as_ref().unwrap().data.len(), 0);
    assert_eq!(sys_read(&mut p, &fs, fd as usize, 700, 8), 0);
}

#[test]
fn fstat_of_new_file() {
    let (mut p, mut fs) = setup();
    let at = path(&mut p, 0, "new");
    let fd = sys_open(&mut p, &mut fs, at, O_CREATE | O_WRONLY);
    assert_eq!(sys_fstat(&mut p, &fs, fd as usize, STAT_AT), 0);
    assert_eq!(stat_nlink(&p), 1);
    assert_eq!(stat_mode(&p), S_IFREG);
    let b = get(&p, STAT_AT, STAT_SIZE);
    assert_eq!(u64::from_le_bytes(b[0..8].try_into().unwrap()), 7);
    assert_eq!(u64::from_le_bytes(b[8..16].try_into().unwrap()), 0);
    assert!(b[24..].iter().all(|x| *x == 0));
}

#[test]
fn end_to_end_link_and_unlink() {
    let (mut p, mut fs) = setup();
    let a = path(&mut p, 0, "a.txt");
    let b = path(&mut p, 1, "b.txt");
    let fd0 = sys_open(&mut p, &mut fs, a, O_CREATE | O_WRONLY);
    assert_eq!(fd0, 0);
    put(&mut p, 300, b"hello");
    assert_eq!(sys_write(&mut p, &mut fs, fd0 as usize, 300, 5), 5);
    assert_eq!(sys_close(&mut p, fd0 as usize), 0);
    let fd1 = sys_open(&mut p, &mut fs, a, O_RDONLY);
    assert!(fd1 >= 0);
    assert_eq!(sys_read(&mut p, &fs, fd1 as usize, 900, 5), 5);
    assert_eq!(get(&p, 900, 5), b"hello".to_vec());
    assert_eq!(sys_linkat(&p, &mut fs, a, b), 0);
    assert_eq!(sys_unlinkat(&p, &mut fs, a), 0);
    let fd2 = sys_open(&mut p, &mut fs, b, O_RDONLY);
    assert!(fd2 >= 0);
    assert_eq!(sys_read(&mut p, &fs, fd2 as usize, 1000, 5), 5);
    assert_eq!(get(&p, 1000, 5), b"hello".to_vec());
}

#[test]
fn buffers_cross_page_boundaries() {
    let (mut p, mut fs) = setup();
    let start = PAGE_SIZE - 3;
    let data: Vec<u8> = (1..=10).collect();
    put(&mut p, start, &data);
    let buf = translated_byte_buffer(&p.space, start, 10);
    assert_eq!(buf.segments.len(), 2);
    assert_eq!(buf.segments[0].len, 3);
    assert_eq!(buf.segments[1].len, 7);
    assert_eq!(buf.read_all(&p.space), data);
    let at = path(&mut p, 0, "x");
    let fd = sys_open(&mut p, &mut fs, at, O_CREATE | O_RDWR) as usize;
    assert_eq!(sys_write(&mut p, &mut fs, fd, start, 10), 10);
    assert_eq!(sys_close(&mut p, fd), 0);
    let fd = sys_open(&mut p, &mut fs, at, O_RDONLY) as usize;
    let dest = 2 * PAGE_SIZE - 4;
    assert_eq!(sys_read(&mut p, &fs, fd, dest, 10), 10);
    assert_eq!(get(&p, dest, 10), data);
    assert_eq!(p.space.read_byte(dest - 1), 0);
    assert_eq!(p.space.read_byte(dest + 10), 0);
}

#[test]
fn open_missing_without_create_fails() {
    let (mut p, mut fs) = setup();
    let at = path(&mut p, 0, "nothing");
    assert_eq!(sys_open(&mut p, &mut fs, at, O_RDONLY), -1);
    assert_eq!(sys_open(&mut p, &mut fs, at, O_TRUNC | O_RDWR), -1);
    assert_eq!(p.fd_table.len(), 0);
}

#[test]
fn truncate_and_append_modes() {
    let (mut p, mut fs) = setup();
    create_with(&mut p, &mut fs, "log", b"abc");
    let at = path(&mut p, 1, "log");
    let fd = sys_open(&mut p, &mut fs, at, O_WRONLY | O_APPEND) as usize;
    put(&mut p, 100, b"de");
    assert_eq!(sys_write(&mut p, &mut fs, fd, 100, 2), 2);
    let r = sys_open(&mut p, &mut fs, at, O_RDONLY) as usize;
    assert_eq!(sys_read(&mut p, &fs, r, 200, 10), 5);
    assert_eq!(get(&p, 200, 5), b"abcde".to_vec());
    let t = sys_open(&mut p, &mut fs, at, O_RDWR | O_TRUNC) as usize;
    assert_eq!(sys_read(&mut p, &fs, t, 200, 10), 0);
    put(&mut p, 100, b"Z");
    assert_eq!(sys_write(&mut p, &mut fs, t, 100, 1), 1);
    assert_eq!(fs.inodes[0].as_ref().unwrap().data, b"Z".to_vec());
}

#[test]
fn access_mode_limits_transfers() {
    let (mut p, mut fs) = setup();
    create_with(&mut p, &mut fs, "ro", b"abc");
    let at = path(&mut p, 1, "ro");
    let r = sys_open(&mut p, &mut fs, at, O_RDONLY) as usize;
    assert_eq!(sys_write(&mut p, &mut fs, r, 100, 3), 0);
    let w = sys_open(&mut p, &mut fs, at, O_WRONLY) as usize;
    assert_eq!(sys_read(&mut p, &fs, w, 100, 3), 0);
    assert_eq!(fs.inodes[0].as_ref().unwrap().data, b"abc".to_vec());
}

#[test]
fn write_past_end_fills_gap_with_zeros() {
    let mut fs = FileSystem::new(1);
    let mut h = open_file(&mut fs, b"g".to_vec(), O_CREATE | O_RDWR).unwrap();
    h.offset = 3;
    assert_eq!(fs_syscalls::file::write_file(&mut fs, &mut h, &b"xy".to_vec()), 2);
    assert_eq!(h.offset, 5);
    assert_eq!(fs.inodes[0].as_ref().unwrap().data, vec![0, 0, 0, b'x', b'y']);
    let mut r = FileHandle { ino: 0, offset: 1, readable: true, writable: false };
    assert_eq!(read_file(&fs, &mut r, 3), vec![0, 0, b'x']);
    assert_eq!(r.offset, 4);
}

#[test]
fn link_onto_taken_name_is_reported_as_success_but_ignored() {
    let (mut p, mut fs) = setup();
    create_with(&mut p, &mut fs, "one", b"1");
    create_with(&mut p, &mut fs, "two", b"2");
    let a = path(&mut p, 1, "one");
    let b = path(&mut p, 2, "two");
    let m = path(&mut p, 3, "missing");
    let c = path(&mut p, 4, "three");
    assert_eq!(sys_linkat(&p, &mut fs, a, b), 0);
    assert_eq!(sys_linkat(&p, &mut fs, m, c), 0);
    assert_eq!(fs.entries.len(), 2);
    assert_eq!(fs.inodes[0].as_ref().unwrap().nlink, 1);
    assert_eq!(fs.inodes[1].as_ref().unwrap().nlink, 1);
}

#[test]
fn stat_record_layout() {
    let st = Stat { dev: 0x0102030405060708, ino: 9, mode: S_IFREG, nlink: 3 };
    let b = st.to_bytes();
    assert_eq!(b.len(), STAT_SIZE);
    assert_eq!(b[0..8].to_vec(), vec![8, 7, 6, 5, 4, 3, 2, 1]);
    assert_eq!(b[8], 9);
    assert_eq!(b[16..20].to_vec(), vec![0, 0x80, 0, 0]);
    assert_eq!(b[20..24].to_vec(), vec![3, 0, 0, 0]);
}

#[test]
fn paths_compare_by_bytes() {
    assert!(bytes_eq(&b"abc".to_vec(), &b"abc".to_vec()));
    assert!(!bytes_eq(&b"abc".to_vec(), &b"abd".to_vec()));
    assert!(!bytes_eq(&b"ab".to_vec(), &b"abc".to_vec()));
    let (mut p, _) = setup();
    let at = path(&mut p, 5, "name");
    assert_eq!(p.space.translated_str(at), b"name".to_vec());
}

#[test]
fn mapping_a_page_twice_is_refused() {
    let mut space = AddressSpace::new();
    assert!(space.map_page(1));
    assert!(!space.map_page(1));
    assert_eq!(space.page_table.len(), 2);
    assert!(space.page_table[0].is_none());
    assert_eq!(space.phys.len(), PAGE_SIZE);
}
