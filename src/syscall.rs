//! The file syscalls. Each returns one signed integer: `-1` on failure, a
//! byte count, a descriptor or `0` on success.
use crate::buffer::translated_byte_buffer;
use crate::file::FileHandle;
use crate::file::STAT_SIZE;
use crate::file::open_file;
use crate::file::open_result;
use crate::file::read_file;
use crate::file::read_result;
use crate::file::stat_file;
use crate::file::stat_result;
use crate::file::valid_flags;
use crate::file::write_count;
use crate::file::write_file;
use crate::file::write_result;
use crate::fs::FileSystem;
use crate::fs::MAX_FILE_SIZE;
use crate::fs::bytes_eq;
use crate::mm::ps;
use crate::task::Process;
use crate::task::fd_open;
use crate::task::lowest_free_fd;
use vstd::prelude::*;

verus! {

/// `h` with its offset moved on by `n`.
pub open spec fn advanced(h: FileHandle, n: nat) -> FileHandle {
    FileHandle { offset: (h.offset + n) as usize, ..h }
}

/// Writes the `len` bytes at `buf` to the file that `fd` names, from its
/// offset on. Returns how many were stored (see `write_count`), or `-1` where
/// `fd` names no open file, in which case nothing changes and user memory is
/// not read.
pub fn sys_write(proc: &mut Process, fs: &mut FileSystem, fd: usize, buf: usize, len: usize) -> (r:
    isize)
    requires
        old(proc).space.wf(),
        old(fs)@.wf(),
        fd_open(old(proc).fd_table@, fd as int) ==> old(proc).space.range_mapped(
            buf as int,
            len as int,
        ),
    ensures
        final(fs)@.wf(),
        final(proc).space == old(proc).space,
        (r < 0) == !fd_open(old(proc).fd_table@, fd as int),
        !fd_open(old(proc).fd_table@, fd as int) ==> r == -1 && final(fs)@ == old(fs)@
            && final(proc).fd_table@ == old(proc).fd_table@,
        fd_open(old(proc).fd_table@, fd as int) ==> {
            let h = old(proc).fd_table@[fd as int].unwrap();
            let data = old(proc).space.bytes(buf as int, len as int);
            let n = write_count(old(fs)@, h, len as nat);
            &&& r == n
            &&& final(fs)@ == write_result(old(fs)@, h, data)
            &&& final(proc).fd_table@ == old(proc).fd_table@.update(fd as int, Some(advanced(h, n)))
        },
{
    if fd >= proc.fd_table.len() {
        return -1;
    }
    let mut h = match proc.fd_table[fd] {
        Some(h) => h,
        None => return -1,
    };
    let ubuf = translated_byte_buffer(&proc.space, buf, len);
    let data = ubuf.read_all(&proc.space);
    proof {
        ubuf.lemma_gather_bytes(&proc.space, buf as int, len as int);
    }
    let n = write_file(fs, &mut h, &data);
    proc.fd_table.set(fd, Some(h));
    n as isize
}

/// Reads up to `len` bytes from the file that `fd` names, from its offset on,
/// into user memory at `buf`. Returns how many were read (see `read_result`),
/// or `-1` where `fd` names no open file, in which case nothing changes.
pub fn sys_read(proc: &mut Process, fs: &FileSystem, fd: usize, buf: usize, len: usize) -> (r: isize)
    requires
        old(proc).space.wf(),
        fs@.wf(),
        fd_open(old(proc).fd_table@, fd as int) ==> old(proc).space.range_mapped(
            buf as int,
            len as int,
        ),
    ensures
        final(proc).space.wf(),
        (r < 0) == !fd_open(old(proc).fd_table@, fd as int),
        !fd_open(old(proc).fd_table@, fd as int) ==> r == -1 && *final(proc) == *old(proc),
        fd_open(old(proc).fd_table@, fd as int) ==> {
            let h = old(proc).fd_table@[fd as int].unwrap();
            let data = read_result(fs@, h, len as nat);
            &&& r == data.len()
            &&& final(proc).space.bytes(buf as int, data.len() as int) == data
            &&& final(proc).space.same_outside(&old(proc).space, buf as int, data.len() as int)
            &&& final(proc).fd_table@ == old(proc).fd_table@.update(
                fd as int,
                Some(advanced(h, data.len())),
            )
        },
{
    if fd >= proc.fd_table.len() {
        return -1;
    }
    let mut h = match proc.fd_table[fd] {
        Some(h) => h,
        None => return -1,
    };
    let ubuf = translated_byte_buffer(&proc.space, buf, len);
    let data = read_file(fs, &mut h, len);
    let ghost before = proc.space;
    proof {
        ubuf.lemma_covers_distinct(&before, buf as int, len as int);
        assert(data@.len() <= len);
    }
    ubuf.write_all(&mut proc.space, &data);
    proof {
        ubuf.lemma_scatter_bytes(&before, &proc.space, buf as int, len as int, data@);
        assert(data@.len() <= MAX_FILE_SIZE);
    }
    proc.fd_table.set(fd, Some(h));
    data.len() as isize
}

/// Opens the file whose NUL-terminated path is at `path`, with the open mode
/// `flags` (see `open_result`), and stores it in the lowest empty descriptor.
/// Returns that descriptor, or `-1` where the path is missing and `O_CREATE`
/// is not given, in which case nothing changes.
pub fn sys_open(proc: &mut Process, fs: &mut FileSystem, path: usize, flags: u32) -> (r: isize)
    requires
        old(proc).space.wf(),
        old(fs)@.wf(),
        old(proc).space.has_c_str(path as int),
        valid_flags(flags),
        old(proc).fd_table@.len() < isize::MAX,
    ensures
        final(fs)@.wf(),
        final(proc).space == old(proc).space,
        ({
            let (fs1, opened) = open_result(old(fs)@, old(proc).space.c_str(path as int), flags);
            &&& final(fs)@ == fs1
            &&& match opened {
                None => r == -1 && final(proc).fd_table@ == old(proc).fd_table@,
                Some(h) => {
                    let fd = lowest_free_fd(old(proc).fd_table@);
                    &&& r == fd
                    &&& final(proc).fd_table@ == if fd < old(proc).fd_table@.len() {
                        old(proc).fd_table@.update(fd, Some(h))
                    } else {
                        old(proc).fd_table@.push(Some(h))
                    }
                },
            }
        }),
{
    let name = proc.space.translated_str(path);
    match open_file(fs, name, flags) {
        Some(h) => {
            let ghost t0 = proc.fd_table@;
            let fd = proc.alloc_fd();
            proc.fd_table.set(fd, Some(h));
            proof {
                if fd < t0.len() {
                    assert(proc.fd_table@ =~= t0.update(fd as int, Some(h)));
                } else {
                    assert(proc.fd_table@ =~= t0.push(Some(h)));
                }
            }
            fd as isize
        },
        None => -1,
    }
}

/// Closes `fd`, emptying its slot. Returns `0`, or `-1` where `fd` names no
/// open file, in which case nothing changes.
pub fn sys_close(proc: &mut Process, fd: usize) -> (r: isize)
    ensures
        final(proc).space == old(proc).space,
        r == if fd_open(old(proc).fd_table@, fd as int) {
            0isize
        } else {
            -1isize
        },
        final(proc).fd_table@ == if fd_open(old(proc).fd_table@, fd as int) {
            old(proc).fd_table@.update(fd as int, None)
        } else {
            old(proc).fd_table@
        },
{
    if fd >= proc.fd_table.len() {
        return -1;
    }
    if proc.fd_table[fd].is_none() {
        return -1;
    }
    proc.fd_table.set(fd, None);
    0
}

/// Writes the status record of the file that `fd` names (see `stat_result`)
/// to user memory at `st`. Returns `0`, or `-1` where `fd` names no open file,
/// in which case nothing changes.
pub fn sys_fstat(proc: &mut Process, fs: &FileSystem, fd: usize, st: usize) -> (r: isize)
    requires
        old(proc).space.wf(),
        fs@.wf(),
        fd_open(old(proc).fd_table@, fd as int) ==> old(proc).space.mapped(st as int) && st as int
            % ps() + STAT_SIZE <= ps(),
    ensures
        final(proc).space.wf(),
        final(proc).fd_table@ == old(proc).fd_table@,
        !fd_open(old(proc).fd_table@, fd as int) ==> r == -1 && final(proc).space == old(
            proc,
        ).space,
        fd_open(old(proc).fd_table@, fd as int) ==> {
            let h = old(proc).fd_table@[fd as int].unwrap();
            &&& r == 0
            &&& final(proc).space.bytes(st as int, STAT_SIZE as int) == stat_result(fs@, h).bytes()
            &&& final(proc).space.same_outside(&old(proc).space, st as int, STAT_SIZE as int)
        },
{
    if fd >= proc.fd_table.len() {
        return -1;
    }
    let h = match proc.fd_table[fd] {
        Some(h) => h,
        None => return -1,
    };
    let record = stat_file(fs, &h).to_bytes();
    proc.space.write_value(st, &record);
    0
}

/// Adds the path at `new_path` as a hard link to the file at `old_path`.
/// Returns `-1` where the two paths are equal, changing nothing; otherwise
/// returns `0` and the filesystem becomes `link(old, new)`, which leaves it
/// unchanged where `old` is missing or `new` is taken.
pub fn sys_linkat(proc: &Process, fs: &mut FileSystem, old_path: usize, new_path: usize) -> (r:
    isize)
    requires
        proc.space.wf(),
        old(fs)@.wf(),
        proc.space.has_c_str(old_path as int),
        proc.space.has_c_str(new_path as int),
    ensures
        final(fs)@.wf(),
        ({
            let from = proc.space.c_str(old_path as int);
            let to = proc.space.c_str(new_path as int);
            &&& r == if from == to {
                -1isize
            } else {
                0isize
            }
            &&& final(fs)@ == if from == to {
                old(fs)@
            } else {
                old(fs)@.link(from, to)
            }
        }),
{
    let from = proc.space.translated_str(old_path);
    let to = proc.space.translated_str(new_path);
    if bytes_eq(&from, &to) {
        return -1;
    }
    let _linked = fs.link(&from, to);
    0
}

/// Removes the path at `path` (see `FsView::unlink`). Returns `0`, or `-1`
/// where no such name exists, in which case nothing changes.
pub fn sys_unlinkat(proc: &Process, fs: &mut FileSystem, path: usize) -> (r: isize)
    requires
        proc.space.wf(),
        old(fs)@.wf(),
        proc.space.has_c_str(path as int),
    ensures
        final(fs)@.wf(),
        final(fs)@ == old(fs)@.unlink(proc.space.c_str(path as int)),
        r == if old(fs)@.has_name(proc.space.c_str(path as int)) {
            0isize
        } else {
            -1isize
        },
{
    let name = proc.space.translated_str(path);
    if fs.unlink(&name) {
        0
    } else {
        -1
    }
}

} // verus!
