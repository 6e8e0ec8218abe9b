//! Open files: handles, open modes, reading, writing and status records.
use crate::fs::FileKind;
use crate::fs::FileSystem;
use crate::fs::FsView;
use crate::fs::Inode;
use crate::fs::MAX_FILE_SIZE;
use crate::fs::inode_view;
use vstd::prelude::*;

verus! {

/// Open for reading only (no access bit set).
pub const O_RDONLY: u32 = 0;
/// Open for writing only.
pub const O_WRONLY: u32 = 1;
/// Open for reading and writing.
pub const O_RDWR: u32 = 2;
/// Create the file where the name is missing; empty it where it exists.
pub const O_CREATE: u32 = 512;
/// Empty an existing file.
pub const O_TRUNC: u32 = 1024;
/// Start at the end of the file.
pub const O_APPEND: u32 = 2048;
/// Every bit that an open mode may hold.
pub const O_ALL: u32 = 3587;

/// `flags` holds no bit beyond the known ones.
pub open spec fn valid_flags(flags: u32) -> bool {
    flags & !O_ALL == 0
}

/// The mode grants reading.
pub open spec fn flag_readable(flags: u32) -> bool {
    flags & 3 != O_WRONLY
}

/// The mode grants writing.
pub open spec fn flag_writable(flags: u32) -> bool {
    flags & 3 != O_RDONLY
}

/// An open file: the inode it reaches, the current offset and what it may do.
#[derive(Clone, Copy)]
pub struct FileHandle {
    pub ino: usize,
    pub offset: usize,
    pub readable: bool,
    pub writable: bool,
}

/// Status of a file, as it is laid out in user memory.
#[derive(Clone, Copy)]
pub struct Stat {
    pub dev: u64,
    pub ino: u64,
    pub mode: u32,
    pub nlink: u32,
}

/// Mode bits of a directory.
pub const S_IFDIR: u32 = 0o040000;
/// Mode bits of a regular file.
pub const S_IFREG: u32 = 0o100000;
/// Size of a status record in user memory, in bytes.
pub const STAT_SIZE: usize = 80;

/// The mode bits of a file kind.
pub open spec fn mode_of(kind: FileKind) -> u32 {
    match kind {
        FileKind::Regular => S_IFREG,
        FileKind::Directory => S_IFDIR,
    }
}

/// The `n` low bytes of `x`, least significant first.
pub open spec fn le_bytes(x: nat, n: nat) -> Seq<u8>
    decreases n,
{
    if n == 0 {
        seq![]
    } else {
        seq![(x % 256) as u8] + le_bytes(x / 256, (n - 1) as nat)
    }
}

/// `le_bytes(x, n)` has `n` bytes.
pub proof fn lemma_le_bytes_len(x: nat, n: nat)
    ensures
        le_bytes(x, n).len() == n,
    decreases n,
{
    if n > 0 {
        lemma_le_bytes_len(x / 256, (n - 1) as nat);
    }
}

impl Stat {
    /// The record as bytes: device, inode, mode and link count, little-endian,
    /// then zero padding up to `STAT_SIZE`.
    pub open spec fn bytes(self) -> Seq<u8> {
        le_bytes(self.dev as nat, 8) + le_bytes(self.ino as nat, 8) + le_bytes(self.mode as nat, 4)
            + le_bytes(self.nlink as nat, 4) + Seq::new(56, |i: int| 0u8)
    }
}

/// Appends the `n` low bytes of `x` to `out`, least significant first.
fn push_le(out: &mut Vec<u8>, x: u64, n: usize)
    requires
        n <= 8,
    ensures
        final(out)@ == old(out)@ + le_bytes(x as nat, n as nat),
{
    let ghost start = out@;
    let mut v = x;
    let mut i: usize = 0;
    while i < n
        invariant
            0 <= i <= n,
            out@ + le_bytes(v as nat, (n - i) as nat) == start + le_bytes(x as nat, n as nat),
        decreases n - i,
    {
        let ghost before = out@;
        out.push((v % 256) as u8);
        proof {
            assert(le_bytes(v as nat, (n - i) as nat) == seq![(v % 256) as u8] + le_bytes(
                (v / 256) as nat,
                (n - i - 1) as nat,
            ));
            assert(out@ + le_bytes((v / 256) as nat, (n - i - 1) as nat) =~= before + le_bytes(
                v as nat,
                (n - i) as nat,
            ));
        }
        v = v / 256;
        i = i + 1;
    }
    assert(out@ =~= out@ + le_bytes(v as nat, 0));
}

impl Stat {
    /// The record laid out as user memory holds it.
    pub fn to_bytes(&self) -> (r: Vec<u8>)
        ensures
            r@ == self.bytes(),
            r@.len() == STAT_SIZE,
    {
        proof {
            lemma_le_bytes_len(self.dev as nat, 8);
            lemma_le_bytes_len(self.ino as nat, 8);
            lemma_le_bytes_len(self.mode as nat, 4);
            lemma_le_bytes_len(self.nlink as nat, 4);
        }
        let mut out: Vec<u8> = Vec::new();
        push_le(&mut out, self.dev, 8);
        push_le(&mut out, self.ino, 8);
        push_le(&mut out, self.mode as u64, 4);
        push_le(&mut out, self.nlink as u64, 4);
        let ghost head = out@;
        let mut i: usize = 0;
        while i < 56
            invariant
                0 <= i <= 56,
                out@ == head + Seq::new(i as nat, |k: int| 0u8),
            decreases 56 - i,
        {
            out.push(0u8);
            i = i + 1;
            assert(out@ =~= head + Seq::new(i as nat, |k: int| 0u8));
        }
        assert(out@ =~= self.bytes());
        out
    }
}

/// The bytes that reading up to `len` bytes through `h` yields: from the
/// offset to the end of the file at most, nothing where the handle may not
/// read or its inode is gone.
pub open spec fn read_result(fs: FsView, h: FileHandle, len: nat) -> Seq<u8> {
    if h.readable && fs.live(h.ino as int) && h.offset < fs.inode(h.ino as int).data.len() {
        let data = fs.inode(h.ino as int).data;
        let end = if h.offset + len < data.len() {
            h.offset + len
        } else {
            data.len() as int
        };
        data.subrange(h.offset as int, end)
    } else {
        seq![]
    }
}

/// How many of `len` bytes writing through `h` stores: all that keep the
/// file within `MAX_FILE_SIZE`, none where the handle may not write or its
/// inode is gone.
pub open spec fn write_count(fs: FsView, h: FileHandle, len: nat) -> nat {
    if h.writable && fs.live(h.ino as int) && h.offset <= MAX_FILE_SIZE {
        if h.offset + len <= MAX_FILE_SIZE {
            len
        } else {
            (MAX_FILE_SIZE - h.offset) as nat
        }
    } else {
        0
    }
}

/// `data` written over `content` from `off` on; a gap before `off` reads as zeros.
pub open spec fn overwrite(content: Seq<u8>, off: int, data: Seq<u8>) -> Seq<u8> {
    let len = if off + data.len() > content.len() {
        off + data.len()
    } else {
        content.len() as int
    };
    Seq::new(
        len as nat,
        |i: int|
            if off <= i < off + data.len() {
                data[i - off]
            } else if i < content.len() {
                content[i]
            } else {
                0u8
            },
    )
}

/// The filesystem after writing `data` through `h`.
pub open spec fn write_result(fs: FsView, h: FileHandle, data: Seq<u8>) -> FsView {
    let n = write_count(fs, h, data.len());
    if n == 0 {
        fs
    } else {
        let node = fs.inode(h.ino as int);
        fs.put_inode(
            h.ino as int,
            Some(node.with_data(overwrite(node.data, h.offset as int, data.take(n as int)))),
        )
    }
}

/// The status record that `h` reports: its inode's kind and link count, or a
/// record with mode and link count zero where the inode is gone.
pub open spec fn stat_result(fs: FsView, h: FileHandle) -> Stat {
    if fs.live(h.ino as int) {
        Stat {
            dev: fs.dev,
            ino: h.ino as u64,
            mode: mode_of(fs.inode(h.ino as int).kind),
            nlink: fs.inode(h.ino as int).nlink as u32,
        }
    } else {
        Stat { dev: fs.dev, ino: h.ino as u64, mode: 0, nlink: 0 }
    }
}

/// The filesystem and the handle that opening `name` with `flags` gives.
pub open spec fn open_result(fs: FsView, name: Seq<u8>, flags: u32) -> (FsView, Option<FileHandle>) {
    let r = flag_readable(flags);
    let w = flag_writable(flags);
    let create = flags & O_CREATE != 0;
    let trunc = flags & O_TRUNC != 0;
    let append = flags & O_APPEND != 0;
    match fs.lookup(name) {
        Some(ino) => {
            let fs1 = if create || trunc {
                fs.truncate(ino as int)
            } else {
                fs
            };
            let off = if append {
                fs1.inode(ino as int).data.len() as usize
            } else {
                0usize
            };
            (fs1, Some(FileHandle { ino, offset: off, readable: r, writable: w }))
        },
        None => if create {
            (
                fs.create(name),
                Some(FileHandle { ino: fs.first_free() as usize, offset: 0, readable: r, writable: w }),
            )
        } else {
            (fs, None)
        },
    }
}

/// Opens `name` with the mode `flags`: an existing file (emptied under
/// `O_CREATE` or `O_TRUNC`), or a new empty one under `O_CREATE`; `None` where
/// the name is missing and `O_CREATE` is not given.
pub fn open_file(fs: &mut FileSystem, name: Vec<u8>, flags: u32) -> (r: Option<FileHandle>)
    requires
        old(fs)@.wf(),
    ensures
        final(fs)@.wf(),
        (final(fs)@, r) == open_result(old(fs)@, name@, flags),
{
    let readable = flags & 3 != O_WRONLY;
    let writable = flags & 3 != O_RDONLY;
    match fs.find(&name) {
        Some(i) => {
            let ino = fs.entries[i].ino;
            assert(fs@.live(fs@.entries[i as int].1 as int));
            if flags & O_CREATE != 0 || flags & O_TRUNC != 0 {
                fs.truncate(ino);
            }
            assert(fs@.live(ino as int));
            assert(inode_view(fs.inodes@[ino as int]) == fs@.inodes[ino as int]);
            let offset = if flags & O_APPEND != 0 {
                match &fs.inodes[ino] {
                    Some(node) => node.data.len(),
                    None => 0,
                }
            } else {
                0
            };
            Some(FileHandle { ino, offset, readable, writable })
        },
        None => {
            if flags & O_CREATE != 0 {
                let ino = fs.create(name);
                Some(FileHandle { ino, offset: 0, readable, writable })
            } else {
                None
            }
        },
    }
}

/// Reads up to `len` bytes through `h` from its offset, and moves the offset
/// past them.
pub fn read_file(fs: &FileSystem, h: &mut FileHandle, len: usize) -> (data: Vec<u8>)
    requires
        fs@.wf(),
    ensures
        data@ == read_result(fs@, *old(h), len as nat),
        *final(h) == (FileHandle { offset: (old(h).offset + data@.len()) as usize, ..*old(h) }),
{
    let mut out: Vec<u8> = Vec::new();
    if !h.readable || h.ino >= fs.inodes.len() {
        return out;
    }
    let node = match &fs.inodes[h.ino] {
        Some(node) => node,
        None => return out,
    };
    assert(inode_view(fs.inodes@[h.ino as int]) == fs@.inodes[h.ino as int]);
    let size = node.data.len();
    if h.offset >= size {
        return out;
    }
    let end = if len < size - h.offset {
        h.offset + len
    } else {
        size
    };
    let mut i = h.offset;
    while i < end
        invariant
            h.offset <= i <= end <= size,
            size == node.data@.len(),
            out@ == node.data@.subrange(h.offset as int, i as int),
        decreases end - i,
    {
        out.push(node.data[i]);
        i = i + 1;
        assert(out@ =~= node.data@.subrange(h.offset as int, i as int));
    }
    h.offset = end;
    out
}

/// Writes the bytes of `data` through `h` from its offset, as many as
/// `write_count` allows, and moves the offset past them. Returns their number.
pub fn write_file(fs: &mut FileSystem, h: &mut FileHandle, data: &Vec<u8>) -> (n: usize)
    requires
        old(fs)@.wf(),
    ensures
        final(fs)@.wf(),
        n == write_count(old(fs)@, *old(h), data@.len()),
        final(fs)@ == write_result(old(fs)@, *old(h), data@),
        *final(h) == (FileHandle { offset: (old(h).offset + n) as usize, ..*old(h) }),
{
    let ghost v0 = fs@;
    if !h.writable || h.ino >= fs.inodes.len() || fs.inodes[h.ino].is_none() || h.offset
        > MAX_FILE_SIZE {
        return 0;
    }
    let n = if data.len() <= MAX_FILE_SIZE - h.offset {
        data.len()
    } else {
        MAX_FILE_SIZE - h.offset
    };
    if n == 0 {
        return 0;
    }
    let ino = h.ino;
    let off = h.offset;
    let node = fs.take_inode(ino);
    let ghost old_data = node.data@;
    let ghost chunk = data@.take(n as int);
    let new_len = if off + n > node.data.len() {
        off + n
    } else {
        node.data.len()
    };
    let mut out: Vec<u8> = Vec::new();
    let mut i: usize = 0;
    while i < new_len
        invariant
            0 <= i <= new_len,
            new_len as int == overwrite(old_data, off as int, chunk).len(),
            old_data == node.data@,
            chunk == data@.take(n as int),
            n <= data@.len(),
            out@ == overwrite(old_data, off as int, chunk).take(i as int),
        decreases new_len - i,
    {
        let b = if off <= i && i < off + n {
            data[i - off]
        } else if i < node.data.len() {
            node.data[i]
        } else {
            0u8
        };
        out.push(b);
        i = i + 1;
        assert(out@ =~= overwrite(old_data, off as int, chunk).take(i as int));
    }
    assert(out@ =~= overwrite(old_data, off as int, chunk));
    let updated = Inode { kind: node.kind, nlink: node.nlink, data: out };
    fs.put_inode(ino, Some(updated));
    proof {
        assert(fs@.inodes =~= write_result(v0, *old(h), data@).inodes);
        let v1 = fs@;
        assert forall|x: int| #[trigger] v1.live(x) implies v1.inode(x).nlink == crate::fs::links(
            v1.entries,
            x,
        ) && v1.inode(x).nlink >= 1 && v1.inode(x).data.len() <= MAX_FILE_SIZE by {
            assert(v0.live(x));
        }
    }
    h.offset = off + n;
    n
}

/// The status record that `h` reports.
pub fn stat_file(fs: &FileSystem, h: &FileHandle) -> (st: Stat)
    requires
        fs@.wf(),
    ensures
        st == stat_result(fs@, *h),
{
    if h.ino < fs.inodes.len() {
        if let Some(node) = &fs.inodes[h.ino] {
            assert(inode_view(fs.inodes@[h.ino as int]) == fs@.inodes[h.ino as int]);
            let mode = match node.kind {
                FileKind::Regular => S_IFREG,
                FileKind::Directory => S_IFDIR,
            };
            return Stat { dev: fs.dev, ino: h.ino as u64, mode, nlink: node.nlink };
        }
    }
    Stat { dev: fs.dev, ino: h.ino as u64, mode: 0, nlink: 0 }
}

} // verus!
