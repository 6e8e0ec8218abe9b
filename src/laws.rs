//! Properties that relate several operations, proved over the spec functions
//! that their contracts use.
use crate::file::FileHandle;
use crate::file::O_APPEND;
use crate::file::O_CREATE;
use crate::file::O_TRUNC;
use crate::file::S_IFREG;
use crate::file::flag_readable;
use crate::file::open_result;
use crate::file::read_result;
use crate::file::stat_result;
use crate::fs::FsView;
use crate::fs::links;
use crate::task::fd_open;
use crate::task::lowest_free_fd;
use vstd::prelude::*;

verus! {

/// Where slot `k` is free, some free slot has no free slot below it.
proof fn lemma_lowest_free_exists(fs: FsView, k: int)
    requires
        0 <= k < fs.inodes.len(),
        fs.inodes[k].is_none(),
    ensures
        exists|i: int|
            0 <= i < fs.inodes.len() && (#[trigger] fs.inodes[i]).is_none() && forall|j: int|
                0 <= j < i ==> (#[trigger] fs.inodes[j]).is_some(),
    decreases k,
{
    if exists|j: int| 0 <= j < k && (#[trigger] fs.inodes[j]).is_none() {
        let j = choose|j: int| 0 <= j < k && (#[trigger] fs.inodes[j]).is_none();
        lemma_lowest_free_exists(fs, j);
    } else {
        assert forall|j: int| 0 <= j < k implies (#[trigger] fs.inodes[j]).is_some() by {}
    }
}

/// The lowest free inode slot lies within the table, or just past it, and is free.
pub proof fn lemma_first_free(fs: FsView)
    ensures
        0 <= fs.first_free() <= fs.inodes.len(),
        fs.first_free() < fs.inodes.len() ==> fs.inodes[fs.first_free()].is_none(),
        !fs.live(fs.first_free()),
{
    if exists|i: int| 0 <= i < fs.inodes.len() && (#[trigger] fs.inodes[i]).is_none() {
        let k = choose|i: int| 0 <= i < fs.inodes.len() && (#[trigger] fs.inodes[i]).is_none();
        lemma_lowest_free_exists(fs, k);
    }
}

/// Opening an existing file for reading, without creating, truncating or
/// appending, and then reading `n` bytes, no more than the file holds, yields
/// exactly the file's first `n` bytes as they were at open time.
pub proof fn lemma_open_then_read(fs: FsView, name: Seq<u8>, flags: u32, n: nat)
    requires
        fs.wf(),
        fs.lookup(name).is_some(),
        flag_readable(flags),
        flags & O_CREATE == 0,
        flags & O_TRUNC == 0,
        flags & O_APPEND == 0,
        n <= fs.inode(fs.lookup(name).unwrap() as int).data.len(),
    ensures
        ({
            let (fs1, h) = open_result(fs, name, flags);
            &&& h.is_some()
            &&& read_result(fs1, h.unwrap(), n) == fs.inode(
                fs.lookup(name).unwrap() as int,
            ).data.take(n as int)
        }),
{
    let ino = fs.lookup(name).unwrap() as int;
    let i = fs.index_of(name);
    assert(fs.entries[i].0 == name);
    assert(fs.live(fs.entries[i].1 as int));
    let data = fs.inode(ino).data;
    if n > 0 {
        assert(data.subrange(0, n as int) =~= data.take(n as int));
    } else {
        let (fs1, h) = open_result(fs, name, flags);
        assert(read_result(fs1, h.unwrap(), n) =~= data.take(0));
    }
}

/// After `fd` is closed it names no open file, so every operation on it fails.
pub proof fn lemma_closed_fd_invalid(table: Seq<Option<FileHandle>>, fd: int)
    requires
        fd_open(table, fd),
    ensures
        !fd_open(table.update(fd, None), fd),
{
}

/// Closing `fd` while every lower descriptor is open makes `fd` the next one
/// allocated: the lowest empty slot is reused before the table grows.
pub proof fn lemma_close_then_reuse(table: Seq<Option<FileHandle>>, fd: int)
    requires
        fd_open(table, fd),
        forall|j: int| 0 <= j < fd ==> (#[trigger] table[j]).is_some(),
    ensures
        lowest_free_fd(table.update(fd, None)) == fd,
{
    let t = table.update(fd, None);
    assert(t[fd].is_none());
    let c = lowest_free_fd(t);
    if c < fd {
        assert(t[c].is_some());
    } else if c > fd {
        assert(t[fd].is_some());
    }
}

/// Linking `new` to the existing file `old` and then unlinking `old` succeeds,
/// and `new` still reaches the same inode, with its contents unchanged.
pub proof fn lemma_link_then_unlink(fs: FsView, old: Seq<u8>, new: Seq<u8>)
    requires
        fs.wf(),
        old != new,
        fs.can_link(old, new),
    ensures
        fs.link(old, new).has_name(old),
        ({
            let ino = fs.lookup(old).unwrap();
            let fs2 = fs.link(old, new).unlink(old);
            &&& fs2.lookup(new) == Some(ino)
            &&& fs2.live(ino as int)
            &&& fs2.inode(ino as int).data == fs.inode(ino as int).data
        }),
{
    let ino = fs.lookup(old).unwrap();
    let i = fs.index_of(old);
    assert(fs.entries[i].0 == old);
    let fs1 = fs.link(old, new);
    assert(fs1.entries[i] == fs.entries[i]);
    assert(fs1.entries[i].0 == old);
    let k = fs1.index_of(old);
    assert(fs1.entries[k].0 == old);
    if k != i {
        assert(k < fs.entries.len()) by {
            if k == fs.entries.len() {
                assert(fs1.entries[k].0 == new);
            }
        }
        assert(fs.entries[k] == fs1.entries[k]);
    }
    assert(k == i);
    assert(fs.live(ino as int));
    assert(fs.inode(ino as int).nlink == links(fs.entries, ino as int));
    let fs2 = fs1.unlink(old);
    let last = (fs.entries.len() - 1) as int;
    assert(fs2.entries[last] == fs1.entries[last + 1]);
    assert(fs2.entries[last].0 == new);
    let j = fs2.index_of(new);
    assert(fs2.entries[j].0 == new);
    if j < last {
        let src = if j < i {
            j
        } else {
            j + 1
        };
        assert(fs2.entries[j] == fs1.entries[src]);
        assert(fs1.entries[src] == fs.entries[src]);
        assert(fs.entries[src].0 == new);
    }
}

/// Unlinking a name frees its inode exactly when that was the inode's last
/// link; a file created afterwards starts empty, whichever slot it takes.
pub proof fn lemma_unlink_reclaims(fs: FsView, name: Seq<u8>, fresh: Seq<u8>)
    requires
        fs.wf(),
        fs.has_name(name),
        !fs.unlink(name).has_name(fresh),
    ensures
        ({
            let ino = fs.lookup(name).unwrap() as int;
            let fs1 = fs.unlink(name);
            let fs2 = fs1.create(fresh);
            &&& fs1.live(ino) == (fs.inode(ino).nlink > 1)
            &&& fs2.live(fs1.first_free())
            &&& fs2.inode(fs1.first_free()).data == Seq::<u8>::empty()
        }),
{
    let i = fs.index_of(name);
    assert(fs.entries[i].0 == name);
    assert(fs.live(fs.entries[i].1 as int));
    lemma_first_free(fs.unlink(name));
}

/// A file that opening with `O_CREATE` creates reports one link and the
/// regular-file mode.
pub proof fn lemma_created_stat(fs: FsView, name: Seq<u8>, flags: u32)
    requires
        fs.wf(),
        !fs.has_name(name),
        flags & O_CREATE != 0,
        fs.inodes.len() < usize::MAX,
    ensures
        ({
            let (fs1, h) = open_result(fs, name, flags);
            &&& h.is_some()
            &&& stat_result(fs1, h.unwrap()).nlink == 1
            &&& stat_result(fs1, h.unwrap()).mode == S_IFREG
        }),
{
    lemma_first_free(fs);
    let ino = fs.first_free();
    let fs1 = fs.create(name);
    assert(fs1.live(ino));
    assert(ino as usize as int == ino);
}

} // verus!
