//! An in-memory filesystem: one directory of names over a table of inodes
//! that count their hard links.
use vstd::prelude::*;

verus! {

/// Largest size a file may grow to, in bytes.
pub const MAX_FILE_SIZE: usize = 0x1000_0000;

/// What an inode describes.
#[derive(Clone, Copy, PartialEq, Eq)]
pub enum FileKind {
    Regular,
    Directory,
}

/// File metadata and contents.
pub struct Inode {
    pub kind: FileKind,
    pub nlink: u32,
    pub data: Vec<u8>,
}

/// A name in the directory and the inode it refers to.
pub struct DirEntry {
    pub name: Vec<u8>,
    pub ino: usize,
}

/// The filesystem: device number, inode table (a `None` slot is free) and directory.
pub struct FileSystem {
    pub dev: u64,
    pub inodes: Vec<Option<Inode>>,
    pub entries: Vec<DirEntry>,
}

/// What an inode holds, mathematically.
pub struct InodeView {
    pub kind: FileKind,
    pub nlink: nat,
    pub data: Seq<u8>,
}

/// What the filesystem holds, mathematically.
pub struct FsView {
    pub dev: u64,
    pub inodes: Seq<Option<InodeView>>,
    pub entries: Seq<(Seq<u8>, usize)>,
}

/// The view of an inode slot.
pub open spec fn inode_view(o: Option<Inode>) -> Option<InodeView> {
    match o {
        Some(n) => Some(InodeView { kind: n.kind, nlink: n.nlink as nat, data: n.data@ }),
        None => None,
    }
}

impl View for FileSystem {
    type V = FsView;

    open spec fn view(&self) -> FsView {
        FsView {
            dev: self.dev,
            inodes: self.inodes@.map_values(|o: Option<Inode>| inode_view(o)),
            entries: self.entries@.map_values(|e: DirEntry| (e.name@, e.ino)),
        }
    }
}

/// How many of `entries` refer to inode `ino`.
pub open spec fn links(entries: Seq<(Seq<u8>, usize)>, ino: int) -> nat
    decreases entries.len(),
{
    if entries.len() == 0 {
        0
    } else {
        links(entries.drop_last(), ino) + if entries.last().1 == ino {
            1nat
        } else {
            0nat
        }
    }
}

/// Appending an entry adds one link to its inode and none to others.
pub proof fn lemma_links_push(entries: Seq<(Seq<u8>, usize)>, e: (Seq<u8>, usize), ino: int)
    ensures
        links(entries.push(e), ino) == links(entries, ino) + if e.1 == ino {
            1nat
        } else {
            0nat
        },
{
    assert(entries.push(e).drop_last() =~= entries);
}

/// Removing entry `i` takes one link from its inode and none from others.
pub proof fn lemma_links_remove(entries: Seq<(Seq<u8>, usize)>, i: int, ino: int)
    requires
        0 <= i < entries.len(),
    ensures
        links(entries.remove(i), ino) + (if entries[i].1 == ino {
            1nat
        } else {
            0nat
        }) == links(entries, ino),
    decreases entries.len(),
{
    if i == entries.len() - 1 {
        assert(entries.remove(i) =~= entries.drop_last());
    } else {
        assert(entries.remove(i).drop_last() =~= entries.drop_last().remove(i));
        assert(entries.remove(i).last() == entries.last());
        lemma_links_remove(entries.drop_last(), i, ino);
    }
}

/// An inode has no links exactly when no entry refers to it.
pub proof fn lemma_links_zero(entries: Seq<(Seq<u8>, usize)>, ino: int)
    ensures
        (links(entries, ino) == 0) == (forall|i: int|
            0 <= i < entries.len() ==> (#[trigger] entries[i]).1 != ino),
    decreases entries.len(),
{
    if entries.len() > 0 {
        let init = entries.drop_last();
        lemma_links_zero(init, ino);
        if links(entries, ino) == 0 {
            assert forall|i: int| 0 <= i < entries.len() implies (#[trigger] entries[i]).1
                != ino by {
                if i < init.len() {
                    assert(entries[i] == init[i]);
                }
            }
        } else if entries.last().1 != ino {
            let k = choose|k: int| 0 <= k < init.len() && (#[trigger] init[k]).1 == ino;
            assert(entries[k] == init[k]);
        }
    }
}

impl InodeView {
    /// The inode with its link count set to `n`.
    pub open spec fn with_nlink(self, n: nat) -> InodeView {
        InodeView { nlink: n, ..self }
    }

    /// The inode with its contents set to `d`.
    pub open spec fn with_data(self, d: Seq<u8>) -> InodeView {
        InodeView { data: d, ..self }
    }
}

impl FsView {
    /// Slot `ino` holds an inode.
    pub open spec fn live(self, ino: int) -> bool {
        0 <= ino < self.inodes.len() && self.inodes[ino].is_some()
    }

    /// The inode in the live slot `ino`.
    pub open spec fn inode(self, ino: int) -> InodeView {
        self.inodes[ino].unwrap()
    }

    /// Some entry has the name `name`.
    pub open spec fn has_name(self, name: Seq<u8>) -> bool {
        exists|i: int| 0 <= i < self.entries.len() && (#[trigger] self.entries[i]).0 == name
    }

    /// The position of the entry named `name`.
    pub open spec fn index_of(self, name: Seq<u8>) -> int {
        choose|i: int| 0 <= i < self.entries.len() && (#[trigger] self.entries[i]).0 == name
    }

    /// The inode that `name` refers to, if any.
    pub open spec fn lookup(self, name: Seq<u8>) -> Option<usize> {
        if self.has_name(name) {
            Some(self.entries[self.index_of(name)].1)
        } else {
            None
        }
    }

    /// Well-formed: every name is unique and refers to a live inode, every live
    /// inode's link count is the number of names that refer to it and is at
    /// least one, and no file exceeds the largest size.
    pub open spec fn wf(self) -> bool {
        &&& forall|i: int|
            0 <= i < self.entries.len() ==> self.live(#[trigger] self.entries[i].1 as int)
        &&& forall|i: int, j: int|
            0 <= i < self.entries.len() && 0 <= j < self.entries.len() && i != j
                ==> (#[trigger] self.entries[i]).0 != (#[trigger] self.entries[j]).0
        &&& forall|ino: int|
            #[trigger] self.live(ino) ==> self.inode(ino).nlink == links(self.entries, ino)
                && self.inode(ino).nlink >= 1 && self.inode(ino).data.len() <= MAX_FILE_SIZE
    }

    /// The lowest free inode slot, or the end of the table where none is free.
    pub open spec fn first_free(self) -> int {
        if exists|i: int| 0 <= i < self.inodes.len() && (#[trigger] self.inodes[i]).is_none() {
            choose|i: int|
                0 <= i < self.inodes.len() && (#[trigger] self.inodes[i]).is_none() && forall|
                    j: int,
                | 0 <= j < i ==> (#[trigger] self.inodes[j]).is_some()
        } else {
            self.inodes.len() as int
        }
    }

    /// Sets slot `ino` (the end of the table, or an existing slot) to `v`.
    pub open spec fn put_inode(self, ino: int, v: Option<InodeView>) -> FsView {
        FsView {
            inodes: if ino == self.inodes.len() {
                self.inodes.push(v)
            } else {
                self.inodes.update(ino, v)
            },
            ..self
        }
    }

    /// The filesystem after a new empty regular file named `name` is created.
    pub open spec fn create(self, name: Seq<u8>) -> FsView {
        let ino = self.first_free();
        let fresh = InodeView { kind: FileKind::Regular, nlink: 1, data: seq![] };
        FsView { entries: self.entries.push((name, ino as usize)), ..self.put_inode(ino, Some(fresh)) }
    }

    /// The filesystem after the contents of the live inode `ino` are emptied.
    pub open spec fn truncate(self, ino: int) -> FsView {
        self.put_inode(ino, Some(self.inode(ino).with_data(seq![])))
    }

    /// Adding the name `new` for the file named `old` succeeds.
    pub open spec fn can_link(self, old: Seq<u8>, new: Seq<u8>) -> bool {
        &&& self.lookup(old).is_some()
        &&& !self.has_name(new)
        &&& self.inode(self.lookup(old).unwrap() as int).nlink < u32::MAX
    }

    /// The filesystem after `linkat(old, new)`: when it can, a new name for
    /// the inode and one more link on it; otherwise unchanged.
    pub open spec fn link(self, old: Seq<u8>, new: Seq<u8>) -> FsView {
        if self.can_link(old, new) {
            let ino = self.lookup(old).unwrap() as int;
            let node = self.inode(ino);
            FsView {
                entries: self.entries.push((new, ino as usize)),
                ..self.put_inode(ino, Some(node.with_nlink(node.nlink + 1)))
            }
        } else {
            self
        }
    }

    /// The filesystem after `unlinkat(name)`: the name is gone and its inode
    /// loses a link, and is freed when that was the last; unchanged where no
    /// entry has that name.
    pub open spec fn unlink(self, name: Seq<u8>) -> FsView {
        if self.has_name(name) {
            let i = self.index_of(name);
            let ino = self.entries[i].1 as int;
            let node = self.inode(ino);
            FsView {
                entries: self.entries.remove(i),
                ..self.put_inode(
                    ino,
                    if node.nlink == 1 {
                        None
                    } else {
                        Some(node.with_nlink((node.nlink - 1) as nat))
                    },
                )
            }
        } else {
            self
        }
    }
}

/// `a` and `b` hold the same bytes.
pub fn bytes_eq(a: &Vec<u8>, b: &Vec<u8>) -> (r: bool)
    ensures
        r == (a@ == b@),
{
    if a.len() != b.len() {
        return false;
    }
    let mut i: usize = 0;
    while i < a.len()
        invariant
            a@.len() == b@.len(),
            0 <= i <= a@.len(),
            forall|j: int| 0 <= j < i ==> a@[j] == b@[j],
        decreases a@.len() - i,
    {
        if a[i] != b[i] {
            return false;
        }
        i = i + 1;
    }
    assert(a@ =~= b@);
    true
}

impl FileSystem {
    /// An empty filesystem on device `dev`.
    pub fn new(dev: u64) -> (r: FileSystem)
        ensures
            r@.wf(),
            r@.dev == dev,
            r@.inodes.len() == 0,
            r@.entries.len() == 0,
    {
        let r = FileSystem { dev, inodes: Vec::new(), entries: Vec::new() };
        assert(r@.inodes =~= Seq::<Option<InodeView>>::empty());
        assert(r@.entries =~= Seq::<(Seq<u8>, usize)>::empty());
        r
    }

    /// The position of the entry named `name`, if any.
    pub fn find(&self, name: &Vec<u8>) -> (r: Option<usize>)
        requires
            self@.wf(),
        ensures
            r.is_some() == self@.has_name(name@),
            r.is_some() ==> r.unwrap() == self@.index_of(name@),
    {
        let mut i: usize = 0;
        while i < self.entries.len()
            invariant
                self@.wf(),
                0 <= i <= self@.entries.len(),
                self@.entries.len() == self.entries@.len(),
                forall|j: int| 0 <= j < i ==> (#[trigger] self@.entries[j]).0 != name@,
            decreases self.entries@.len() - i,
        {
            if bytes_eq(&self.entries[i].name, name) {
                assert(self@.entries[i as int].0 == name@);
                let ghost k = self@.index_of(name@);
                assert(self@.entries[k].0 == name@);
                return Some(i);
            }
            i = i + 1;
        }
        None
    }
}

impl FileSystem {
    /// The lowest free inode slot, or the end of the table where none is free.
    pub fn first_free(&self) -> (r: usize)
        ensures
            r == self@.first_free(),
            r <= self@.inodes.len(),
            r < self@.inodes.len() ==> self@.inodes[r as int].is_none(),
    {
        let mut i: usize = 0;
        while i < self.inodes.len()
            invariant
                0 <= i <= self.inodes@.len(),
                self@.inodes.len() == self.inodes@.len(),
                forall|j: int| 0 <= j < i ==> (#[trigger] self@.inodes[j]).is_some(),
            decreases self.inodes@.len() - i,
        {
            if self.inodes[i].is_none() {
                assert(self@.inodes[i as int].is_none());
                let ghost c = self@.first_free();
                proof {
                    if c < i {
                        assert(self@.inodes[c].is_some());
                    } else if c > i {
                        assert(self@.inodes[i as int].is_some());
                    }
                }
                return i;
            }
            assert(self@.inodes[i as int].is_some());
            i = i + 1;
        }
        i
    }

    /// Creates an empty regular file named `name` in the lowest free inode
    /// slot, and returns that slot.
    pub fn create(&mut self, name: Vec<u8>) -> (ino: usize)
        requires
            old(self)@.wf(),
            !old(self)@.has_name(name@),
        ensures
            final(self)@.wf(),
            final(self)@ == old(self)@.create(name@),
            ino == old(self)@.first_free(),
    {
        let ghost v0 = self@;
        let ino = self.first_free();
        let fresh = Inode { kind: FileKind::Regular, nlink: 1, data: Vec::new() };
        let ghost fresh_v = InodeView { kind: FileKind::Regular, nlink: 1, data: seq![] };
        assert(inode_view(Some(fresh)) == Some(fresh_v));
        if ino == self.inodes.len() {
            self.inodes.push(Some(fresh));
            assert(self@.inodes =~= v0.inodes.push(Some(fresh_v)));
        } else {
            self.inodes.set(ino, Some(fresh));
            assert(self@.inodes =~= v0.inodes.update(ino as int, Some(fresh_v)));
        }
        let ghost name_v = name@;
        self.entries.push(DirEntry { name, ino });
        proof {
            assert(self@.entries =~= v0.entries.push((name_v, ino)));
            assert(self@ == v0.create(name_v));
            let v1 = self@;
            assert(!v0.live(ino as int));
            assert forall|i: int| 0 <= i < v0.entries.len() implies (#[trigger] v0.entries[i]).1
                != ino by {
                assert(v0.live(v0.entries[i].1 as int));
            }
            lemma_links_zero(v0.entries, ino as int);
            assert forall|k: int| 0 <= k < v1.entries.len() implies v1.live(
                #[trigger] v1.entries[k].1 as int,
            ) by {
                if k < v0.entries.len() {
                    assert(v1.entries[k] == v0.entries[k]);
                    assert(v0.live(v0.entries[k].1 as int));
                }
            }
            assert forall|i: int, j: int|
                0 <= i < v1.entries.len() && 0 <= j < v1.entries.len() && i != j implies (
                #[trigger] v1.entries[i]).0 != (#[trigger] v1.entries[j]).0 by {
                if i < v0.entries.len() && j < v0.entries.len() {
                    assert(v1.entries[i] == v0.entries[i]);
                    assert(v1.entries[j] == v0.entries[j]);
                } else if i < v0.entries.len() {
                    assert(v1.entries[i] == v0.entries[i]);
                } else {
                    assert(v1.entries[j] == v0.entries[j]);
                }
            }
            assert forall|x: int| #[trigger] v1.live(x) implies v1.inode(x).nlink == links(
                v1.entries,
                x,
            ) && v1.inode(x).nlink >= 1 && v1.inode(x).data.len() <= MAX_FILE_SIZE by {
                lemma_links_push(v0.entries, (name_v, ino), x);
                if x != ino {
                    assert(v0.live(x));
                }
            }
        }
        ino
    }
}

impl FileSystem {
    /// Moves the inode out of the live slot `ino`, leaving the slot free.
    pub(crate) fn take_inode(&mut self, ino: usize) -> (node: Inode)
        requires
            old(self)@.live(ino as int),
        ensures
            inode_view(Some(node)) == old(self)@.inodes[ino as int],
            final(self)@ == old(self)@.put_inode(ino as int, None),
    {
        let ghost v0 = self@;
        let mut slot: Option<Inode> = None;
        std::mem::swap(&mut slot, &mut self.inodes[ino]);
        assert(self@.inodes =~= v0.inodes.update(ino as int, None));
        slot.unwrap()
    }

    /// Puts `node` into slot `ino`.
    pub(crate) fn put_inode(&mut self, ino: usize, node: Option<Inode>)
        requires
            ino < old(self)@.inodes.len(),
        ensures
            final(self)@ == old(self)@.put_inode(ino as int, inode_view(node)),
    {
        let ghost v0 = self@;
        let ghost nv = inode_view(node);
        self.inodes.set(ino, node);
        assert(self@.inodes =~= v0.inodes.update(ino as int, nv));
    }

    /// Empties the contents of the live inode `ino`.
    pub fn truncate(&mut self, ino: usize)
        requires
            old(self)@.wf(),
            old(self)@.live(ino as int),
        ensures
            final(self)@.wf(),
            final(self)@ == old(self)@.truncate(ino as int),
    {
        let ghost v0 = self@;
        let node = self.take_inode(ino);
        let emptied = Inode { kind: node.kind, nlink: node.nlink, data: Vec::new() };
        self.put_inode(ino, Some(emptied));
        proof {
            assert(self@.inodes =~= v0.truncate(ino as int).inodes);
            let v1 = self@;
            assert forall|x: int| #[trigger] v1.live(x) implies v0.live(x) by {}
        }
    }

    /// Adds the name `new` for the file named `from`, giving its inode one more
    /// link. Returns whether it did: not where `from` is missing, `new` is taken
    /// or the link count is at its largest.
    pub fn link(&mut self, from: &Vec<u8>, new: Vec<u8>) -> (ok: bool)
        requires
            old(self)@.wf(),
            from@ != new@,
        ensures
            final(self)@.wf(),
            ok == old(self)@.can_link(from@, new@),
            final(self)@ == old(self)@.link(from@, new@),
    {
        let ghost v0 = self@;
        let i = match self.find(from) {
            Some(i) => i,
            None => return false,
        };
        if self.find(&new).is_some() {
            return false;
        }
        let ino = self.entries[i].ino;
        assert(v0.live(v0.entries[i as int].1 as int));
        let mut node = self.take_inode(ino);
        if node.nlink == u32::MAX {
            self.put_inode(ino, Some(node));
            assert(self@.inodes =~= v0.inodes);
            assert(self@ == v0);
            return false;
        }
        node.nlink = node.nlink + 1;
        self.put_inode(ino, Some(node));
        let ghost new_v = new@;
        self.entries.push(DirEntry { name: new, ino });
        proof {
            assert(self@.entries =~= v0.entries.push((new_v, ino)));
            assert(self@.inodes =~= v0.link(from@, new_v).inodes);
            let v1 = self@;
            assert forall|k: int| 0 <= k < v1.entries.len() implies v1.live(
                #[trigger] v1.entries[k].1 as int,
            ) by {
                if k < v0.entries.len() {
                    assert(v1.entries[k] == v0.entries[k]);
                    assert(v0.live(v0.entries[k].1 as int));
                }
            }
            assert forall|a: int, b: int|
                0 <= a < v1.entries.len() && 0 <= b < v1.entries.len() && a != b implies (
                #[trigger] v1.entries[a]).0 != (#[trigger] v1.entries[b]).0 by {
                if a < v0.entries.len() {
                    assert(v1.entries[a] == v0.entries[a]);
                }
                if b < v0.entries.len() {
                    assert(v1.entries[b] == v0.entries[b]);
                }
            }
            assert forall|x: int| #[trigger] v1.live(x) implies v1.inode(x).nlink == links(
                v1.entries,
                x,
            ) && v1.inode(x).nlink >= 1 && v1.inode(x).data.len() <= MAX_FILE_SIZE by {
                lemma_links_push(v0.entries, (new_v, ino), x);
                assert(v0.live(x));
            }
        }
        true
    }

    /// Removes the name `name`; its inode loses a link and is freed, contents
    /// and all, when that was the last. Returns whether the name existed.
    pub fn unlink(&mut self, name: &Vec<u8>) -> (ok: bool)
        requires
            old(self)@.wf(),
        ensures
            final(self)@.wf(),
            ok == old(self)@.has_name(name@),
            final(self)@ == old(self)@.unlink(name@),
    {
        let ghost v0 = self@;
        let i = match self.find(name) {
            Some(i) => i,
            None => return false,
        };
        let ino = self.entries[i].ino;
        assert(v0.live(v0.entries[i as int].1 as int));
        let _gone = self.entries.remove(i);
        let mut node = self.take_inode(ino);
        if node.nlink == 1 {
            self.put_inode(ino, None);
        } else {
            node.nlink = node.nlink - 1;
            self.put_inode(ino, Some(node));
        }
        proof {
            assert(self@.entries =~= v0.entries.remove(i as int));
            assert(self@.inodes =~= v0.unlink(name@).inodes);
            let v1 = self@;
            assert forall|x: int| #[trigger] v1.live(x) implies v1.inode(x).nlink == links(
                v1.entries,
                x,
            ) && v1.inode(x).nlink >= 1 && v1.inode(x).data.len() <= MAX_FILE_SIZE by {
                lemma_links_remove(v0.entries, i as int, x);
                assert(v0.live(x));
            }
            lemma_links_remove(v0.entries, i as int, ino as int);
            lemma_links_zero(v1.entries, ino as int);
            assert forall|k: int| 0 <= k < v1.entries.len() implies v1.live(
                #[trigger] v1.entries[k].1 as int,
            ) by {
                let src = if k < i { k } else { k + 1 };
                assert(v1.entries[k] == v0.entries[src]);
                assert(v0.live(v0.entries[src].1 as int));
            }
            assert forall|a: int, b: int|
                0 <= a < v1.entries.len() && 0 <= b < v1.entries.len() && a != b implies (
                #[trigger] v1.entries[a]).0 != (#[trigger] v1.entries[b]).0 by {
                let sa = if a < i { a } else { a + 1 };
                let sb = if b < i { b } else { b + 1 };
                assert(v1.entries[a] == v0.entries[sa]);
                assert(v1.entries[b] == v0.entries[sb]);
            }
        }
        true
    }
}

} // verus!
