//! A process: its address space and its table of open files.
use crate::file::FileHandle;
use crate::mm::AddressSpace;
use vstd::prelude::*;

verus! {

/// A process, as the file syscalls see it.
pub struct Process {
    pub space: AddressSpace,
    /// Descriptor table: `fd_table[fd]` is the file that `fd` names, if any.
    pub fd_table: Vec<Option<FileHandle>>,
}

/// `fd` names an open file in `table`.
pub open spec fn fd_open(table: Seq<Option<FileHandle>>, fd: int) -> bool {
    0 <= fd < table.len() && table[fd].is_some()
}

/// The descriptor that allocation picks: the lowest empty slot, or the end of
/// the table where none is empty.
pub open spec fn lowest_free_fd(table: Seq<Option<FileHandle>>) -> int {
    if exists|i: int| 0 <= i < table.len() && (#[trigger] table[i]).is_none() {
        choose|i: int|
            0 <= i < table.len() && (#[trigger] table[i]).is_none() && forall|j: int|
                0 <= j < i ==> (#[trigger] table[j]).is_some()
    } else {
        table.len() as int
    }
}

impl Process {
    /// A process over `space` with no open files.
    pub fn new(space: AddressSpace) -> (p: Process)
        ensures
            p.space == space,
            p.fd_table@.len() == 0,
    {
        Process { space, fd_table: Vec::new() }
    }

    /// Picks the lowest empty descriptor slot, appending one where none is empty.
    pub fn alloc_fd(&mut self) -> (fd: usize)
        ensures
            fd == lowest_free_fd(old(self).fd_table@),
            fd < final(self).fd_table@.len(),
            final(self).fd_table@ == if fd < old(self).fd_table@.len() {
                old(self).fd_table@
            } else {
                old(self).fd_table@.push(None)
            },
            final(self).space == old(self).space,
    {
        let mut i: usize = 0;
        while i < self.fd_table.len()
            invariant
                0 <= i <= self.fd_table@.len(),
                forall|j: int| 0 <= j < i ==> (#[trigger] self.fd_table@[j]).is_some(),
            decreases self.fd_table@.len() - i,
        {
            if self.fd_table[i].is_none() {
                let ghost c = lowest_free_fd(self.fd_table@);
                proof {
                    if c < i {
                        assert(self.fd_table@[c].is_some());
                    } else if c > i {
                        assert(self.fd_table@[i as int].is_some());
                    }
                }
                return i;
            }
            i = i + 1;
        }
        self.fd_table.push(None);
        i
    }
}

} // verus!
