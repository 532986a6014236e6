//! A file system that lives in memory: one directory of files, each file
//! a vector of bytes.

use vstd::prelude::*;
use std::marker::PhantomData;

verus! {

/// A point in time.
#[derive(Clone, Copy, Debug, PartialEq, Eq, Structural)]
pub struct TimeSpec {
    pub sec: usize,
    pub nsec: usize,
}

/// What the file system needs from its surroundings.
pub trait RamFsProvider {
    /// The time now.
    fn current_time() -> TimeSpec;
}

/// The operations of a node of a file system. A node found or created is
/// named by its place among the children of the directory.
pub trait VfsInode {
    /// The place of the first child with the given name.
    fn find(&self, name: &str) -> Option<usize>;

    /// Creates a file with the given name and returns its place.
    fn create(&mut self, name: &str) -> Option<usize>;

    /// The names of the children.
    fn ls(&self) -> Vec<String>;

    /// Reads from `offset` on into `buf` and returns the number of bytes
    /// read.
    fn read_at(&self, offset: usize, buf: &mut Vec<u8>) -> usize
        requires
            offset + old(buf)@.len() <= usize::MAX,
    ;

    /// Writes `buf` at `offset` and returns the number of bytes written.
    fn write_at(&mut self, offset: usize, buf: &Vec<u8>) -> usize
        requires
            offset + buf@.len() <= usize::MAX,
    ;

    /// Removes all content.
    fn clear(&mut self);
}

/// The counters of the file system: the next inode number and the number
/// of inodes made.
pub struct RamFs<T> {
    pub inode_index: usize,
    pub inode_count: usize,
    pub provider: PhantomData<T>,
}

/// A file: its inode number, its name, its bytes and its time of creation.
pub struct RamFsFileInode {
    pub id: usize,
    pub name: String,
    pub content: Vec<u8>,
    pub ctime: TimeSpec,
}

/// The directory: its inode number, its name, its files in the order of
/// creation, the counters of the file system, and its time of creation.
pub struct RamFsDirInode<T> {
    pub id: usize,
    pub name: String,
    pub children: Vec<RamFsFileInode>,
    pub fs: RamFs<T>,
    pub ctime: TimeSpec,
}

/// The place of the first file from `from` on whose name is `name`.
pub open spec fn first_named(children: Seq<RamFsFileInode>, name: Seq<char>, from: int) -> Option<usize>
    decreases children.len() - from,
{
    if from < 0 || from >= children.len() {
        None
    } else if children[from].name@ == name {
        Some(from as usize)
    } else {
        first_named(children, name, from + 1)
    }
}

/// What a read of `n` bytes at `offset` returns of `content`: the bytes
/// from `offset` on, as far as the content and `n` go.
pub open spec fn bytes_read(content: Seq<u8>, offset: usize, n: nat) -> Seq<u8> {
    let start = if offset <= content.len() {
        offset as int
    } else {
        content.len() as int
    };
    let end = if offset + n <= content.len() {
        offset + n
    } else {
        content.len() as int
    };
    content.subrange(start, end)
}

/// The content after `buf` has been written at `offset`: extended with
/// zeros up to the end of the write if it was shorter, and with the bytes
/// of `buf` from `offset` on.
pub open spec fn bytes_written(content: Seq<u8>, offset: usize, buf: Seq<u8>) -> Seq<u8> {
    let len = if content.len() < offset + buf.len() {
        (offset + buf.len()) as nat
    } else {
        content.len()
    };
    Seq::new(
        len,
        |i: int|
            if offset <= i < offset + buf.len() {
                buf[i - offset]
            } else if i < content.len() {
                content[i]
            } else {
                0u8
            },
    )
}

impl<T: RamFsProvider> RamFs<T> {
    /// A file system without inodes.
    pub fn new() -> (r: Self)
        ensures
            r.inode_index == 0,
            r.inode_count == 0,
    {
        RamFs { inode_index: 0, inode_count: 0, provider: PhantomData }
    }

    /// The root directory of a new file system: inode 0, named "/", empty.
    pub fn root(self) -> (r: RamFsDirInode<T>)
        requires
            self.inode_index == 0,
            self.inode_count == 0,
        ensures
            r.id == 0,
            r.children@.len() == 0,
            r.fs.inode_index == 1,
            r.fs.inode_count == 1,
    {
        let mut dir = RamFsDirInode::new(0, "/".to_owned(), self);
        dir.fs.inode_count = 1;
        dir.fs.inode_index = 1;
        dir
    }

    /// Hands out the next inode number.
    pub fn alloc_inode(&mut self) -> (r: usize)
        requires
            old(self).inode_index < usize::MAX,
            old(self).inode_count < usize::MAX,
        ensures
            r == old(self).inode_index,
            final(self).inode_index == old(self).inode_index + 1,
            final(self).inode_count == old(self).inode_count + 1,
    {
        self.inode_count = self.inode_count + 1;
        let id: usize = self.inode_index;
        self.inode_index = id + 1;
        id
    }
}

impl<T: RamFsProvider> RamFsDirInode<T> {
    /// An empty directory, created now.
    pub fn new(id: usize, name: String, fs: RamFs<T>) -> (r: Self)
        ensures
            r.id == id,
            r.name == name,
            r.children@.len() == 0,
            r.fs == fs,
    {
        RamFsDirInode { id, name, children: Vec::new(), fs, ctime: T::current_time() }
    }

    /// The name of the directory.
    pub fn name(&self) -> (r: &str)
        ensures
            r@ == self.name@,
    {
        self.name.as_str()
    }

    /// The inode number of the directory.
    pub fn id(&self) -> (r: usize)
        ensures
            r == self.id,
    {
        self.id
    }
}

impl<T: RamFsProvider> VfsInode for RamFsDirInode<T> {
    /// The place of the first file with the given name.
    fn find(&self, name: &str) -> (r: Option<usize>)
        ensures
            r == first_named(self.children@, name@, 0),
    {
        let wanted = name.to_owned();
        let mut i: usize = 0;
        while i < self.children.len()
            invariant
                i <= self.children@.len(),
                wanted@ == name@,
                first_named(self.children@, name@, 0) == first_named(self.children@, name@, i as int),
            decreases self.children@.len() - i,
        {
            if self.children[i].name == wanted {
                return Some(i);
            }
            i = i + 1;
        }
        None
    }

    /// Appends an empty file with the given name and the next inode
    /// number, created now, and returns its place. Returns nothing, and
    /// changes nothing, if the inode numbers have run out.
    fn create(&mut self, name: &str) -> (r: Option<usize>)
        ensures
            old(self).fs.inode_index < usize::MAX && old(self).fs.inode_count < usize::MAX ==> {
                &&& r == Some(old(self).children@.len() as usize)
                &&& final(self).children@.len() == old(self).children@.len() + 1
                &&& final(self).children@.subrange(0, old(self).children@.len() as int) == old(
                    self,
                ).children@
                &&& final(self).children@.last().name@ == name@
                &&& final(self).children@.last().id == old(self).fs.inode_index
                &&& final(self).children@.last().content@ == Seq::<u8>::empty()
                &&& final(self).fs.inode_index == old(self).fs.inode_index + 1
                &&& final(self).fs.inode_count == old(self).fs.inode_count + 1
            },
            !(old(self).fs.inode_index < usize::MAX && old(self).fs.inode_count < usize::MAX) ==> r is None
                && final(self).children@ == old(self).children@ && final(self).fs == old(self).fs,
            final(self).id == old(self).id,
            final(self).name == old(self).name,
            final(self).ctime == old(self).ctime,
    {
        if self.fs.inode_index == usize::MAX || self.fs.inode_count == usize::MAX {
            return None;
        }
        let ghost before = self.children@;
        let id = self.fs.alloc_inode();
        let inode = RamFsFileInode::new(id, name.to_owned(), T::current_time());
        let place: usize = self.children.len();
        self.children.push(inode);
        assert(self.children@.subrange(0, before.len() as int) =~= before);
        Some(place)
    }

    /// The names of the files, in the order of creation.
    fn ls(&self) -> (r: Vec<String>)
        ensures
            r@.len() == self.children@.len(),
            forall|i: int| 0 <= i < r@.len() ==> r@[i]@ == self.children@[i].name@,
    {
        let mut names: Vec<String> = Vec::new();
        let mut i: usize = 0;
        while i < self.children.len()
            invariant
                i <= self.children@.len(),
                names@.len() == i,
                forall|k: int| 0 <= k < i ==> names@[k]@ == self.children@[k].name@,
            decreases self.children@.len() - i,
        {
            names.push(self.children[i].name.clone());
            i = i + 1;
        }
        names
    }

    /// A directory has no bytes to read.
    fn read_at(&self, offset: usize, buf: &mut Vec<u8>) -> (r: usize)
        ensures
            r == 0,
            final(buf)@ == old(buf)@,
    {
        0
    }

    /// A directory takes no bytes.
    fn write_at(&mut self, offset: usize, buf: &Vec<u8>) -> (r: usize)
        ensures
            r == 0,
            *final(self) == *old(self),
    {
        0
    }

    /// Removes every file.
    fn clear(&mut self)
        ensures
            final(self).children@.len() == 0,
            final(self).id == old(self).id,
            final(self).name == old(self).name,
            final(self).fs == old(self).fs,
            final(self).ctime == old(self).ctime,
    {
        self.children.clear();
    }
}

impl RamFsFileInode {
    /// An empty file.
    pub fn new(id: usize, name: String, ctime: TimeSpec) -> (r: Self)
        ensures
            r.id == id,
            r.name == name,
            r.content@ == Seq::<u8>::empty(),
            r.ctime == ctime,
    {
        RamFsFileInode { id, name, content: Vec::new(), ctime }
    }

    /// The name of the file.
    pub fn name(&self) -> (r: &str)
        ensures
            r@ == self.name@,
    {
        self.name.as_str()
    }

    /// The inode number of the file.
    pub fn id(&self) -> (r: usize)
        ensures
            r == self.id,
    {
        self.id
    }
}

impl VfsInode for RamFsFileInode {
    /// A file has no children.
    fn find(&self, name: &str) -> (r: Option<usize>)
        ensures
            r is None,
    {
        None
    }

    /// A file has no children, so nothing is created.
    fn create(&mut self, name: &str) -> (r: Option<usize>)
        ensures
            r is None,
            *final(self) == *old(self),
    {
        None
    }

    /// A file has no children.
    fn ls(&self) -> (r: Vec<String>)
        ensures
            r@.len() == 0,
    {
        Vec::new()
    }

    /// Copies the bytes of the file from `offset` on to the front of
    /// `buf`, as many as the file has there and `buf` has room for, and
    /// returns their number. The rest of `buf` is left as it is.
    fn read_at(&self, offset: usize, buf: &mut Vec<u8>) -> (r: usize)
        ensures
            r == bytes_read(self.content@, offset, old(buf)@.len()).len(),
            final(buf)@.len() == old(buf)@.len(),
            final(buf)@.subrange(0, r as int) == bytes_read(self.content@, offset, old(buf)@.len()),
            final(buf)@.subrange(r as int, old(buf)@.len() as int) == old(buf)@.subrange(
                r as int,
                old(buf)@.len() as int,
            ),
    {
        let len: usize = self.content.len();
        let buf_len: usize = buf.len();
        let copy_start: usize = if offset < len {
            offset
        } else {
            len
        };
        let copy_end: usize = if offset + buf_len < len {
            offset + buf_len
        } else {
            len
        };
        let n: usize = copy_end - copy_start;
        let ghost before = buf@;
        let mut i: usize = 0;
        while i < n
            invariant
                i <= n,
                n == copy_end - copy_start,
                copy_end <= self.content@.len(),
                n <= buf@.len(),
                buf@.len() == before.len(),
                forall|k: int| 0 <= k < i ==> buf@[k] == self.content@[copy_start + k],
                forall|k: int| i <= k < buf@.len() ==> buf@[k] == before[k],
            decreases n - i,
        {
            buf[i] = self.content[copy_start + i];
            i = i + 1;
        }
        assert(buf@.subrange(0, n as int) =~= bytes_read(self.content@, offset, before.len()));
        assert(buf@.subrange(n as int, before.len() as int) =~= before.subrange(
            n as int,
            before.len() as int,
        ));
        n
    }

    /// Writes `buf` into the file at `offset`, extending the file with
    /// zeros if it ends before the end of the write, and returns the
    /// number of bytes written.
    fn write_at(&mut self, offset: usize, buf: &Vec<u8>) -> (r: usize)
        ensures
            r == buf@.len(),
            final(self).content@ == bytes_written(old(self).content@, offset, buf@),
            final(self).id == old(self).id,
            final(self).name == old(self).name,
            final(self).ctime == old(self).ctime,
    {
        let ghost before = self.content@;
        let buf_len: usize = buf.len();
        let copy_end: usize = offset + buf_len;
        while self.content.len() < copy_end
            invariant
                self.content@.len() >= before.len(),
                self.content@.len() <= copy_end || self.content@.len() == before.len(),
                forall|k: int| 0 <= k < before.len() ==> self.content@[k] == before[k],
                forall|k: int| before.len() <= k < self.content@.len() ==> self.content@[k] == 0,
                self.id == old(self).id,
                self.name == old(self).name,
                self.ctime == old(self).ctime,
            decreases copy_end - self.content@.len(),
        {
            self.content.push(0);
        }
        let ghost grown = self.content@;
        let mut i: usize = 0;
        while i < buf_len
            invariant
                i <= buf_len,
                buf_len == buf@.len(),
                copy_end == offset + buf_len,
                self.content@.len() == grown.len(),
                grown.len() >= copy_end,
                grown.len() == copy_end || grown.len() == before.len(),
                grown.len() >= before.len(),
                forall|k: int| 0 <= k < before.len() ==> grown[k] == before[k],
                forall|k: int| before.len() <= k < grown.len() ==> grown[k] == 0,
                forall|k: int| offset <= k < offset + i ==> self.content@[k] == buf@[k - offset],
                forall|k: int|
                    0 <= k < grown.len() && !(offset <= k < offset + i) ==> self.content@[k] == grown[k],
                self.id == old(self).id,
                self.name == old(self).name,
                self.ctime == old(self).ctime,
            decreases buf_len - i,
        {
            self.content[offset + i] = buf[i];
            i = i + 1;
        }
        proof {
            let want = bytes_written(before, offset, buf@);
            assert(want.len() == self.content@.len());
            assert forall|k: int| 0 <= k < want.len() implies self.content@[k] == want[k] by {
                if offset <= k < offset + buf_len {
                } else {
                    assert(self.content@[k] == grown[k]);
                }
            }
            assert(self.content@ =~= want);
        }
        buf_len
    }

    /// Removes the bytes of the file.
    fn clear(&mut self)
        ensures
            final(self).content@ == Seq::<u8>::empty(),
            final(self).id == old(self).id,
            final(self).name == old(self).name,
            final(self).ctime == old(self).ctime,
    {
        self.content.clear();
    }
}

} // verus!
