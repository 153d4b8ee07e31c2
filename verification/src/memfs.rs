//! The filesystem: an arena of entries, a descriptor table and a pool of
//! file buffers.

use vstd::prelude::*;
use std::ops::Not;
use crate::invariants::{
    lemma_chdir_valid, lemma_close_valid, lemma_linked_entry_valid, lemma_lseek_valid,
    lemma_mkdir_valid, lemma_open_valid, lemma_read_valid, lemma_rmdir_valid,
    lemma_taken_buffer_valid, lemma_unlink_valid, lemma_walk_in_arena,
    lemma_with_descriptor_valid, lemma_write_valid,
};
use crate::model::{
    is_dot, is_dotdot, readable, seek_target, write_count, write_position, DirState, EntryState,
    FileState, FsState, ROOT, ROOT_SENTINEL,
};
use crate::path::{
    get_last_component_of_path, is_absolute_path, names_of, path_str_to_iter,
    path_str_to_iter_and_without_last_component,
};
use crate::store::{
    descriptor_table, descriptor_table_get, descriptor_table_insert, descriptor_table_new,
    descriptor_table_remove, name_table, name_table_get, name_table_insert, name_table_is_empty,
    name_table_new, name_table_remove, pool_buffers, pool_capacity, pool_new, pool_pop,
    pool_push, BufferPool, DescriptorTable, NameTable,
};
use crate::utils::{
    has_bits, mode_exclusive, result_is, MemFSErr, MemFSErrType, OpenFlag, Result, SeekFlag,
    EXCL_BIT, FILE_MAX_SIZE, NUMBER_OF_MAXIMUM_FILES, RDONLY_BIT, WRONLY_BIT,
};

verus! {

/// A directory: the place of its parent in the arena (none for the root) and
/// its children by name.
pub struct MemFSDirNode {
    parent: Option<usize>,
    children: NameTable,
}

impl View for MemFSDirNode {
    type V = DirState;

    closed spec fn view(&self) -> DirState {
        DirState { parent: self.parent, children: name_table(self.children) }
    }
}

impl MemFSDirNode {
    /// An empty directory without a parent.
    pub fn new() -> (dir: MemFSDirNode)
        ensures
            dir@ == (DirState { parent: None, children: Map::empty() }),
    {
        Self { parent: None, children: name_table_new() }
    }

    /// An empty directory whose parent stands at `parent` in the arena.
    pub fn with_parent(parent: usize) -> (dir: MemFSDirNode)
        ensures
            dir@ == (DirState { parent: Some(parent), children: Map::empty() }),
    {
        Self { parent: Some(parent), children: name_table_new() }
    }

    /// Makes `file_name` stand for `entry` if the name is vacant. A name
    /// that is taken stays as it is: that is an error with `O_EXCL` and
    /// success without it. Gives the entry that the name stands for.
    fn create_new_file(&mut self, file_name: &str, flag: OpenFlag, entry: usize) -> (linked:
        Result<usize>)
        ensures
            final(self)@.parent == old(self)@.parent,
            old(self)@.children.contains_key(file_name@) ==> final(self)@ == old(self)@,
            old(self)@.children.contains_key(file_name@) && has_bits(flag@, EXCL_BIT)
                ==> linked is Err && linked->Err_0.is_kind(MemFSErrType::EEXIST),
            old(self)@.children.contains_key(file_name@) && !has_bits(flag@, EXCL_BIT)
                ==> linked == Ok::<usize, MemFSErr>(old(self)@.children[file_name@]),
            !old(self)@.children.contains_key(file_name@) ==> linked == Ok::<usize, MemFSErr>(
                entry,
            ) && final(self)@.children == old(self)@.children.insert(file_name@, entry),
    {
        match name_table_get(&self.children, file_name) {
            Some(present) => {
                if flag.contains(OpenFlag::O_EXCL()) {
                    Err(MemFSErr::already_exists())
                } else {
                    Ok(present)
                }
            },
            None => {
                name_table_insert(&mut self.children, file_name.to_owned(), entry);
                Ok(entry)
            },
        }
    }

    /// Makes `dir_name` stand for `entry` if the name is vacant; a name that
    /// is taken is an error and stays as it is.
    fn create_new_directory(&mut self, dir_name: &str, entry: usize) -> (linked: Result<()>)
        ensures
            final(self)@.parent == old(self)@.parent,
            old(self)@.children.contains_key(dir_name@) ==> linked is Err
                && linked->Err_0.is_kind(MemFSErrType::EEXIST) && final(self)@ == old(self)@,
            !old(self)@.children.contains_key(dir_name@) ==> linked is Ok
                && final(self)@.children == old(self)@.children.insert(dir_name@, entry),
    {
        match name_table_get(&self.children, dir_name) {
            Some(_) => Err(MemFSErr::already_exists()),
            None => {
                name_table_insert(&mut self.children, dir_name.to_owned(), entry);
                Ok(())
            },
        }
    }

    /// Takes the name `name` away.
    fn remove_entry(&mut self, name: &str)
        ensures
            final(self)@ == (DirState {
                children: old(self)@.children.remove(name@),
                ..old(self)@
            }),
    {
        name_table_remove(&mut self.children, name);
    }

    /// The entry that `name` stands for.
    fn get_entry(&self, name: &str) -> (found: Option<usize>)
        ensures
            found == if self@.children.contains_key(name@) {
                Some(self@.children[name@])
            } else {
                None
            },
    {
        name_table_get(&self.children, name)
    }

    /// Whether the directory has no child.
    fn is_empty(&self) -> (empty: bool)
        ensures
            empty == (self@.children == Map::<Seq<char>, usize>::empty()),
    {
        name_table_is_empty(&self.children)
    }
}

/// A file: its logical size and the buffer that holds its bytes.
pub struct MemFSFileNode {
    size: usize,
    data: Vec<u8>,
}

impl View for MemFSFileNode {
    type V = FileState;

    closed spec fn view(&self) -> FileState {
        FileState { size: self.size, data: self.data@ }
    }
}

impl MemFSFileNode {
    /// An empty file over the buffer `space`.
    pub fn new(space: Vec<u8>) -> (file: MemFSFileNode)
        ensures
            file@ == (FileState { size: 0, data: space@ }),
    {
        Self { size: 0, data: space }
    }
}

/// An entry of the arena.
pub enum MemFSEntry {
    Directory(MemFSDirNode),
    File(MemFSFileNode),
    ResolvedAsRoot,
}

impl View for MemFSEntry {
    type V = EntryState;

    closed spec fn view(&self) -> EntryState {
        match self {
            MemFSEntry::Directory(dir) => EntryState::Directory(dir@),
            MemFSEntry::File(file) => EntryState::File(file@),
            MemFSEntry::ResolvedAsRoot => EntryState::ResolvedAsRoot,
        }
    }
}

/// The state of one open file: its id, its flags, its offset and the place of
/// its file in the arena.
#[derive(Clone, Copy, Debug)]
pub struct MemFSFileDescriptor {
    pub number: usize,
    pub flag: OpenFlag,
    pub file_offset: usize,
    pub entry: usize,
}

impl MemFSFileDescriptor {
    /// A descriptor at offset 0.
    pub fn new(number: usize, flag: OpenFlag, entry: usize) -> (descriptor: MemFSFileDescriptor)
        ensures
            descriptor == (MemFSFileDescriptor { number, flag, file_offset: 0, entry }),
    {
        Self { number, flag, file_offset: 0, entry }
    }

    /// Copies into `buffer` what the file holds from the descriptor's offset
    /// on, `size` bytes at most, and moves the offset past it.
    fn read_file(&mut self, file: &MemFSFileNode, buffer: &mut Vec<u8>, size: usize) -> (count:
        Result<usize>)
        requires
            old(self).file_offset <= file@.size <= FILE_MAX_SIZE,
            file@.data.len() == FILE_MAX_SIZE,
        ensures
            count is Err ==> *final(self) == *old(self) && final(buffer)@ == old(buffer)@,
            has_bits(old(self).flag@, WRONLY_BIT) ==> count is Err && count->Err_0.is_kind(
                MemFSErrType::EBADF,
            ),
            !has_bits(old(self).flag@, WRONLY_BIT) && old(buffer)@.len() < readable(
                old(self).file_offset,
                file@.size,
                size,
            ) ==> count is Err && count->Err_0.is_kind(MemFSErrType::EFAULT),
            !has_bits(old(self).flag@, WRONLY_BIT) && old(buffer)@.len() >= readable(
                old(self).file_offset,
                file@.size,
                size,
            ) ==> {
                let n = readable(old(self).file_offset, file@.size, size);
                &&& count == Ok::<usize, MemFSErr>(n)
                &&& *final(self) == (MemFSFileDescriptor {
                    file_offset: (old(self).file_offset + n) as usize,
                    ..*old(self)
                })
                &&& final(buffer)@ == file@.data.subrange(
                    old(self).file_offset as int,
                    old(self).file_offset + n,
                ) + old(buffer)@.subrange(n as int, old(buffer)@.len() as int)
            },
    {
        if self.flag.contains(OpenFlag::O_WRONLY()) {
            return Err(MemFSErr::bad_file_descriptor());
        }
        let current_offset: usize = self.file_offset;
        let file_size: usize = file.size;
        let reading_length: usize = if current_offset >= file_size {
            0
        } else if size <= file_size - current_offset {
            size
        } else {
            file_size - current_offset
        };
        if buffer.len() < reading_length {
            return Err(MemFSErr::bad_memory_access());
        }
        let mut copied: usize = 0;
        while copied < reading_length
            invariant
                copied <= reading_length,
                current_offset + reading_length <= file_size <= FILE_MAX_SIZE,
                file@.data.len() == FILE_MAX_SIZE,
                file_size == file@.size,
                buffer@.len() == old(buffer)@.len(),
                reading_length <= buffer@.len(),
                forall|j: int| 0 <= j < copied ==> buffer@[j] == file@.data[current_offset + j],
                forall|j: int| copied <= j < buffer@.len() ==> buffer@[j] == old(buffer)@[j],
            decreases reading_length - copied,
        {
            let byte: u8 = file.data[current_offset + copied];
            buffer.set(copied, byte);
            copied = copied + 1;
        }
        self.file_offset = current_offset + reading_length;
        assert(buffer@ =~= file@.data.subrange(
            current_offset as int,
            current_offset + reading_length,
        ) + old(buffer)@.subrange(reading_length as int, old(buffer)@.len() as int));
        Ok(reading_length)
    }

    /// Copies the first `size` bytes of `buffer`, or all of it if it is
    /// shorter, into the file: at the end of the file if the descriptor
    /// appends, else at the descriptor's offset. The offset moves past what
    /// was written and the file grows to hold it.
    fn write_file(&mut self, file: &mut MemFSFileNode, buffer: &Vec<u8>, size: usize) -> (count:
        Result<usize>)
        requires
            old(self).file_offset <= old(file)@.size <= FILE_MAX_SIZE,
            old(file)@.data.len() == FILE_MAX_SIZE,
        ensures
            count is Err ==> *final(self) == *old(self) && final(file)@ == old(file)@,
            has_bits(old(self).flag@, RDONLY_BIT) ==> count is Err && count->Err_0.is_kind(
                MemFSErrType::EBADF,
            ),
            !has_bits(old(self).flag@, RDONLY_BIT) && write_position(*old(self), old(file)@)
                + write_count(size, buffer@) > FILE_MAX_SIZE ==> count is Err
                && count->Err_0.is_kind(MemFSErrType::EFBIG),
            !has_bits(old(self).flag@, RDONLY_BIT) && write_position(*old(self), old(file)@)
                + write_count(size, buffer@) <= FILE_MAX_SIZE ==> {
                let n = write_count(size, buffer@);
                let at = write_position(*old(self), old(file)@);
                &&& count == Ok::<usize, MemFSErr>(n)
                &&& *final(self) == (MemFSFileDescriptor {
                    file_offset: (at + n) as usize,
                    ..*old(self)
                })
                &&& final(file)@ == (FileState {
                    size: if old(file)@.size >= at + n {
                        old(file)@.size
                    } else {
                        (at + n) as usize
                    },
                    data: old(file)@.data.subrange(0, at as int) + buffer@.subrange(0, n as int)
                        + old(file)@.data.subrange(at + n, old(file)@.data.len() as int),
                })
            },
    {
        if self.flag.contains(OpenFlag::O_RDONLY()) {
            return Err(MemFSErr::bad_file_descriptor());
        }
        let current_offset: usize = if self.flag.contains(OpenFlag::O_APPEND()) {
            file.size
        } else {
            self.file_offset
        };
        let writing_content_size: usize = if size <= buffer.len() {
            size
        } else {
            buffer.len()
        };
        if writing_content_size > FILE_MAX_SIZE - current_offset {
            return Err(MemFSErr::file_too_large());
        }
        let expected_offset: usize = current_offset + writing_content_size;
        let mut copied: usize = 0;
        while copied < writing_content_size
            invariant
                copied <= writing_content_size <= buffer@.len(),
                current_offset + writing_content_size <= FILE_MAX_SIZE,
                file@.size == old(file)@.size,
                file@.data.len() == FILE_MAX_SIZE,
                forall|j: int|
                    0 <= j < copied ==> file@.data[current_offset + j] == buffer@[j],
                forall|j: int|
                    0 <= j < FILE_MAX_SIZE && !(current_offset <= j < current_offset + copied)
                        ==> file@.data[j] == old(file)@.data[j],
            decreases writing_content_size - copied,
        {
            let byte: u8 = buffer[copied];
            file.data.set(current_offset + copied, byte);
            copied = copied + 1;
        }
        if file.size < expected_offset {
            file.size = expected_offset;
        }
        self.file_offset = expected_offset;
        assert(file@.data =~= old(file)@.data.subrange(0, current_offset as int)
            + buffer@.subrange(0, writing_content_size as int) + old(file)@.data.subrange(
            current_offset + writing_content_size,
            old(file)@.data.len() as int,
        ));
        Ok(writing_content_size)
    }

    /// Moves the offset to `seek_position` past the origin that `flag`
    /// names, or to the end of the file if that lies beyond it.
    fn seek_file(&mut self, file: &MemFSFileNode, seek_position: usize, flag: SeekFlag) -> (offset:
        Result<usize>)
        requires
            old(self).file_offset <= file@.size,
        ensures
            offset == Ok::<usize, MemFSErr>(
                seek_target(old(self).file_offset, file@.size, seek_position, flag),
            ),
            *final(self) == (MemFSFileDescriptor {
                file_offset: seek_target(old(self).file_offset, file@.size, seek_position, flag),
                ..*old(self)
            }),
    {
        let current_offset: usize = self.file_offset;
        let maximum_offset: usize = file.size;
        let additional_offset: usize = match flag {
            SeekFlag::SEEK_CUR => current_offset,
            SeekFlag::SEEK_END => maximum_offset,
            SeekFlag::SEEK_SET => 0,
        };
        let final_offset: usize = if seek_position >= maximum_offset - additional_offset {
            maximum_offset
        } else {
            additional_offset + seek_position
        };
        self.file_offset = final_offset;
        Ok(final_offset)
    }
}

/// An in-memory filesystem with the calls `open`, `close`, `unlink`, `read`,
/// `write`, `lseek`, `mkdir`, `rmdir` and `chdir`.
pub struct MemFS {
    nodes: Vec<MemFSEntry>,
    cwd_node: usize,
    file_descriptors: DescriptorTable,
    file_descriptor_count: usize,
    file_memory: BufferPool,
}

/// The states of the entries of an arena.
pub closed spec fn entry_states(nodes: Seq<MemFSEntry>) -> Seq<EntryState> {
    Seq::new(nodes.len(), |i: int| nodes[i]@)
}

impl View for MemFS {
    type V = FsState;

    closed spec fn view(&self) -> FsState {
        FsState {
            nodes: entry_states(self.nodes@),
            cwd: self.cwd_node,
            descriptors: descriptor_table(self.file_descriptors),
            next_descriptor: self.file_descriptor_count,
            free_buffers: pool_buffers(self.file_memory),
        }
    }
}

impl MemFS {
    /// Whether the filesystem is in a valid state.
    pub open spec fn wf(&self) -> bool {
        self@.valid()
    }

    /// A filesystem with an empty root, no descriptor and a full pool.
    pub fn new() -> (fs: MemFS)
        ensures
            fs@ == FsState::initial(),
            fs.wf(),
    {
        let mut nodes: Vec<MemFSEntry> = Vec::new();
        nodes.push(MemFSEntry::Directory(MemFSDirNode::new()));
        nodes.push(MemFSEntry::ResolvedAsRoot);
        let mut pool = pool_new(NUMBER_OF_MAXIMUM_FILES);
        let mut filled: usize = 0;
        while filled < NUMBER_OF_MAXIMUM_FILES
            invariant
                filled <= NUMBER_OF_MAXIMUM_FILES,
                pool_capacity(pool) == NUMBER_OF_MAXIMUM_FILES,
                pool_buffers(pool) == Seq::new(
                    filled as nat,
                    |i: int| Seq::new(FILE_MAX_SIZE as nat, |j: int| 0u8),
                ),
            decreases NUMBER_OF_MAXIMUM_FILES - filled,
        {
            let buffer: Vec<u8> = vec![0u8; FILE_MAX_SIZE];
            assert(buffer@ =~= Seq::new(FILE_MAX_SIZE as nat, |j: int| 0u8));
            let ghost before = pool_buffers(pool);
            let _ = pool_push(&mut pool, buffer);
            filled = filled + 1;
            assert(pool_buffers(pool) =~= Seq::new(
                filled as nat,
                |i: int| Seq::new(FILE_MAX_SIZE as nat, |j: int| 0u8),
            ));
        }
        let fs = Self {
            nodes,
            cwd_node: ROOT,
            file_descriptors: descriptor_table_new(),
            file_descriptor_count: 0,
            file_memory: pool,
        };
        proof {
            assert(fs@.nodes =~= FsState::initial().nodes);
            assert(fs@.free_buffers =~= FsState::initial().free_buffers);
            assert(fs@.descriptors =~= FsState::initial().descriptors);
        }
        fs
    }

    /// Whether the arena can take one more entry and the descriptor counter
    /// can go up by one.
    pub fn can_grow(&self) -> (room: bool)
        ensures
            room == self@.has_room(),
    {
        self.file_descriptor_count < usize::MAX && self.nodes.len() < usize::MAX
    }

    /// Opens the file that `path` names and gives its new descriptor. With
    /// `O_CREAT` a file that is not there is made first, over a buffer from
    /// the pool.
    pub fn open(&mut self, path: &str, flag: OpenFlag) -> (fd: Result<usize>)
        requires
            old(self).wf(),
            old(self)@.has_room(),
        ensures
            final(self).wf(),
            final(self)@ == old(self)@.open(path@, flag).0,
            result_is(fd, old(self)@.open(path@, flag).1),
            final(self)@.nodes.len() <= old(self)@.nodes.len() + 1,
            final(self)@.next_descriptor <= old(self)@.next_descriptor + 1,
    {
        proof {
            lemma_open_valid(self@, path@, flag);
        }
        if !flag.check_mode_exclusiveness() {
            return Err(MemFSErr::invalid_value());
        }
        let parent_node = match self.get_parent_directory_node_of_given_path(path) {
            Ok(parent) => parent,
            Err(e) => {
                return Err(e);
            },
        };
        let dir = match self.resolve_dir_and_entry(parent_node) {
            Ok(dir) => dir,
            Err(e) => {
                return Err(e);
            },
        };
        let last_elem = match get_last_component_of_path(path) {
            Ok(name) => name,
            Err(e) => {
                return Err(e);
            },
        };
        match self.lookup(dir, last_elem) {
            Some(target) => {
                assert(self@.has_child(dir as int, last_elem@));
                assert(self@.valid_child(dir as int, last_elem@));
                if flag.contains(OpenFlag::O_CREAT() | OpenFlag::O_EXCL()) {
                    Err(MemFSErr::already_exists())
                } else {
                    match &self.nodes[target] {
                        MemFSEntry::File(_) => Ok(self.attach_descriptor(target, flag)),
                        _ => Err(MemFSErr::is_directory()),
                    }
                }
            },
            None => {
                if !flag.contains(OpenFlag::O_CREAT()) || last_elem.unicode_len() == 0 {
                    return Err(MemFSErr::no_such_file_or_directory());
                }
                let memory_block = match self.allocate_file_memory() {
                    Ok(block) => block,
                    Err(e) => {
                        return Err(e);
                    },
                };
                let created = self.create(dir, last_elem, OpenFlag::O_EXCL() & flag, memory_block);
                Ok(self.attach_descriptor(created, flag))
            },
        }
    }

    /// Closes a descriptor. Its id is not issued again.
    pub fn close(&mut self, fd: usize) -> (closed: Result<()>)
        requires
            old(self).wf(),
        ensures
            final(self).wf(),
            final(self)@ == old(self)@.close(fd).0,
            result_is(closed, old(self)@.close(fd).1),
            final(self)@.nodes.len() == old(self)@.nodes.len(),
            final(self)@.next_descriptor == old(self)@.next_descriptor,
    {
        proof {
            lemma_close_valid(self@, fd);
        }
        if descriptor_table_remove(&mut self.file_descriptors, fd) {
            Ok(())
        } else {
            assert(descriptor_table(self.file_descriptors) =~= descriptor_table(
                old(self).file_descriptors,
            ));
            Err(MemFSErr::bad_file_descriptor())
        }
    }

    /// Takes the name of a file away from its directory. Descriptors that
    /// are open on the file stay usable.
    pub fn unlink(&mut self, path: &str) -> (removed: Result<()>)
        requires
            old(self).wf(),
        ensures
            final(self).wf(),
            final(self)@ == old(self)@.unlink(path@).0,
            result_is(removed, old(self)@.unlink(path@).1),
            final(self)@.nodes.len() == old(self)@.nodes.len(),
            final(self)@.next_descriptor == old(self)@.next_descriptor,
    {
        proof {
            lemma_unlink_valid(self@, path@);
        }
        let dir_node = match self.get_parent_directory_node_of_given_path(path) {
            Ok(parent) => parent,
            Err(e) => {
                return Err(e);
            },
        };
        let last_elem = match get_last_component_of_path(path) {
            Ok(name) => name,
            Err(e) => {
                return Err(e);
            },
        };
        match &self.nodes[dir_node] {
            MemFSEntry::Directory(_) => self.remove_file(dir_node, last_elem),
            MemFSEntry::File(_) => Err(MemFSErr::no_such_file_or_directory()),
            MemFSEntry::ResolvedAsRoot => self.remove_file(ROOT, last_elem),
        }
    }

    /// Reads through a descriptor into `buffer`, `size` bytes at most, and
    /// gives the number of bytes read.
    pub fn read(&mut self, fd: usize, buffer: &mut Vec<u8>, size: usize) -> (count: Result<usize>)
        requires
            old(self).wf(),
        ensures
            final(self).wf(),
            final(self)@ == old(self)@.read(fd, old(buffer)@, size).0,
            final(buffer)@ == old(self)@.read(fd, old(buffer)@, size).1,
            result_is(count, old(self)@.read(fd, old(buffer)@, size).2),
            final(self)@.nodes.len() == old(self)@.nodes.len(),
            final(self)@.next_descriptor == old(self)@.next_descriptor,
    {
        proof {
            lemma_read_valid(self@, fd, buffer@, size);
        }
        match descriptor_table_get(&self.file_descriptors, fd) {
            None => Err(MemFSErr::bad_file_descriptor()),
            Some(found) => {
                let mut descriptor = found;
                assert(self@.descriptors.contains_key(fd));
                assert(self@.valid_descriptor(fd));
                assert(self@.is_file(descriptor.entry as int));
                let count = match &self.nodes[descriptor.entry] {
                    MemFSEntry::File(file) => descriptor.read_file(file, buffer, size),
                    _ => Err(MemFSErr::no_such_file_or_directory()),
                };
                if count.is_ok() {
                    descriptor_table_insert(&mut self.file_descriptors, fd, descriptor);
                }
                count
            },
        }
    }

    /// Writes the first `size` bytes of `buffer` through a descriptor and
    /// gives the number of bytes written.
    pub fn write(&mut self, fd: usize, buffer: &Vec<u8>, size: usize) -> (count: Result<usize>)
        requires
            old(self).wf(),
        ensures
            final(self).wf(),
            final(self)@ == old(self)@.write(fd, buffer@, size).0,
            result_is(count, old(self)@.write(fd, buffer@, size).1),
            final(self)@.nodes.len() == old(self)@.nodes.len(),
            final(self)@.next_descriptor == old(self)@.next_descriptor,
    {
        proof {
            lemma_write_valid(self@, fd, buffer@, size);
        }
        match descriptor_table_get(&self.file_descriptors, fd) {
            None => Err(MemFSErr::bad_file_descriptor()),
            Some(found) => {
                let mut descriptor = found;
                assert(self@.descriptors.contains_key(fd));
                assert(self@.valid_descriptor(fd));
                assert(self@.is_file(descriptor.entry as int));
                let count = match &mut self.nodes[descriptor.entry] {
                    MemFSEntry::File(file) => descriptor.write_file(file, buffer, size),
                    _ => Err(MemFSErr::no_such_file_or_directory()),
                };
                if count.is_ok() {
                    descriptor_table_insert(&mut self.file_descriptors, fd, descriptor);
                    assert(self@.nodes =~= old(self)@.write(fd, buffer@, size).0.nodes);
                } else {
                    assert(self@.nodes =~= old(self)@.nodes);
                }
                count
            },
        }
    }

    /// Moves the offset of a descriptor and gives the new offset, which is
    /// never beyond the end of the file.
    pub fn lseek(&mut self, fd: usize, offset: usize, flag: SeekFlag) -> (position: Result<usize>)
        requires
            old(self).wf(),
        ensures
            final(self).wf(),
            final(self)@ == old(self)@.lseek(fd, offset, flag).0,
            result_is(position, old(self)@.lseek(fd, offset, flag).1),
            final(self)@.nodes.len() == old(self)@.nodes.len(),
            final(self)@.next_descriptor == old(self)@.next_descriptor,
    {
        proof {
            lemma_lseek_valid(self@, fd, offset, flag);
        }
        match descriptor_table_get(&self.file_descriptors, fd) {
            None => Err(MemFSErr::bad_file_descriptor()),
            Some(found) => {
                let mut descriptor = found;
                assert(self@.descriptors.contains_key(fd));
                assert(self@.valid_descriptor(fd));
                assert(self@.is_file(descriptor.entry as int));
                let position = match &self.nodes[descriptor.entry] {
                    MemFSEntry::File(file) => descriptor.seek_file(file, offset, flag),
                    _ => Err(MemFSErr::is_directory()),
                };
                if position.is_ok() {
                    descriptor_table_insert(&mut self.file_descriptors, fd, descriptor);
                }
                position
            },
        }
    }

    /// Makes an empty directory under the name that `path` gives.
    pub fn mkdir(&mut self, path: &str) -> (made: Result<()>)
        requires
            old(self).wf(),
            old(self)@.arena_has_room(),
        ensures
            final(self).wf(),
            final(self)@ == old(self)@.mkdir(path@).0,
            result_is(made, old(self)@.mkdir(path@).1),
            final(self)@.nodes.len() <= old(self)@.nodes.len() + 1,
            final(self)@.next_descriptor == old(self)@.next_descriptor,
    {
        proof {
            lemma_mkdir_valid(self@, path@);
        }
        let last_elem = match get_last_component_of_path(path) {
            Ok(name) => name,
            Err(e) => {
                return Err(e);
            },
        };
        if path.unicode_len() > 0 && last_elem.unicode_len() == 0 {
            return Err(MemFSErr::already_exists());
        }
        let dir_node = match self.get_parent_directory_node_of_given_path(path) {
            Ok(parent) => parent,
            Err(e) => {
                return Err(e);
            },
        };
        if is_dot_name(last_elem) || is_dotdot_name(last_elem) {
            return Err(MemFSErr::already_exists());
        }
        match &self.nodes[dir_node] {
            MemFSEntry::Directory(_) => self.make_directory(dir_node, last_elem),
            MemFSEntry::File(_) => Err(MemFSErr::no_such_file_or_directory()),
            MemFSEntry::ResolvedAsRoot => Err(MemFSErr::already_exists()),
        }
    }

    /// Removes the empty directory that `path` names.
    pub fn rmdir(&mut self, path: &str) -> (removed: Result<()>)
        requires
            old(self).wf(),
        ensures
            final(self).wf(),
            final(self)@ == old(self)@.rmdir(path@).0,
            result_is(removed, old(self)@.rmdir(path@).1),
            final(self)@.nodes.len() == old(self)@.nodes.len(),
            final(self)@.next_descriptor == old(self)@.next_descriptor,
    {
        proof {
            lemma_rmdir_valid(self@, path@);
        }
        if path.unicode_len() == 1 && path.get_char(0) == '/' {
            return Err(MemFSErr::busy());
        }
        let dir_node = match self.get_parent_directory_node_of_given_path(path) {
            Ok(parent) => parent,
            Err(e) => {
                return Err(e);
            },
        };
        let last_elem = match get_last_component_of_path(path) {
            Ok(name) => name,
            Err(e) => {
                return Err(e);
            },
        };
        if is_dot_name(last_elem) {
            return Err(MemFSErr::invalid_value());
        } else if is_dotdot_name(last_elem) {
            return Err(MemFSErr::is_not_empty());
        }
        match &self.nodes[dir_node] {
            MemFSEntry::Directory(_) => self.remove_directory(dir_node, last_elem),
            MemFSEntry::File(_) => Err(MemFSErr::no_such_file_or_directory()),
            MemFSEntry::ResolvedAsRoot => Err(MemFSErr::busy()),
        }
    }

    /// Makes the directory that `path` names the working directory.
    pub fn chdir(&mut self, path: &str) -> (changed: Result<()>)
        requires
            old(self).wf(),
        ensures
            final(self).wf(),
            final(self)@ == old(self)@.chdir(path@).0,
            result_is(changed, old(self)@.chdir(path@).1),
            final(self)@.nodes.len() == old(self)@.nodes.len(),
            final(self)@.next_descriptor == old(self)@.next_descriptor,
    {
        proof {
            lemma_chdir_valid(self@, path@);
        }
        let dir_node = match self.get_node_of_given_path(path) {
            Ok(node) => node,
            Err(e) => {
                return Err(e);
            },
        };
        match &self.nodes[dir_node] {
            MemFSEntry::Directory(_) => {
                self.cwd_node = dir_node;
                Ok(())
            },
            MemFSEntry::ResolvedAsRoot => {
                self.cwd_node = ROOT;
                Ok(())
            },
            _ => Err(MemFSErr::is_not_directory()),
        }
    }

    /// The entry that `name` stands for in the directory at `dir`.
    fn lookup(&self, dir: usize, name: &str) -> (found: Option<usize>)
        requires
            self@.is_dir(dir as int),
        ensures
            found == if self@.has_child(dir as int, name@) {
                Some(self@.dir(dir as int).children[name@])
            } else {
                None
            },
    {
        match &self.nodes[dir] {
            MemFSEntry::Directory(here) => here.get_entry(name),
            _ => None,
        }
    }

    /// Makes an empty file over `space` and gives it the vacant name
    /// `file_name` in the directory at `dir`. Gives the file's place.
    fn create(&mut self, dir: usize, file_name: &str, flag: OpenFlag, space: Vec<u8>) -> (created:
        usize)
        requires
            old(self).wf(),
            old(self)@.is_dir(dir as int),
            !old(self)@.has_child(dir as int, file_name@),
            file_name@.len() > 0,
            space@.len() == FILE_MAX_SIZE,
            old(self)@.nodes.len() < usize::MAX,
        ensures
            final(self).wf(),
            created == old(self)@.nodes.len(),
            final(self)@ == old(self)@.with_entry(
                EntryState::File(FileState { size: 0, data: space@ }),
            ).with_child(dir as int, file_name@, created),
    {
        let created: usize = self.nodes.len();
        match &mut self.nodes[dir] {
            MemFSEntry::Directory(here) => {
                let _ = here.create_new_file(file_name, flag, created);
            },
            _ => {},
        }
        self.nodes.push(MemFSEntry::File(MemFSFileNode::new(space)));
        proof {
            let file = EntryState::File(FileState { size: 0, data: space@ });
            let expected = old(self)@.with_entry(file).with_child(dir as int, file_name@, created);
            assert(self@.nodes =~= expected.nodes);
            lemma_linked_entry_valid(old(self)@, dir as int, file_name@, file);
        }
        created
    }

    /// Makes an empty directory under the name `dir_name` in the directory
    /// at `dir`, unless the name is taken.
    fn make_directory(&mut self, dir: usize, dir_name: &str) -> (made: Result<()>)
        requires
            old(self).wf(),
            old(self)@.is_dir(dir as int),
            old(self)@.nodes.len() < usize::MAX,
        ensures
            final(self)@ == old(self)@.create_directory(dir as int, dir_name@).0,
            result_is(made, old(self)@.create_directory(dir as int, dir_name@).1),
    {
        let created: usize = self.nodes.len();
        let linked = match &mut self.nodes[dir] {
            MemFSEntry::Directory(here) => here.create_new_directory(dir_name, created),
            _ => Err(MemFSErr::already_exists()),
        };
        match linked {
            Err(e) => {
                assert(self@.nodes =~= old(self)@.nodes);
                Err(e)
            },
            Ok(()) => {
                self.nodes.push(MemFSEntry::Directory(MemFSDirNode::with_parent(dir)));
                assert(self@.nodes =~= old(self)@.create_directory(dir as int, dir_name@).0.nodes);
                Ok(())
            },
        }
    }

    /// Takes the name `file_name` away from the directory at `dir` if it
    /// stands for a file.
    fn remove_file(&mut self, dir: usize, file_name: &str) -> (removed: Result<()>)
        requires
            old(self).wf(),
            old(self)@.is_dir(dir as int),
        ensures
            final(self)@ == old(self)@.remove_file(dir as int, file_name@).0,
            result_is(removed, old(self)@.remove_file(dir as int, file_name@).1),
    {
        match self.lookup(dir, file_name) {
            None => Err(MemFSErr::no_such_file_or_directory()),
            Some(target) => {
                assert(self@.has_child(dir as int, file_name@));
                assert(self@.valid_child(dir as int, file_name@));
                match &self.nodes[target] {
                    MemFSEntry::File(_) => {
                        self.unlink_name(dir, file_name);
                        Ok(())
                    },
                    _ => Err(MemFSErr::is_directory()),
                }
            },
        }
    }

    /// Takes the name `dir_name` away from the directory at `dir` if it
    /// stands for an empty directory.
    fn remove_directory(&mut self, dir: usize, dir_name: &str) -> (removed: Result<()>)
        requires
            old(self).wf(),
            old(self)@.is_dir(dir as int),
        ensures
            final(self)@ == old(self)@.remove_directory(dir as int, dir_name@).0,
            result_is(removed, old(self)@.remove_directory(dir as int, dir_name@).1),
    {
        match self.lookup(dir, dir_name) {
            None => Err(MemFSErr::no_such_file_or_directory()),
            Some(target) => {
                assert(self@.has_child(dir as int, dir_name@));
                assert(self@.valid_child(dir as int, dir_name@));
                let empty = match &self.nodes[target] {
                    MemFSEntry::Directory(inner) => inner.is_empty(),
                    _ => {
                        return Err(MemFSErr::is_not_directory());
                    },
                };
                if empty {
                    self.unlink_name(dir, dir_name);
                    Ok(())
                } else {
                    Err(MemFSErr::is_not_empty())
                }
            },
        }
    }

    /// Takes the name `name` away from the directory at `dir`.
    fn unlink_name(&mut self, dir: usize, name: &str)
        requires
            old(self)@.is_dir(dir as int),
        ensures
            final(self)@ == old(self)@.without_child(dir as int, name@),
    {
        match &mut self.nodes[dir] {
            MemFSEntry::Directory(here) => here.remove_entry(name),
            _ => {},
        }
        assert(self@.nodes =~= old(self)@.without_child(dir as int, name@).nodes);
    }

    /// A fresh descriptor on the file at `entry`, with the flags asked for
    /// but `O_CREAT`.
    fn attach_descriptor(&mut self, entry: usize, flag: OpenFlag) -> (fd: usize)
        requires
            old(self).wf(),
            old(self)@.is_file(entry as int),
            old(self)@.next_descriptor < usize::MAX,
            mode_exclusive(flag@),
        ensures
            final(self).wf(),
            fd == old(self)@.next_descriptor,
            final(self)@ == old(self)@.with_descriptor(entry, flag),
    {
        proof {
            lemma_with_descriptor_valid(self@, entry, flag);
        }
        let fd = match self.allocate_file_descriptor() {
            Ok(fd) => fd,
            Err(_) => 0,
        };
        let descriptor = MemFSFileDescriptor::new(fd, flag & OpenFlag::O_CREAT().not(), entry);
        descriptor_table_insert(&mut self.file_descriptors, fd, descriptor);
        fd
    }

    /// The next descriptor id. Ids go up by one and are never issued twice.
    fn allocate_file_descriptor(&mut self) -> (fd: Result<usize>)
        requires
            old(self)@.next_descriptor < usize::MAX,
        ensures
            fd == Ok::<usize, MemFSErr>(old(self)@.next_descriptor),
            final(self)@ == (FsState {
                next_descriptor: (old(self)@.next_descriptor + 1) as usize,
                ..old(self)@
            }),
    {
        let fd = self.file_descriptor_count;
        self.file_descriptor_count = fd + 1;
        Ok(fd)
    }

    /// A buffer from the pool, or `ENOMEM` if none is left.
    fn allocate_file_memory(&mut self) -> (block: Result<Vec<u8>>)
        requires
            old(self).wf(),
        ensures
            final(self).wf(),
            old(self)@.free_buffers.len() == 0 ==> block is Err && block->Err_0.is_kind(
                MemFSErrType::ENOMEM,
            ) && final(self)@ == old(self)@,
            old(self)@.free_buffers.len() > 0 ==> block is Ok && block->Ok_0@ == old(
                self,
            )@.free_buffers[0] && block->Ok_0@.len() == FILE_MAX_SIZE && final(self)@ == (FsState {
                free_buffers: old(self)@.free_buffers.drop_first(),
                ..old(self)@
            }),
    {
        proof {
            if self@.free_buffers.len() > 0 {
                lemma_taken_buffer_valid(self@);
            }
        }
        match pool_pop(&mut self.file_memory) {
            Some(block) => Ok(block),
            None => Err(MemFSErr::out_of_memory()),
        }
    }

    /// Walks from the directory at `dir` along the components from `from`
    /// on, and gives the place of the entry that the walk ends at.
    fn search_entry_with_path(&self, dir: usize, components: &Vec<String>, from: usize) -> (found:
        Result<usize>)
        requires
            self.wf(),
            self@.is_dir(dir as int),
            from < components@.len(),
        ensures
            result_is(
                found,
                self@.walk(
                    dir as int,
                    names_of(components@).subrange(from as int, components@.len() as int),
                ),
            ),
            found is Ok ==> (found->Ok_0 as int) < self@.nodes.len(),
        decreases components@.len() - from,
    {
        let ghost remaining = names_of(components@).subrange(
            from as int,
            components@.len() as int,
        );
        proof {
            lemma_walk_in_arena(self@, dir as int, remaining);
            assert(remaining[0] == components@[from as int]@);
            assert(remaining.drop_first() =~= names_of(components@).subrange(
                from + 1,
                components@.len() as int,
            ));
        }
        let name = components[from].as_str();
        let count: usize = components.len();
        let last = from + 1 == count;
        match &self.nodes[dir] {
            MemFSEntry::Directory(here) => {
                let looked_up = name_table_get(&here.children, name);
                match looked_up {
                    Some(child) => {
                        assert(self@.has_child(dir as int, name@));
                        assert(self@.valid_child(dir as int, name@));
                        if last {
                            Ok(child)
                        } else {
                            match &self.nodes[child] {
                                MemFSEntry::Directory(_) => self.search_entry_with_path(
                                    child,
                                    components,
                                    from + 1,
                                ),
                                _ => Err(MemFSErr::is_not_directory()),
                            }
                        }
                    },
                    None => {
                        if is_dotdot_name(name) {
                            if dir != ROOT {
                                assert(self@.is_dir(dir as int));
                            }
                            match here.parent {
                                Some(parent) => {
                                    if last {
                                        Ok(parent)
                                    } else {
                                        self.search_entry_with_path(parent, components, from + 1)
                                    }
                                },
                                None => {
                                    if last {
                                        Ok(ROOT_SENTINEL)
                                    } else {
                                        self.search_entry_with_path(dir, components, from + 1)
                                    }
                                },
                            }
                        } else {
                            Err(MemFSErr::no_such_file_or_directory())
                        }
                    },
                }
            },
            _ => Err(MemFSErr::no_such_file_or_directory()),
        }
    }

    /// The place of the entry that `components` lead to from where `path`
    /// begins: the root for an absolute path, else the working directory.
    fn resolve_components(&self, path: &str, components: &Vec<String>) -> (found: Result<usize>)
        requires
            self.wf(),
            path@.len() > 0,
        ensures
            result_is(found, self@.resolve(path@, names_of(components@))),
            found is Ok ==> (found->Ok_0 as int) < self@.nodes.len(),
    {
        let start = if is_absolute_path(path) {
            ROOT
        } else {
            self.cwd_node
        };
        if components.len() == 0 {
            return Ok(start);
        }
        assert(names_of(components@).subrange(0, components@.len() as int) =~= names_of(
            components@,
        ));
        match &self.nodes[start] {
            MemFSEntry::Directory(_) => self.search_entry_with_path(start, components, 0),
            MemFSEntry::File(_) => Err(MemFSErr::no_such_file_or_directory()),
            MemFSEntry::ResolvedAsRoot => Ok(ROOT),
        }
    }

    /// The place of the entry that a path names.
    fn get_node_of_given_path(&self, path: &str) -> (found: Result<usize>)
        requires
            self.wf(),
        ensures
            result_is(found, self@.resolve_node(path@)),
            found is Ok ==> (found->Ok_0 as int) < self@.nodes.len(),
    {
        match path_str_to_iter(path) {
            Err(e) => Err(e),
            Ok(components) => self.resolve_components(path, &components),
        }
    }

    /// The place of the entry that holds what a path names.
    fn get_parent_directory_node_of_given_path(&self, path: &str) -> (found: Result<usize>)
        requires
            self.wf(),
        ensures
            result_is(found, self@.resolve_parent(path@)),
            found is Ok ==> (found->Ok_0 as int) < self@.nodes.len(),
    {
        match path_str_to_iter_and_without_last_component(path) {
            Err(e) => Err(e),
            Ok(components) => self.resolve_components(path, &components),
        }
    }

    /// The directory to open in, given the entry that resolution of the
    /// parent ended at: the entry itself if it is a directory, the root for
    /// the root's stand-in, and `ENOTDIR` for a file.
    fn resolve_dir_and_entry(&self, parent: usize) -> (dir: Result<usize>)
        requires
            self.wf(),
            parent < self@.nodes.len(),
        ensures
            result_is(dir, self@.directory_of(parent)),
            dir is Ok ==> self@.is_dir(dir->Ok_0 as int),
    {
        match &self.nodes[parent] {
            MemFSEntry::Directory(_) => Ok(parent),
            MemFSEntry::ResolvedAsRoot => Ok(ROOT),
            MemFSEntry::File(_) => Err(MemFSErr::is_not_directory()),
        }
    }
}

/// Whether a name is `.`.
fn is_dot_name(name: &str) -> (dot: bool)
    ensures
        dot == is_dot(name@),
{
    name.unicode_len() == 1 && name.get_char(0) == '.'
}

/// Whether a name is `..`.
fn is_dotdot_name(name: &str) -> (dotdot: bool)
    ensures
        dotdot == is_dotdot(name@),
{
    name.unicode_len() == 2 && name.get_char(0) == '.' && name.get_char(1) == '.'
}

} // verus!
