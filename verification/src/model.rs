//! The abstract state of the filesystem and what each operation does to it.

use vstd::prelude::*;
use crate::memfs::MemFSFileDescriptor;
use crate::path::{is_absolute, last_component, parent_components, path_components};
use crate::utils::{
    has_bits, mode_exclusive, MemFSErrType, OpenFlag, SeekFlag, ALL_FLAG_BITS, APPEND_BIT,
    CREAT_BIT, EXCL_BIT,
    FILE_MAX_SIZE, NUMBER_OF_MAXIMUM_FILES, RDONLY_BIT, WRONLY_BIT,
};

verus! {

/// The place of the root directory in the arena.
pub const ROOT: usize = 0;

/// The place of the entry that path resolution hands out when `..` is asked
/// of the root.
pub const ROOT_SENTINEL: usize = 1;

/// What the model says an operation returns.
pub type Outcome<T> = core::result::Result<T, MemFSErrType>;

/// A directory: where its parent is, and its children by name.
pub struct DirState {
    pub parent: Option<usize>,
    pub children: Map<Seq<char>, usize>,
}

/// A file: its logical size and its buffer.
pub struct FileState {
    pub size: usize,
    pub data: Seq<u8>,
}

/// An entry of the arena.
pub enum EntryState {
    Directory(DirState),
    File(FileState),
    ResolvedAsRoot,
}

/// The state of a filesystem.
pub struct FsState {
    /// The arena. Entries are never moved or dropped; a removed entry only
    /// loses its name.
    pub nodes: Seq<EntryState>,
    /// The current working directory.
    pub cwd: usize,
    /// The open descriptors.
    pub descriptors: Map<usize, MemFSFileDescriptor>,
    /// The id that the next descriptor gets.
    pub next_descriptor: usize,
    /// The buffers that no file has taken yet.
    pub free_buffers: Seq<Seq<u8>>,
}

/// Whether a name is `.`.
pub open spec fn is_dot(name: Seq<char>) -> bool {
    name.len() == 1 && name[0] == '.'
}

/// Whether a name is `..`.
pub open spec fn is_dotdot(name: Seq<char>) -> bool {
    name.len() == 2 && name[0] == '.' && name[1] == '.'
}

/// Whether a path is `/`.
pub open spec fn is_slash(path: Seq<char>) -> bool {
    path.len() == 1 && path[0] == '/'
}

impl FsState {
    /// A filesystem with an empty root and a full pool.
    pub open spec fn initial() -> FsState {
        FsState {
            nodes: seq![
                EntryState::Directory(DirState { parent: None, children: Map::empty() }),
                EntryState::ResolvedAsRoot,
            ],
            cwd: ROOT,
            descriptors: Map::empty(),
            next_descriptor: 0,
            free_buffers: Seq::new(
                NUMBER_OF_MAXIMUM_FILES as nat,
                |i: int| Seq::new(FILE_MAX_SIZE as nat, |j: int| 0u8),
            ),
        }
    }

    /// Whether the arena can take one more entry: `open` and `mkdir` ask
    /// for it.
    pub open spec fn arena_has_room(self) -> bool {
        self.nodes.len() < usize::MAX
    }

    /// Whether the arena can take one more entry and the descriptor counter
    /// can go up by one: `open` asks for it.
    pub open spec fn has_room(self) -> bool {
        self.arena_has_room() && self.next_descriptor < usize::MAX
    }

    /// Whether `i` is the place of a directory.
    pub open spec fn is_dir(self, i: int) -> bool {
        0 <= i < self.nodes.len() && self.nodes[i] is Directory
    }

    /// Whether `i` is the place of a file.
    pub open spec fn is_file(self, i: int) -> bool {
        0 <= i < self.nodes.len() && self.nodes[i] is File
    }

    /// The directory at `i`.
    pub open spec fn dir(self, i: int) -> DirState {
        self.nodes[i]->Directory_0
    }

    /// The file at `i`.
    pub open spec fn file(self, i: int) -> FileState {
        self.nodes[i]->File_0
    }

    /// Whether `i` is a directory with a child called `name`.
    pub open spec fn has_child(self, i: int, name: Seq<char>) -> bool {
        self.is_dir(i) && self.dir(i).children.contains_key(name)
    }

    /// The place of the child of `i` called `name`.
    pub open spec fn child(self, i: int, name: Seq<char>) -> int {
        self.dir(i).children[name] as int
    }

    /// What holds of every child: it has a name, it is a directory or a file
    /// other than the root, and a directory knows its parent.
    pub open spec fn valid_child(self, i: int, name: Seq<char>) -> bool {
        let c = self.child(i, name);
        &&& name.len() > 0
        &&& 2 <= c < self.nodes.len()
        &&& self.nodes[c] is Directory ==> self.dir(c).parent == Some(i as usize)
    }

    /// What holds of every open descriptor: it is stored under its own id,
    /// the id has been issued, it refers to a file, its offset is within the
    /// file, and it has one access mode.
    pub open spec fn valid_descriptor(self, fd: usize) -> bool {
        let d = self.descriptors[fd];
        &&& d.number == fd
        &&& fd < self.next_descriptor
        &&& self.is_file(d.entry as int)
        &&& d.file_offset <= self.file(d.entry as int).size
        &&& mode_exclusive(d.flag@)
    }

    /// The invariant of the filesystem: the root stands at `ROOT` and is the
    /// only directory without a parent, its stand-in at `ROOT_SENTINEL` and
    /// nowhere else; every child is valid; no file is larger than
    /// `FILE_MAX_SIZE`, and every buffer, taken or free, has that length; the
    /// working directory is a directory; every open descriptor is valid.
    pub open spec fn valid(self) -> bool {
        &&& self.nodes.len() >= 2
        &&& self.nodes.len() <= usize::MAX
        &&& self.is_dir(ROOT as int)
        &&& self.dir(ROOT as int).parent is None
        &&& self.nodes[ROOT_SENTINEL as int] is ResolvedAsRoot
        &&& forall|i: int|
            2 <= i < self.nodes.len() ==> !(#[trigger] self.nodes[i] is ResolvedAsRoot)
        &&& forall|i: int|
            1 <= i && #[trigger] self.is_dir(i) ==> self.dir(i).parent is Some && self.is_dir(
                self.dir(i).parent->Some_0 as int,
            )
        &&& forall|i: int, name: Seq<char>| #[trigger]
            self.has_child(i, name) ==> self.valid_child(i, name)
        &&& forall|i: int| #[trigger]
            self.is_file(i) ==> self.file(i).size <= FILE_MAX_SIZE && self.file(i).data.len()
                == FILE_MAX_SIZE
        &&& self.is_dir(self.cwd as int)
        &&& forall|fd: usize| #[trigger]
            self.descriptors.contains_key(fd) ==> self.valid_descriptor(fd)
        &&& forall|k: int|
            0 <= k < self.free_buffers.len() ==> (#[trigger] self.free_buffers[k]).len()
                == FILE_MAX_SIZE
    }

    /// Where a walk from the directory `dir` along `components` ends: a
    /// child is looked up by name first; only a name that is no child is
    /// read as `..`. Asked of the root as the last step, `..` gives
    /// `ROOT_SENTINEL`; before the last step it stays at the root. A
    /// directory that has lost its name keeps its place in the arena, so
    /// `..` still leads to it from its children.
    pub open spec fn walk(self, dir: int, components: Seq<Seq<char>>) -> Outcome<usize>
        decreases components.len(),
    {
        if components.len() == 0 || !self.is_dir(dir) {
            Err(MemFSErrType::ENOENT)
        } else {
            let name = components[0];
            let rest = components.drop_first();
            let here = self.dir(dir);
            if rest.len() > 0 {
                if here.children.contains_key(name) {
                    let child = here.children[name] as int;
                    if self.is_dir(child) {
                        self.walk(child, rest)
                    } else {
                        Err(MemFSErrType::ENOTDIR)
                    }
                } else if is_dotdot(name) {
                    match here.parent {
                        Some(parent) => self.walk(parent as int, rest),
                        None => self.walk(dir, rest),
                    }
                } else {
                    Err(MemFSErrType::ENOENT)
                }
            } else {
                if here.children.contains_key(name) {
                    Ok(here.children[name])
                } else if is_dotdot(name) {
                    match here.parent {
                        Some(parent) => Ok(parent),
                        None => Ok(ROOT_SENTINEL),
                    }
                } else {
                    Err(MemFSErrType::ENOENT)
                }
            }
        }
    }

    /// Where resolution of `path` begins.
    pub open spec fn start(self, path: Seq<char>) -> usize {
        if is_absolute(path) {
            ROOT
        } else {
            self.cwd
        }
    }

    /// The entry that `components` lead to from where `path` begins.
    pub open spec fn resolve(self, path: Seq<char>, components: Seq<Seq<char>>) -> Outcome<usize> {
        if path.len() == 0 {
            Err(MemFSErrType::ENOENT)
        } else if components.len() == 0 {
            Ok(self.start(path))
        } else {
            self.walk(self.start(path) as int, components)
        }
    }

    /// The entry that a path names.
    pub open spec fn resolve_node(self, path: Seq<char>) -> Outcome<usize> {
        self.resolve(path, path_components(path))
    }

    /// The entry that holds what a path names.
    pub open spec fn resolve_parent(self, path: Seq<char>) -> Outcome<usize> {
        self.resolve(path, parent_components(path))
    }

    /// The directory that a resolved entry stands for when something is to be
    /// opened in it.
    pub open spec fn directory_of(self, entry: usize) -> Outcome<usize> {
        match self.nodes[entry as int] {
            EntryState::Directory(_) => Ok(entry),
            EntryState::ResolvedAsRoot => Ok(ROOT),
            EntryState::File(_) => Err(MemFSErrType::ENOTDIR),
        }
    }

    /// The state with one more entry at the end of the arena.
    pub open spec fn with_entry(self, entry: EntryState) -> FsState {
        FsState { nodes: self.nodes.push(entry), ..self }
    }

    /// The state in which `name` in the directory `dir` stands for `entry`.
    pub open spec fn with_child(self, dir: int, name: Seq<char>, entry: usize) -> FsState {
        let here = self.dir(dir);
        FsState {
            nodes: self.nodes.update(
                dir,
                EntryState::Directory(
                    DirState { children: here.children.insert(name, entry), ..here },
                ),
            ),
            ..self
        }
    }

    /// The state in which `name` in the directory `dir` stands for nothing.
    pub open spec fn without_child(self, dir: int, name: Seq<char>) -> FsState {
        let here = self.dir(dir);
        FsState {
            nodes: self.nodes.update(
                dir,
                EntryState::Directory(DirState { children: here.children.remove(name), ..here }),
            ),
            ..self
        }
    }

    /// The state with a fresh descriptor on the file `entry`: it has the
    /// flags asked for but `O_CREAT`, and starts at offset 0.
    pub open spec fn with_descriptor(self, entry: usize, flag: OpenFlag) -> FsState {
        let fd = self.next_descriptor;
        FsState {
            descriptors: self.descriptors.insert(
                fd,
                MemFSFileDescriptor {
                    number: fd,
                    flag: OpenFlag { bits: flag@ & (!CREAT_BIT & ALL_FLAG_BITS) },
                    file_offset: 0,
                    entry,
                },
            ),
            next_descriptor: (fd + 1) as usize,
            ..self
        }
    }

    /// The state and the result of `open`. The flags are checked first, then
    /// the parent is resolved, then the name is looked up in it. A name that
    /// is taken is opened if it is a file, unless `O_CREAT | O_EXCL` forbids
    /// it. A name that is vacant is made a file with `O_CREAT`, if the pool
    /// has a buffer left. A path of slashes alone has no name: nothing is
    /// there to open, and nothing can be made.
    pub open spec fn open(self, path: Seq<char>, flag: OpenFlag) -> (FsState, Outcome<usize>) {
        if !mode_exclusive(flag@) {
            (self, Err(MemFSErrType::EINVAL))
        } else {
            match self.resolve_parent(path) {
                Err(e) => (self, Err(e)),
                Ok(parent) => match self.directory_of(parent) {
                    Err(e) => (self, Err(e)),
                    Ok(dir) => {
                        let name = last_component(path);
                        if self.dir(dir as int).children.contains_key(name) {
                            let target = self.dir(dir as int).children[name];
                            if has_bits(flag@, CREAT_BIT | EXCL_BIT) {
                                (self, Err(MemFSErrType::EEXIST))
                            } else if self.is_file(target as int) {
                                (self.with_descriptor(target, flag), Ok(self.next_descriptor))
                            } else {
                                (self, Err(MemFSErrType::EISDIR))
                            }
                        } else if !has_bits(flag@, CREAT_BIT) || name.len() == 0 {
                            (self, Err(MemFSErrType::ENOENT))
                        } else if self.free_buffers.len() == 0 {
                            (self, Err(MemFSErrType::ENOMEM))
                        } else {
                            let created = self.nodes.len() as usize;
                            let file = EntryState::File(
                                FileState { size: 0, data: self.free_buffers[0] },
                            );
                            let taken = FsState {
                                free_buffers: self.free_buffers.drop_first(),
                                ..self
                            };
                            (
                                taken.with_entry(file).with_child(
                                    dir as int,
                                    name,
                                    created,
                                ).with_descriptor(created, flag),
                                Ok(self.next_descriptor),
                            )
                        }
                    },
                },
            }
        }
    }

    /// The state and the result of `close`.
    pub open spec fn close(self, fd: usize) -> (FsState, Outcome<()>) {
        if self.descriptors.contains_key(fd) {
            (FsState { descriptors: self.descriptors.remove(fd), ..self }, Ok(()))
        } else {
            (self, Err(MemFSErrType::EBADF))
        }
    }

    /// What removing the file `name` from the directory `dir` gives.
    pub open spec fn remove_file(self, dir: int, name: Seq<char>) -> (FsState, Outcome<()>) {
        if !self.has_child(dir, name) {
            (self, Err(MemFSErrType::ENOENT))
        } else if self.is_file(self.child(dir, name)) {
            (self.without_child(dir, name), Ok(()))
        } else {
            (self, Err(MemFSErrType::EISDIR))
        }
    }

    /// The state and the result of `unlink`. Through the root's stand-in the
    /// name is looked up in the root.
    pub open spec fn unlink(self, path: Seq<char>) -> (FsState, Outcome<()>) {
        match self.resolve_parent(path) {
            Err(e) => (self, Err(e)),
            Ok(parent) => match self.nodes[parent as int] {
                EntryState::Directory(_) => self.remove_file(parent as int, last_component(path)),
                EntryState::File(_) => (self, Err(MemFSErrType::ENOENT)),
                EntryState::ResolvedAsRoot => self.remove_file(
                    ROOT as int,
                    last_component(path),
                ),
            },
        }
    }

    /// What making the directory `name` in the directory `dir` gives.
    pub open spec fn create_directory(self, dir: int, name: Seq<char>) -> (FsState, Outcome<()>) {
        if self.has_child(dir, name) {
            (self, Err(MemFSErrType::EEXIST))
        } else {
            let created = self.nodes.len() as usize;
            let made = EntryState::Directory(
                DirState { parent: Some(dir as usize), children: Map::empty() },
            );
            (self.with_entry(made).with_child(dir, name, created), Ok(()))
        }
    }

    /// The state and the result of `mkdir`. A path of slashes alone names the
    /// root, which exists; `.` and `..` exist wherever the parent does.
    pub open spec fn mkdir(self, path: Seq<char>) -> (FsState, Outcome<()>) {
        let name = last_component(path);
        if path.len() > 0 && name.len() == 0 {
            (self, Err(MemFSErrType::EEXIST))
        } else {
            match self.resolve_parent(path) {
                Err(e) => (self, Err(e)),
                Ok(parent) => if is_dot(name) || is_dotdot(name) {
                    (self, Err(MemFSErrType::EEXIST))
                } else {
                    match self.nodes[parent as int] {
                        EntryState::Directory(_) => self.create_directory(parent as int, name),
                        EntryState::File(_) => (self, Err(MemFSErrType::ENOENT)),
                        EntryState::ResolvedAsRoot => (self, Err(MemFSErrType::EEXIST)),
                    }
                },
            }
        }
    }

    /// What removing the directory `name` from the directory `dir` gives.
    pub open spec fn remove_directory(self, dir: int, name: Seq<char>) -> (FsState, Outcome<()>) {
        if !self.has_child(dir, name) {
            (self, Err(MemFSErrType::ENOENT))
        } else if !self.is_dir(self.child(dir, name)) {
            (self, Err(MemFSErrType::ENOTDIR))
        } else if self.dir(self.child(dir, name)).children != Map::<Seq<char>, usize>::empty() {
            (self, Err(MemFSErrType::ENOTEMPTY))
        } else {
            (self.without_child(dir, name), Ok(()))
        }
    }

    /// The state and the result of `rmdir`. The root is busy, be it named by
    /// `/` or reached as its own parent.
    pub open spec fn rmdir(self, path: Seq<char>) -> (FsState, Outcome<()>) {
        let name = last_component(path);
        if is_slash(path) {
            (self, Err(MemFSErrType::EBUSY))
        } else {
            match self.resolve_parent(path) {
                Err(e) => (self, Err(e)),
                Ok(parent) => if is_dot(name) {
                    (self, Err(MemFSErrType::EINVAL))
                } else if is_dotdot(name) {
                    (self, Err(MemFSErrType::ENOTEMPTY))
                } else {
                    match self.nodes[parent as int] {
                        EntryState::Directory(_) => self.remove_directory(parent as int, name),
                        EntryState::File(_) => (self, Err(MemFSErrType::ENOENT)),
                        EntryState::ResolvedAsRoot => (self, Err(MemFSErrType::EBUSY)),
                    }
                },
            }
        }
    }

    /// The state and the result of `chdir`: nothing but the working directory
    /// changes.
    pub open spec fn chdir(self, path: Seq<char>) -> (FsState, Outcome<()>) {
        match self.resolve_node(path) {
            Err(e) => (self, Err(e)),
            Ok(target) => match self.nodes[target as int] {
                EntryState::Directory(_) => (FsState { cwd: target, ..self }, Ok(())),
                EntryState::ResolvedAsRoot => (FsState { cwd: ROOT, ..self }, Ok(())),
                EntryState::File(_) => (self, Err(MemFSErrType::ENOTDIR)),
            },
        }
    }

    /// The state in which the descriptor `fd` stands at `offset`.
    pub open spec fn with_offset(self, fd: usize, offset: usize) -> FsState {
        FsState {
            descriptors: self.descriptors.insert(
                fd,
                MemFSFileDescriptor { file_offset: offset, ..self.descriptors[fd] },
            ),
            ..self
        }
    }

    /// The state, the caller's buffer and the result of `read`: the bytes
    /// read stand at the start of the buffer, the rest of it is as it was,
    /// and the offset has moved past what was read.
    pub open spec fn read(self, fd: usize, buffer: Seq<u8>, size: usize) -> (
        FsState,
        Seq<u8>,
        Outcome<usize>,
    ) {
        if !self.descriptors.contains_key(fd) {
            (self, buffer, Err(MemFSErrType::EBADF))
        } else {
            let d = self.descriptors[fd];
            if has_bits(d.flag@, WRONLY_BIT) {
                (self, buffer, Err(MemFSErrType::EBADF))
            } else if !self.is_file(d.entry as int) {
                (self, buffer, Err(MemFSErrType::ENOENT))
            } else {
                let file = self.file(d.entry as int);
                let count = readable(d.file_offset, file.size, size);
                if buffer.len() < count {
                    (self, buffer, Err(MemFSErrType::EFAULT))
                } else {
                    (
                        self.with_offset(fd, (d.file_offset + count) as usize),
                        file.data.subrange(d.file_offset as int, d.file_offset + count)
                            + buffer.subrange(count as int, buffer.len() as int),
                        Ok(count),
                    )
                }
            }
        }
    }

    /// The state and the result of `write`: the bytes stand in the file from
    /// where the write began, the file has grown if the write went past its
    /// end, and the offset stands behind what was written.
    pub open spec fn write(self, fd: usize, buffer: Seq<u8>, size: usize) -> (
        FsState,
        Outcome<usize>,
    ) {
        if !self.descriptors.contains_key(fd) {
            (self, Err(MemFSErrType::EBADF))
        } else {
            let d = self.descriptors[fd];
            if has_bits(d.flag@, RDONLY_BIT) {
                (self, Err(MemFSErrType::EBADF))
            } else if !self.is_file(d.entry as int) {
                (self, Err(MemFSErrType::ENOENT))
            } else {
                let file = self.file(d.entry as int);
                let count = write_count(size, buffer);
                let at = write_position(d, file);
                if at + count > FILE_MAX_SIZE {
                    (self, Err(MemFSErrType::EFBIG))
                } else {
                    let written = FileState {
                        size: if file.size >= at + count {
                            file.size
                        } else {
                            (at + count) as usize
                        },
                        data: file.data.subrange(0, at as int) + buffer.subrange(0, count as int)
                            + file.data.subrange(at + count, file.data.len() as int),
                    };
                    (
                        FsState {
                            nodes: self.nodes.update(d.entry as int, EntryState::File(written)),
                            ..self
                        }.with_offset(fd, (at + count) as usize),
                        Ok(count),
                    )
                }
            }
        }
    }

    /// The state and the result of `lseek`: a descriptor whose entry is not a
    /// file gives `EISDIR`.
    pub open spec fn lseek(self, fd: usize, offset: usize, whence: SeekFlag) -> (
        FsState,
        Outcome<usize>,
    ) {
        if !self.descriptors.contains_key(fd) {
            (self, Err(MemFSErrType::EBADF))
        } else {
            let d = self.descriptors[fd];
            if !self.is_file(d.entry as int) {
                (self, Err(MemFSErrType::EISDIR))
            } else {
                let target = seek_target(d.file_offset, self.file(d.entry as int).size, offset, whence);
                (self.with_offset(fd, target), Ok(target))
            }
        }
    }
}

/// How many bytes a read of `size` bytes gets from a file of `file_size`
/// bytes at `offset`.
pub open spec fn readable(offset: usize, file_size: usize, size: usize) -> usize {
    if offset >= file_size {
        0
    } else if size <= file_size - offset {
        size
    } else {
        (file_size - offset) as usize
    }
}

/// How many bytes a write of `size` bytes takes from `buffer`.
pub open spec fn write_count(size: usize, buffer: Seq<u8>) -> usize {
    if size <= buffer.len() {
        size
    } else {
        buffer.len() as usize
    }
}

/// Where a write through a descriptor lands: at the end of the file if the
/// descriptor appends, else at the descriptor's offset.
pub open spec fn write_position(descriptor: MemFSFileDescriptor, file: FileState) -> usize {
    if has_bits(descriptor.flag@, APPEND_BIT) {
        file.size
    } else {
        descriptor.file_offset
    }
}

/// The offset that `lseek` moves to: `offset` past the origin, but never
/// past the end of the file.
pub open spec fn seek_target(current: usize, file_size: usize, offset: usize, whence: SeekFlag) -> usize {
    let base = match whence {
        SeekFlag::SEEK_SET => 0,
        SeekFlag::SEEK_CUR => current,
        SeekFlag::SEEK_END => file_size,
    };
    if base + offset >= file_size {
        file_size
    } else {
        (base + offset) as usize
    }
}

} // verus!
