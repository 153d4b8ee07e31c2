//! Every operation keeps the filesystem valid.

use vstd::prelude::*;
use crate::model::{
    is_dot, is_dotdot, readable, seek_target, write_count, write_position, DirState, EntryState, FileState,
    FsState, ROOT,
};
use crate::path::{last_component, parent_components, path_components};
use crate::utils::{
    has_bits, mode_exclusive, OpenFlag, SeekFlag, ALL_FLAG_BITS, CREAT_BIT, FILE_MAX_SIZE,
    RDONLY_BIT, WRONLY_BIT,
};

verus! {

/// A successful walk ends inside the arena.
pub proof fn lemma_walk_in_arena(s: FsState, dir: int, components: Seq<Seq<char>>)
    requires
        s.valid(),
    ensures
        s.walk(dir, components) is Ok ==> (s.walk(dir, components)->Ok_0 as int) < s.nodes.len(),
    decreases components.len(),
{
    if components.len() > 0 && s.is_dir(dir) {
        let name = components[0];
        let rest = components.drop_first();
        let here = s.dir(dir);
        if here.children.contains_key(name) {
            assert(s.has_child(dir, name));
            assert(s.valid_child(dir, name));
            if rest.len() > 0 {
                lemma_walk_in_arena(s, here.children[name] as int, rest);
            }
        } else if is_dotdot(name) {
            if dir != 0 {
                assert(s.is_dir(dir));
            }
            if rest.len() > 0 {
                match here.parent {
                    Some(parent) => lemma_walk_in_arena(s, parent as int, rest),
                    None => lemma_walk_in_arena(s, dir, rest),
                }
            }
        }
    }
}

/// A successful resolution ends inside the arena.
pub proof fn lemma_resolve_in_arena(s: FsState, path: Seq<char>, components: Seq<Seq<char>>)
    requires
        s.valid(),
    ensures
        s.resolve(path, components) is Ok ==> (s.resolve(path, components)->Ok_0 as int)
            < s.nodes.len(),
{
    lemma_walk_in_arena(s, s.start(path) as int, components);
}

/// Dropping `O_CREAT` from a flag set leaves its access mode as it was.
pub proof fn lemma_mode_without_creat(bits: u32)
    ensures
        mode_exclusive(bits & (!CREAT_BIT & ALL_FLAG_BITS)) == mode_exclusive(bits),
{
    assert((bits & (!8u32 & 63u32)) & 7u32 == bits & 7u32) by (bit_vector);
}

/// A new entry under a vacant name keeps the state valid.
pub proof fn lemma_linked_entry_valid(s: FsState, dir: int, name: Seq<char>, entry: EntryState)
    requires
        s.valid(),
        s.is_dir(dir),
        name.len() > 0,
        !s.has_child(dir, name),
        s.nodes.len() < usize::MAX,
        entry is File ==> entry->File_0.size <= FILE_MAX_SIZE && entry->File_0.data.len()
            == FILE_MAX_SIZE,
        entry is Directory ==> entry->Directory_0 == (DirState {
            parent: Some(dir as usize),
            children: Map::empty(),
        }),
        !(entry is ResolvedAsRoot),
    ensures
        s.with_entry(entry).with_child(dir, name, s.nodes.len() as usize).valid(),
{
    let n = s.nodes.len() as int;
    let t = s.with_entry(entry).with_child(dir, name, n as usize);
    assert(t.nodes.len() == n + 1);
    assert forall|i: int| 0 <= i < n && i != dir implies t.nodes[i] == s.nodes[i] by {}
    assert(t.nodes[n] == entry);
    assert(t.dir(dir).parent == s.dir(dir).parent);
    assert forall|i: int| 2 <= i < t.nodes.len() implies !(#[trigger] t.nodes[i]
        is ResolvedAsRoot) by {
        if i < n {
            assert(!(s.nodes[i] is ResolvedAsRoot));
        }
    }
    assert forall|i: int| 1 <= i && #[trigger] t.is_dir(i) implies t.dir(i).parent is Some
        && t.is_dir(t.dir(i).parent->Some_0 as int) by {
        if i < n {
            assert(s.is_dir(i));
            assert(s.is_dir(s.dir(i).parent->Some_0 as int));
        }
    }
    assert forall|i: int, nm: Seq<char>| #[trigger] t.has_child(i, nm) implies t.valid_child(
        i,
        nm,
    ) by {
        if i == dir && nm == name {
        } else if i == n {
        } else {
            assert(s.has_child(i, nm));
            assert(s.valid_child(i, nm));
            let c = s.child(i, nm);
            if c == dir {
            }
        }
    }
    assert forall|i: int| #[trigger] t.is_file(i) implies t.file(i).size <= FILE_MAX_SIZE
        && t.file(i).data.len() == FILE_MAX_SIZE by {
        if i < n {
            assert(s.is_file(i));
        }
    }
    assert forall|fd: usize| #[trigger] t.descriptors.contains_key(fd) implies t.valid_descriptor(
        fd,
    ) by {
        assert(s.valid_descriptor(fd));
        assert(s.is_file(s.descriptors[fd].entry as int));
    }
}

/// Taking the first free buffer keeps the state valid.
pub proof fn lemma_taken_buffer_valid(s: FsState)
    requires
        s.valid(),
        s.free_buffers.len() > 0,
    ensures
        (FsState { free_buffers: s.free_buffers.drop_first(), ..s }).valid(),
        s.free_buffers[0].len() == FILE_MAX_SIZE,
{
    let t = FsState { free_buffers: s.free_buffers.drop_first(), ..s };
    assert forall|k: int| 0 <= k < t.free_buffers.len() implies (#[trigger] t.free_buffers[k]).len()
        == FILE_MAX_SIZE by {
        assert(s.free_buffers[k + 1].len() == FILE_MAX_SIZE);
    }
    assert forall|i: int, nm: Seq<char>| #[trigger] t.has_child(i, nm) implies t.valid_child(
        i,
        nm,
    ) by {
        assert(s.has_child(i, nm));
        assert(s.valid_child(i, nm));
    }
    assert forall|i: int| 1 <= i && #[trigger] t.is_dir(i) implies t.dir(i).parent is Some
        && t.is_dir(t.dir(i).parent->Some_0 as int) by {
        assert(s.is_dir(i));
    }
    assert forall|i: int| #[trigger] t.is_file(i) implies t.file(i).size <= FILE_MAX_SIZE
        && t.file(i).data.len() == FILE_MAX_SIZE by {
        assert(s.is_file(i));
    }
    assert forall|fd: usize| #[trigger] t.descriptors.contains_key(fd) implies t.valid_descriptor(
        fd,
    ) by {
        assert(s.valid_descriptor(fd));
    }
}

/// Taking a name away keeps the state valid.
pub proof fn lemma_without_child_valid(s: FsState, dir: int, name: Seq<char>)
    requires
        s.valid(),
        s.is_dir(dir),
    ensures
        s.without_child(dir, name).valid(),
{
    let t = s.without_child(dir, name);
    assert forall|i: int| 0 <= i < s.nodes.len() && i != dir implies t.nodes[i] == s.nodes[i] by {}
    assert(t.dir(dir).parent == s.dir(dir).parent);
    assert forall|i: int| 2 <= i < t.nodes.len() implies !(#[trigger] t.nodes[i]
        is ResolvedAsRoot) by {
        assert(!(s.nodes[i] is ResolvedAsRoot));
    }
    assert forall|i: int| 1 <= i && #[trigger] t.is_dir(i) implies t.dir(i).parent is Some
        && t.is_dir(t.dir(i).parent->Some_0 as int) by {
        assert(s.is_dir(i));
        assert(s.is_dir(s.dir(i).parent->Some_0 as int));
    }
    assert forall|i: int, nm: Seq<char>| #[trigger] t.has_child(i, nm) implies t.valid_child(
        i,
        nm,
    ) by {
        assert(s.has_child(i, nm));
        assert(s.valid_child(i, nm));
    }
    assert forall|i: int| #[trigger] t.is_file(i) implies t.file(i).size <= FILE_MAX_SIZE
        && t.file(i).data.len() == FILE_MAX_SIZE by {
        assert(s.is_file(i));
    }
    assert forall|fd: usize| #[trigger] t.descriptors.contains_key(fd) implies t.valid_descriptor(
        fd,
    ) by {
        assert(s.valid_descriptor(fd));
        assert(s.is_file(s.descriptors[fd].entry as int));
    }
}

/// A fresh descriptor on a file keeps the state valid.
pub proof fn lemma_with_descriptor_valid(s: FsState, entry: usize, flag: OpenFlag)
    requires
        s.valid(),
        s.is_file(entry as int),
        s.next_descriptor < usize::MAX,
        mode_exclusive(flag@),
    ensures
        s.with_descriptor(entry, flag).valid(),
{
    let t = s.with_descriptor(entry, flag);
    lemma_mode_without_creat(flag@);
    assert forall|i: int, nm: Seq<char>| #[trigger] t.has_child(i, nm) implies t.valid_child(
        i,
        nm,
    ) by {
        assert(s.has_child(i, nm));
        assert(s.valid_child(i, nm));
    }
    assert forall|i: int| 1 <= i && #[trigger] t.is_dir(i) implies t.dir(i).parent is Some
        && t.is_dir(t.dir(i).parent->Some_0 as int) by {
        assert(s.is_dir(i));
    }
    assert forall|i: int| #[trigger] t.is_file(i) implies t.file(i).size <= FILE_MAX_SIZE
        && t.file(i).data.len() == FILE_MAX_SIZE by {
        assert(s.is_file(i));
    }
    assert forall|fd: usize| #[trigger] t.descriptors.contains_key(fd) implies t.valid_descriptor(
        fd,
    ) by {
        if fd != s.next_descriptor {
            assert(s.descriptors.contains_key(fd));
            assert(s.valid_descriptor(fd));
        }
    }
}

/// Moving a descriptor to an offset within its file keeps the state valid.
pub proof fn lemma_with_offset_valid(s: FsState, fd: usize, offset: usize)
    requires
        s.valid(),
        s.descriptors.contains_key(fd),
        offset <= s.file(s.descriptors[fd].entry as int).size,
    ensures
        s.with_offset(fd, offset).valid(),
{
    let t = s.with_offset(fd, offset);
    assert(s.valid_descriptor(fd));
    assert forall|i: int, nm: Seq<char>| #[trigger] t.has_child(i, nm) implies t.valid_child(
        i,
        nm,
    ) by {
        assert(s.has_child(i, nm));
        assert(s.valid_child(i, nm));
    }
    assert forall|i: int| 1 <= i && #[trigger] t.is_dir(i) implies t.dir(i).parent is Some
        && t.is_dir(t.dir(i).parent->Some_0 as int) by {
        assert(s.is_dir(i));
    }
    assert forall|i: int| #[trigger] t.is_file(i) implies t.file(i).size <= FILE_MAX_SIZE
        && t.file(i).data.len() == FILE_MAX_SIZE by {
        assert(s.is_file(i));
    }
    assert forall|other: usize| #[trigger]
        t.descriptors.contains_key(other) implies t.valid_descriptor(other) by {
        if other != fd {
            assert(s.descriptors.contains_key(other));
            assert(s.valid_descriptor(other));
        }
    }
}

/// `open` keeps the state valid.
pub proof fn lemma_open_valid(s: FsState, path: Seq<char>, flag: OpenFlag)
    requires
        s.valid(),
        s.next_descriptor < usize::MAX,
        s.nodes.len() < usize::MAX,
    ensures
        s.open(path, flag).0.valid(),
{
    if mode_exclusive(flag@) && s.resolve_parent(path) is Ok {
        let parent = s.resolve_parent(path)->Ok_0;
        lemma_resolve_in_arena(s, path, parent_components(path));
        if s.directory_of(parent) is Ok {
            let dir = s.directory_of(parent)->Ok_0 as int;
            let name = last_component(path);
            if s.dir(dir).children.contains_key(name) {
                let target = s.dir(dir).children[name];
                if !has_bits(flag@, CREAT_BIT | crate::utils::EXCL_BIT) && s.is_file(
                    target as int,
                ) {
                    lemma_with_descriptor_valid(s, target, flag);
                }
            } else if has_bits(flag@, CREAT_BIT) && name.len() > 0 && s.free_buffers.len() > 0 {
                let created = s.nodes.len() as usize;
                let file = EntryState::File(FileState { size: 0, data: s.free_buffers[0] });
                let taken = FsState { free_buffers: s.free_buffers.drop_first(), ..s };
                lemma_taken_buffer_valid(s);
                assert(taken.is_dir(dir));
                assert(!taken.has_child(dir, name));
                lemma_linked_entry_valid(taken, dir, name, file);
                let linked = taken.with_entry(file).with_child(dir, name, created);
                assert(linked.is_file(created as int));
                lemma_with_descriptor_valid(linked, created, flag);
            }
        }
    }
}

/// `close` keeps the state valid.
pub proof fn lemma_close_valid(s: FsState, fd: usize)
    requires
        s.valid(),
    ensures
        s.close(fd).0.valid(),
{
    let t = s.close(fd).0;
    assert forall|i: int, nm: Seq<char>| #[trigger] t.has_child(i, nm) implies t.valid_child(
        i,
        nm,
    ) by {
        assert(s.has_child(i, nm));
        assert(s.valid_child(i, nm));
    }
    assert forall|i: int| 1 <= i && #[trigger] t.is_dir(i) implies t.dir(i).parent is Some
        && t.is_dir(t.dir(i).parent->Some_0 as int) by {
        assert(s.is_dir(i));
    }
    assert forall|i: int| #[trigger] t.is_file(i) implies t.file(i).size <= FILE_MAX_SIZE
        && t.file(i).data.len() == FILE_MAX_SIZE by {
        assert(s.is_file(i));
    }
    assert forall|other: usize| #[trigger]
        t.descriptors.contains_key(other) implies t.valid_descriptor(other) by {
        assert(s.descriptors.contains_key(other));
        assert(s.valid_descriptor(other));
    }
}

/// `unlink` keeps the state valid.
pub proof fn lemma_unlink_valid(s: FsState, path: Seq<char>)
    requires
        s.valid(),
    ensures
        s.unlink(path).0.valid(),
{
    if s.resolve_parent(path) is Ok {
        let parent = s.resolve_parent(path)->Ok_0 as int;
        lemma_resolve_in_arena(s, path, parent_components(path));
        let name = last_component(path);
        if s.is_dir(parent) {
            lemma_without_child_valid(s, parent, name);
        } else if s.nodes[parent] is ResolvedAsRoot {
            lemma_without_child_valid(s, ROOT as int, name);
        }
    }
}

/// `mkdir` keeps the state valid.
pub proof fn lemma_mkdir_valid(s: FsState, path: Seq<char>)
    requires
        s.valid(),
        s.nodes.len() < usize::MAX,
    ensures
        s.mkdir(path).0.valid(),
{
    let name = last_component(path);
    if !(path.len() > 0 && name.len() == 0) && s.resolve_parent(path) is Ok {
        let parent = s.resolve_parent(path)->Ok_0 as int;
        lemma_resolve_in_arena(s, path, parent_components(path));
        if !is_dot(name) && !is_dotdot(name) && s.is_dir(parent) && !s.has_child(parent, name) {
            let made = EntryState::Directory(
                DirState { parent: Some(parent as usize), children: Map::empty() },
            );
            lemma_linked_entry_valid(s, parent, name, made);
        }
    }
}

/// `rmdir` keeps the state valid.
pub proof fn lemma_rmdir_valid(s: FsState, path: Seq<char>)
    requires
        s.valid(),
    ensures
        s.rmdir(path).0.valid(),
{
    if s.resolve_parent(path) is Ok {
        let parent = s.resolve_parent(path)->Ok_0 as int;
        lemma_resolve_in_arena(s, path, parent_components(path));
        if s.is_dir(parent) {
            lemma_without_child_valid(s, parent, last_component(path));
        }
    }
}

/// `chdir` keeps the state valid.
pub proof fn lemma_chdir_valid(s: FsState, path: Seq<char>)
    requires
        s.valid(),
    ensures
        s.chdir(path).0.valid(),
{
    let t = s.chdir(path).0;
    lemma_resolve_in_arena(s, path, path_components(path));
    assert forall|i: int, nm: Seq<char>| #[trigger] t.has_child(i, nm) implies t.valid_child(
        i,
        nm,
    ) by {
        assert(s.has_child(i, nm));
        assert(s.valid_child(i, nm));
    }
    assert forall|i: int| 1 <= i && #[trigger] t.is_dir(i) implies t.dir(i).parent is Some
        && t.is_dir(t.dir(i).parent->Some_0 as int) by {
        assert(s.is_dir(i));
    }
    assert forall|i: int| #[trigger] t.is_file(i) implies t.file(i).size <= FILE_MAX_SIZE
        && t.file(i).data.len() == FILE_MAX_SIZE by {
        assert(s.is_file(i));
    }
    assert forall|fd: usize| #[trigger] t.descriptors.contains_key(fd) implies t.valid_descriptor(
        fd,
    ) by {
        assert(s.valid_descriptor(fd));
    }
}

/// `read` keeps the state valid.
pub proof fn lemma_read_valid(s: FsState, fd: usize, buffer: Seq<u8>, size: usize)
    requires
        s.valid(),
    ensures
        s.read(fd, buffer, size).0.valid(),
{
    if s.descriptors.contains_key(fd) {
        let d = s.descriptors[fd];
        assert(s.valid_descriptor(fd));
        let count = readable(d.file_offset, s.file(d.entry as int).size, size);
        if !has_bits(d.flag@, WRONLY_BIT) && buffer.len() >= count {
            lemma_with_offset_valid(s, fd, (d.file_offset + count) as usize);
        }
    }
}

/// `lseek` keeps the state valid.
pub proof fn lemma_lseek_valid(s: FsState, fd: usize, offset: usize, whence: SeekFlag)
    requires
        s.valid(),
    ensures
        s.lseek(fd, offset, whence).0.valid(),
{
    if s.descriptors.contains_key(fd) {
        let d = s.descriptors[fd];
        assert(s.valid_descriptor(fd));
        lemma_with_offset_valid(
            s,
            fd,
            seek_target(d.file_offset, s.file(d.entry as int).size, offset, whence),
        );
    }
}

/// `write` keeps the state valid.
pub proof fn lemma_write_valid(s: FsState, fd: usize, buffer: Seq<u8>, size: usize)
    requires
        s.valid(),
    ensures
        s.write(fd, buffer, size).0.valid(),
{
    if s.descriptors.contains_key(fd) {
        let d = s.descriptors[fd];
        assert(s.valid_descriptor(fd));
        let file = s.file(d.entry as int);
        assert(s.is_file(d.entry as int));
        let count = write_count(size, buffer);
        let at = write_position(d, file);
        if !has_bits(d.flag@, RDONLY_BIT) && at + count <= FILE_MAX_SIZE {
            let written = FileState {
                size: if file.size >= at + count {
                    file.size
                } else {
                    (at + count) as usize
                },
                data: file.data.subrange(0, at as int) + buffer.subrange(0, count as int)
                    + file.data.subrange(at + count, file.data.len() as int),
            };
            let u = FsState { nodes: s.nodes.update(d.entry as int, EntryState::File(written)), ..s };
            assert forall|i: int| 0 <= i < s.nodes.len() && i != d.entry implies u.nodes[i]
                == s.nodes[i] by {}
            assert forall|i: int| 2 <= i < u.nodes.len() implies !(#[trigger] u.nodes[i]
                is ResolvedAsRoot) by {
                assert(!(s.nodes[i] is ResolvedAsRoot));
            }
            assert forall|i: int| 1 <= i && #[trigger] u.is_dir(i) implies u.dir(i).parent is Some
                && u.is_dir(u.dir(i).parent->Some_0 as int) by {
                assert(s.is_dir(i));
                assert(s.is_dir(s.dir(i).parent->Some_0 as int));
            }
            assert forall|i: int, nm: Seq<char>| #[trigger] u.has_child(i, nm) implies u.valid_child(
                i,
                nm,
            ) by {
                assert(s.has_child(i, nm));
                assert(s.valid_child(i, nm));
            }
            assert forall|i: int| #[trigger] u.is_file(i) implies u.file(i).size <= FILE_MAX_SIZE
                && u.file(i).data.len() == FILE_MAX_SIZE by {
                assert(s.is_file(i));
            }
            assert forall|other: usize| #[trigger]
                u.descriptors.contains_key(other) implies u.valid_descriptor(other) by {
                assert(s.valid_descriptor(other));
                assert(s.is_file(s.descriptors[other].entry as int));
            }
            assert(u.valid());
            lemma_with_offset_valid(u, fd, (at + count) as usize);
        }
    }
}

} // verus!
