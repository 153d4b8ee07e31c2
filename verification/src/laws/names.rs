//! Names in directories: making, finding and removing entries.

use vstd::prelude::*;
use crate::invariants::{lemma_open_valid, lemma_resolve_in_arena, lemma_taken_buffer_valid};
use crate::model::{is_dotdot, is_slash, DirState, EntryState, FileState, FsState, ROOT};
use crate::path::{last_component, parent_components, split_path, trim_slashes};
use crate::utils::{has_bits, mode_exclusive, MemFSErrType, OpenFlag, CREAT_BIT, EXCL_BIT};

verus! {

/// A walk reads nothing but the arena.
pub proof fn lemma_walk_reads_arena(s: FsState, t: FsState, dir: int, components: Seq<Seq<char>>)
    requires
        s.nodes == t.nodes,
    ensures
        s.walk(dir, components) == t.walk(dir, components),
    decreases components.len(),
{
    if components.len() > 0 && s.is_dir(dir) {
        let name = components[0];
        let rest = components.drop_first();
        let here = s.dir(dir);
        if rest.len() > 0 {
            if here.children.contains_key(name) {
                lemma_walk_reads_arena(s, t, here.children[name] as int, rest);
            } else if is_dotdot(name) {
                match here.parent {
                    Some(parent) => lemma_walk_reads_arena(s, t, parent as int, rest),
                    None => lemma_walk_reads_arena(s, t, dir, rest),
                }
            }
        }
    }
}

/// A walk that succeeds ends where it did once a new entry has got a vacant
/// name other than `..`.
pub proof fn lemma_walk_after_link(
    s: FsState,
    start: int,
    components: Seq<Seq<char>>,
    dir: int,
    name: Seq<char>,
    entry: EntryState,
)
    requires
        s.valid(),
        s.is_dir(dir),
        !s.has_child(dir, name),
        !is_dotdot(name),
        !(entry is ResolvedAsRoot),
        s.walk(start, components) is Ok,
    ensures
        s.with_entry(entry).with_child(dir, name, s.nodes.len() as usize).walk(start, components)
            == s.walk(start, components),
    decreases components.len(),
{
    let n = s.nodes.len() as int;
    let t = s.with_entry(entry).with_child(dir, name, n as usize);
    let first = components[0];
    let rest = components.drop_first();
    assert(s.is_dir(start));
    assert(t.is_dir(start));
    let here = s.dir(start);
    assert(t.dir(start).parent == here.parent);
    if start == dir && first == name {
        assert(false);
    } else {
        assert(t.dir(start).children.contains_key(first) == here.children.contains_key(first));
        if here.children.contains_key(first) {
            assert(s.has_child(start, first));
            assert(s.valid_child(start, first));
            let child = here.children[first] as int;
            assert(t.dir(start).children[first] == here.children[first]);
            assert(t.is_dir(child) == s.is_dir(child));
            if rest.len() > 0 {
                lemma_walk_after_link(s, child, rest, dir, name, entry);
            }
        } else if is_dotdot(first) {
            if rest.len() > 0 {
                match here.parent {
                    Some(parent) => lemma_walk_after_link(s, parent as int, rest, dir, name, entry),
                    None => lemma_walk_after_link(s, start, rest, dir, name, entry),
                }
            }
        }
    }
}

/// A walk that ends at a directory, or at the root's stand-in, ends where it
/// did once a file has lost its name.
pub proof fn lemma_walk_after_unlink(
    s: FsState,
    start: int,
    components: Seq<Seq<char>>,
    dir: int,
    name: Seq<char>,
)
    requires
        s.valid(),
        s.has_child(dir, name),
        s.is_file(s.child(dir, name)),
        s.walk(start, components) is Ok,
        !s.is_file(s.walk(start, components)->Ok_0 as int),
    ensures
        s.without_child(dir, name).walk(start, components) == s.walk(start, components),
    decreases components.len(),
{
    let t = s.without_child(dir, name);
    let first = components[0];
    let rest = components.drop_first();
    assert(s.is_dir(start));
    assert(t.is_dir(start));
    let here = s.dir(start);
    assert(t.dir(start).parent == here.parent);
    if start == dir && first == name {
        assert(false);
    } else {
        assert(t.dir(start).children.contains_key(first) == here.children.contains_key(first));
        if here.children.contains_key(first) {
            assert(s.has_child(start, first));
            assert(s.valid_child(start, first));
            let child = here.children[first] as int;
            assert(t.dir(start).children[first] == here.children[first]);
            assert(t.is_dir(child) == s.is_dir(child));
            if rest.len() > 0 {
                lemma_walk_after_unlink(s, child, rest, dir, name);
            }
        } else if is_dotdot(first) {
            if rest.len() > 0 {
                match here.parent {
                    Some(parent) => lemma_walk_after_unlink(s, parent as int, rest, dir, name),
                    None => lemma_walk_after_unlink(s, start, rest, dir, name),
                }
            }
        }
    }
}

/// The path `/` has no last component.
pub proof fn lemma_slash_has_no_name(path: Seq<char>)
    requires
        is_slash(path),
    ensures
        last_component(path).len() == 0,
{
    assert(path.drop_last() =~= Seq::<char>::empty());
    reveal_with_fuel(trim_slashes, 3);
    reveal_with_fuel(split_path, 3);
    assert(trim_slashes(path) =~= Seq::<char>::empty());
}

/// `mkdir` of a path and then `rmdir` of the same path: the second call
/// succeeds, and every directory has the names it had before the first. All
/// that is left of the pair is one entry of the arena that has no name.
pub proof fn law_mkdir_then_rmdir(s: FsState, path: Seq<char>)
    requires
        s.valid(),
        s.nodes.len() < usize::MAX,
        s.mkdir(path).1 is Ok,
    ensures
        s.mkdir(path).0.rmdir(path).1 is Ok,
        s.mkdir(path).0.rmdir(path).0 == s.with_entry(
            EntryState::Directory(
                DirState {
                    parent: Some(s.resolve_parent(path)->Ok_0),
                    children: Map::empty(),
                },
            ),
        ),
{
    let name = last_component(path);
    let parent = s.resolve_parent(path)->Ok_0 as int;
    let made = EntryState::Directory(
        DirState { parent: Some(parent as usize), children: Map::empty() },
    );
    let t = s.mkdir(path).0;
    lemma_resolve_in_arena(s, path, parent_components(path));
    assert(t == s.with_entry(made).with_child(parent, name, s.nodes.len() as usize));
    if is_slash(path) {
        lemma_slash_has_no_name(path);
    }
    if parent_components(path).len() > 0 {
        lemma_walk_after_link(s, s.start(path) as int, parent_components(path), parent, name, made);
    }
    assert(t.resolve_parent(path) == s.resolve_parent(path));
    assert(t.has_child(parent, name));
    assert(t.is_dir(t.child(parent, name)));
    assert(t.dir(t.child(parent, name)).children =~= Map::<Seq<char>, usize>::empty());
    let u = t.without_child(parent, name);
    assert(u.dir(parent).children =~= s.dir(parent).children);
    assert(u.nodes =~= s.with_entry(made).nodes);
}

/// Names are unique within a directory: `mkdir` of a name that is taken, by
/// a file or by a directory, fails with `EEXIST` and changes nothing.
pub proof fn law_mkdir_of_taken_name(s: FsState, path: Seq<char>)
    requires
        s.resolve_parent(path) is Ok,
        s.has_child(s.resolve_parent(path)->Ok_0 as int, last_component(path)),
    ensures
        s.mkdir(path) == (s, Err::<(), MemFSErrType>(MemFSErrType::EEXIST)),
{
}

/// `open` with `O_CREAT | O_EXCL` of a name that is taken fails with
/// `EEXIST` and changes nothing.
pub proof fn law_exclusive_create_of_taken_name(s: FsState, path: Seq<char>, flag: OpenFlag)
    requires
        mode_exclusive(flag@),
        has_bits(flag@, CREAT_BIT | EXCL_BIT),
        s.resolve_parent(path) is Ok,
        s.directory_of(s.resolve_parent(path)->Ok_0) is Ok,
        s.has_child(
            s.directory_of(s.resolve_parent(path)->Ok_0)->Ok_0 as int,
            last_component(path),
        ),
    ensures
        s.open(path, flag) == (s, Err::<usize, MemFSErrType>(MemFSErrType::EEXIST)),
{
}

/// After `open` has made a file under a vacant name other than `..`, the
/// path leads to that file.
pub proof fn lemma_created_file_is_found(s: FsState, path: Seq<char>, flag: OpenFlag)
    requires
        s.valid(),
        s.has_room(),
        mode_exclusive(flag@),
        has_bits(flag@, CREAT_BIT),
        s.resolve_parent(path) is Ok,
        s.directory_of(s.resolve_parent(path)->Ok_0) is Ok,
        !s.has_child(
            s.directory_of(s.resolve_parent(path)->Ok_0)->Ok_0 as int,
            last_component(path),
        ),
        last_component(path).len() > 0,
        !is_dotdot(last_component(path)),
        s.free_buffers.len() > 0,
    ensures
        s.open(path, flag).1 == Ok::<usize, MemFSErrType>(s.next_descriptor),
        ({
            let t = s.open(path, flag).0;
            let parent = s.resolve_parent(path)->Ok_0;
            let dir = s.directory_of(parent)->Ok_0 as int;
            &&& t.valid()
            &&& t.nodes.len() == s.nodes.len() + 1
            &&& t.next_descriptor == s.next_descriptor + 1
            &&& t.resolve_parent(path) == s.resolve_parent(path)
            &&& t.directory_of(parent) == s.directory_of(parent)
            &&& t.has_child(dir, last_component(path))
            &&& t.child(dir, last_component(path)) == s.nodes.len()
            &&& t.is_file(s.nodes.len() as int)
        }),
{
    let name = last_component(path);
    let parent = s.resolve_parent(path)->Ok_0;
    let dir = s.directory_of(parent)->Ok_0 as int;
    let created = s.nodes.len() as usize;
    let file = EntryState::File(FileState { size: 0, data: s.free_buffers[0] });
    let taken = FsState { free_buffers: s.free_buffers.drop_first(), ..s };
    let linked = taken.with_entry(file).with_child(dir, name, created);
    let t = s.open(path, flag).0;
    lemma_open_valid(s, path, flag);
    lemma_resolve_in_arena(s, path, parent_components(path));
    lemma_taken_buffer_valid(s);
    assert(has_bits(flag@, CREAT_BIT | EXCL_BIT) ==> has_bits(flag@, CREAT_BIT)) by {
        let bits = flag@;
        assert(bits & (8u32 | 16u32) == (8u32 | 16u32) ==> bits & 8u32 == 8u32) by (bit_vector);
    }
    assert(t == linked.with_descriptor(created, flag));
    assert(taken.is_dir(dir));
    assert(!taken.has_child(dir, name));
    if parent_components(path).len() > 0 {
        lemma_walk_reads_arena(s, taken, s.start(path) as int, parent_components(path));
        lemma_walk_after_link(
            taken,
            s.start(path) as int,
            parent_components(path),
            dir,
            name,
            file,
        );
        lemma_walk_reads_arena(linked, t, s.start(path) as int, parent_components(path));
    }
    assert(t.resolve_parent(path) == s.resolve_parent(path));
    assert(t.directory_of(parent) == s.directory_of(parent));
    assert(t.has_child(dir, name));
    assert(t.dir(dir).children[name] == created);
    assert(t.is_file(created as int));
}

/// `open` with `O_CREAT` of a vacant name succeeds while the pool has a
/// buffer left, and every later `open` of the same path finds the file:
/// with `O_CREAT | O_EXCL` it fails with `EEXIST`, without it gives a
/// descriptor on the file that was made.
///
/// The name must not be `..`: resolution reads a name that is a child
/// before it reads `..`, so a file of that name can hide the way to its own
/// directory.
pub proof fn law_create_of_vacant_name(
    s: FsState,
    path: Seq<char>,
    flag: OpenFlag,
    later: OpenFlag,
)
    requires
        s.valid(),
        s.has_room(),
        mode_exclusive(flag@),
        mode_exclusive(later@),
        has_bits(flag@, CREAT_BIT),
        s.resolve_parent(path) is Ok,
        s.directory_of(s.resolve_parent(path)->Ok_0) is Ok,
        !s.has_child(
            s.directory_of(s.resolve_parent(path)->Ok_0)->Ok_0 as int,
            last_component(path),
        ),
        last_component(path).len() > 0,
        !is_dotdot(last_component(path)),
        s.free_buffers.len() > 0,
    ensures
        s.open(path, flag).1 == Ok::<usize, MemFSErrType>(s.next_descriptor),
        has_bits(later@, CREAT_BIT | EXCL_BIT) ==> s.open(path, flag).0.open(path, later).1 == Err::<
            usize,
            MemFSErrType,
        >(MemFSErrType::EEXIST),
        !has_bits(later@, CREAT_BIT | EXCL_BIT) ==> {
            let t = s.open(path, flag).0;
            let u = t.open(path, later).0;
            &&& t.open(path, later).1 == Ok::<usize, MemFSErrType>(t.next_descriptor)
            &&& u.descriptors[t.next_descriptor].entry == s.nodes.len()
            &&& u.is_file(s.nodes.len() as int)
        },
{
    lemma_created_file_is_found(s, path, flag);
}

/// How many of `times` calls of `open` with the same arguments, one after
/// another, succeed.
pub open spec fn opens_that_succeed(s: FsState, path: Seq<char>, flag: OpenFlag, times: nat) -> nat
    decreases times,
{
    if times == 0 {
        0
    } else {
        let first = s.open(path, flag);
        let rest = opens_that_succeed(first.0, path, flag, (times - 1) as nat);
        if first.1 is Ok {
            1 + rest
        } else {
            rest
        }
    }
}

/// Calls of `open` with `O_CREAT | O_EXCL` of a name that is taken all fail,
/// however many there are.
pub proof fn lemma_exclusive_creates_of_taken_name_fail(
    s: FsState,
    path: Seq<char>,
    flag: OpenFlag,
    times: nat,
)
    requires
        mode_exclusive(flag@),
        has_bits(flag@, CREAT_BIT | EXCL_BIT),
        s.resolve_parent(path) is Ok,
        s.directory_of(s.resolve_parent(path)->Ok_0) is Ok,
        s.has_child(
            s.directory_of(s.resolve_parent(path)->Ok_0)->Ok_0 as int,
            last_component(path),
        ),
    ensures
        opens_that_succeed(s, path, flag, times) == 0,
    decreases times,
{
    if times > 0 {
        law_exclusive_create_of_taken_name(s, path, flag);
        lemma_exclusive_creates_of_taken_name_fail(s, path, flag, (times - 1) as nat);
    }
}

/// Of any number of calls of `open` with `O_CREAT | O_EXCL` of one vacant
/// name, exactly one succeeds. The calls are the same, so this holds in
/// whatever order they take effect.
///
/// The name must not be `..`, for the reason given at
/// `law_create_of_vacant_name`.
pub proof fn law_one_exclusive_create_succeeds(
    s: FsState,
    path: Seq<char>,
    flag: OpenFlag,
    times: nat,
)
    requires
        times >= 1,
        s.valid(),
        s.has_room(),
        mode_exclusive(flag@),
        has_bits(flag@, CREAT_BIT | EXCL_BIT),
        s.resolve_parent(path) is Ok,
        s.directory_of(s.resolve_parent(path)->Ok_0) is Ok,
        !s.has_child(
            s.directory_of(s.resolve_parent(path)->Ok_0)->Ok_0 as int,
            last_component(path),
        ),
        last_component(path).len() > 0,
        !is_dotdot(last_component(path)),
        s.free_buffers.len() > 0,
    ensures
        opens_that_succeed(s, path, flag, times) == 1,
{
    assert(has_bits(flag@, CREAT_BIT)) by {
        let bits = flag@;
        assert(bits & (8u32 | 16u32) == (8u32 | 16u32) ==> bits & 8u32 == 8u32) by (bit_vector);
    }
    lemma_created_file_is_found(s, path, flag);
    lemma_exclusive_creates_of_taken_name_fail(
        s.open(path, flag).0,
        path,
        flag,
        (times - 1) as nat,
    );
}

/// `open` that makes a file leaves every other name as it was: what any
/// directory holds under any other name is what it held before.
pub proof fn law_create_leaves_other_names(
    s: FsState,
    path: Seq<char>,
    flag: OpenFlag,
    dir: int,
    name: Seq<char>,
)
    requires
        s.valid(),
        s.open(path, flag).1 is Ok,
        0 <= dir < s.nodes.len(),
        !(dir == s.directory_of(s.resolve_parent(path)->Ok_0)->Ok_0 && name == last_component(
            path,
        )),
    ensures
        s.open(path, flag).0.has_child(dir, name) == s.has_child(dir, name),
        s.has_child(dir, name) ==> s.open(path, flag).0.child(dir, name) == s.child(dir, name),
{
    lemma_resolve_in_arena(s, path, parent_components(path));
}

/// `open` that makes a file, then `close` of its descriptor, then `unlink`
/// of the same path: both succeed, and every directory has the names it had
/// before, the descriptor table is as before and so is the working
/// directory. What is left of the three calls: one entry of the arena that
/// has no name, one buffer less in the pool, and one descriptor id used up.
///
/// The name must not be `..`, for the reason given at
/// `law_create_of_vacant_name`.
pub proof fn law_open_close_unlink(s: FsState, path: Seq<char>, flag: OpenFlag)
    requires
        s.valid(),
        s.nodes.len() < usize::MAX,
        s.next_descriptor < usize::MAX,
        s.open(path, flag).1 is Ok,
        !s.has_child(
            s.directory_of(s.resolve_parent(path)->Ok_0)->Ok_0 as int,
            last_component(path),
        ),
        !is_dotdot(last_component(path)),
    ensures
        ({
            let fd = s.open(path, flag).1->Ok_0;
            let closed = s.open(path, flag).0.close(fd);
            let unlinked = closed.0.unlink(path);
            &&& closed.1 is Ok
            &&& unlinked.1 is Ok
            &&& unlinked.0 == (FsState {
                nodes: s.nodes.push(
                    EntryState::File(FileState { size: 0, data: s.free_buffers[0] }),
                ),
                next_descriptor: (s.next_descriptor + 1) as usize,
                free_buffers: s.free_buffers.drop_first(),
                ..s
            })
        }),
{
    let name = last_component(path);
    let parent = s.resolve_parent(path)->Ok_0;
    let dir = s.directory_of(parent)->Ok_0 as int;
    let created = s.nodes.len() as usize;
    let file = EntryState::File(FileState { size: 0, data: s.free_buffers[0] });
    let taken = FsState { free_buffers: s.free_buffers.drop_first(), ..s };
    let linked = taken.with_entry(file).with_child(dir, name, created);
    let t = s.open(path, flag).0;
    let fd = s.next_descriptor;
    lemma_resolve_in_arena(s, path, parent_components(path));
    lemma_taken_buffer_valid(s);
    assert(t == linked.with_descriptor(created, flag));
    assert(!s.descriptors.contains_key(fd)) by {
        if s.descriptors.contains_key(fd) {
            assert(s.valid_descriptor(fd));
        }
    }
    let c = t.close(fd).0;
    assert(c.descriptors =~= s.descriptors);
    assert(taken.is_dir(dir));
    assert(!taken.has_child(dir, name));
    if parent_components(path).len() > 0 {
        lemma_walk_reads_arena(s, taken, s.start(path) as int, parent_components(path));
        lemma_walk_after_link(
            taken,
            s.start(path) as int,
            parent_components(path),
            dir,
            name,
            file,
        );
        lemma_walk_reads_arena(linked, c, s.start(path) as int, parent_components(path));
    }
    assert(c.resolve_parent(path) == s.resolve_parent(path));
    assert(c.has_child(dir, name));
    assert(c.is_file(c.child(dir, name)));
    let u = c.without_child(dir, name);
    assert(u.dir(dir).children =~= s.dir(dir).children);
    assert(u.nodes =~= s.nodes.push(file));
}

/// `unlink` of a path and then `unlink` of the same path: the second call
/// fails with `ENOENT` and changes nothing.
pub proof fn law_unlink_twice(s: FsState, path: Seq<char>)
    requires
        s.valid(),
        s.unlink(path).1 is Ok,
    ensures
        s.unlink(path).0.unlink(path) == (
            s.unlink(path).0,
            Err::<(), MemFSErrType>(MemFSErrType::ENOENT),
        ),
{
    let name = last_component(path);
    let parent = s.resolve_parent(path)->Ok_0 as int;
    lemma_resolve_in_arena(s, path, parent_components(path));
    let dir = if s.nodes[parent] is Directory {
        parent
    } else {
        ROOT as int
    };
    let t = s.unlink(path).0;
    assert(t == s.without_child(dir, name));
    if parent_components(path).len() > 0 {
        lemma_walk_after_unlink(s, s.start(path) as int, parent_components(path), dir, name);
    }
    assert(t.resolve_parent(path) == s.resolve_parent(path));
    assert(!t.has_child(dir, name));
}

/// How many of `times` calls of `unlink` of the same path, one after
/// another, succeed.
pub open spec fn unlinks_that_succeed(s: FsState, path: Seq<char>, times: nat) -> nat
    decreases times,
{
    if times == 0 {
        0
    } else {
        let first = s.unlink(path);
        let rest = unlinks_that_succeed(first.0, path, (times - 1) as nat);
        if first.1 is Ok {
            1 + rest
        } else {
            rest
        }
    }
}

/// Calls of `unlink` that fail and change nothing all fail, however many
/// there are.
pub proof fn lemma_unlinks_keep_failing(s: FsState, path: Seq<char>, times: nat)
    requires
        s.unlink(path).1 is Err,
        s.unlink(path).0 == s,
    ensures
        unlinks_that_succeed(s, path, times) == 0,
    decreases times,
{
    if times > 0 {
        lemma_unlinks_keep_failing(s, path, (times - 1) as nat);
    }
}

/// Of any number of calls of `unlink` of one path that names a file,
/// exactly one succeeds. The calls are the same, so this holds in whatever
/// order they take effect.
pub proof fn law_one_unlink_succeeds(s: FsState, path: Seq<char>, times: nat)
    requires
        times >= 1,
        s.valid(),
        s.unlink(path).1 is Ok,
    ensures
        unlinks_that_succeed(s, path, times) == 1,
{
    law_unlink_twice(s, path);
    lemma_unlinks_keep_failing(s.unlink(path).0, path, (times - 1) as nat);
}

} // verus!
