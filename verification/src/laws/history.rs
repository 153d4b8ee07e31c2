//! What holds after every sequence of calls.

use vstd::prelude::*;
use crate::invariants::{
    lemma_chdir_valid, lemma_close_valid, lemma_lseek_valid, lemma_mkdir_valid, lemma_open_valid,
    lemma_read_valid, lemma_resolve_in_arena, lemma_rmdir_valid, lemma_unlink_valid,
    lemma_write_valid,
};
use crate::model::{DirState, EntryState, FileState, FsState, ROOT};
use crate::path::{last_component, parent_components};
use crate::utils::{OpenFlag, SeekFlag, FILE_MAX_SIZE, NUMBER_OF_MAXIMUM_FILES};

verus! {

/// One call of the filesystem.
pub enum FsOp {
    Open { path: Seq<char>, flag: OpenFlag },
    Close { fd: usize },
    Unlink { path: Seq<char> },
    Read { fd: usize, buffer: Seq<u8>, size: usize },
    Write { fd: usize, buffer: Seq<u8>, size: usize },
    Lseek { fd: usize, offset: usize, whence: SeekFlag },
    Mkdir { path: Seq<char> },
    Rmdir { path: Seq<char> },
    Chdir { path: Seq<char> },
}

/// The state after one call.
pub open spec fn step(s: FsState, op: FsOp) -> FsState {
    match op {
        FsOp::Open { path, flag } => s.open(path, flag).0,
        FsOp::Close { fd } => s.close(fd).0,
        FsOp::Unlink { path } => s.unlink(path).0,
        FsOp::Read { fd, buffer, size } => s.read(fd, buffer, size).0,
        FsOp::Write { fd, buffer, size } => s.write(fd, buffer, size).0,
        FsOp::Lseek { fd, offset, whence } => s.lseek(fd, offset, whence).0,
        FsOp::Mkdir { path } => s.mkdir(path).0,
        FsOp::Rmdir { path } => s.rmdir(path).0,
        FsOp::Chdir { path } => s.chdir(path).0,
    }
}

/// The state after a sequence of calls, in whatever order they were made.
pub open spec fn run(s: FsState, ops: Seq<FsOp>) -> FsState
    decreases ops.len(),
{
    if ops.len() == 0 {
        s
    } else {
        step(run(s, ops.drop_last()), ops.last())
    }
}

/// Whether there is room before each call of a sequence.
pub open spec fn room_throughout(s: FsState, ops: Seq<FsOp>) -> bool
    decreases ops.len(),
{
    ops.len() > 0 ==> room_throughout(s, ops.drop_last()) && run(s, ops.drop_last()).has_room()
}

/// A new filesystem is valid.
pub proof fn lemma_initial_valid()
    ensures
        FsState::initial().valid(),
{
    let s = FsState::initial();
    assert(s.dir(0).children =~= Map::<Seq<char>, usize>::empty());
}

/// Every call keeps the filesystem valid.
pub proof fn law_step_keeps_valid(s: FsState, op: FsOp)
    requires
        s.valid(),
        s.has_room(),
    ensures
        step(s, op).valid(),
{
    match op {
        FsOp::Open { path, flag } => lemma_open_valid(s, path, flag),
        FsOp::Close { fd } => lemma_close_valid(s, fd),
        FsOp::Unlink { path } => lemma_unlink_valid(s, path),
        FsOp::Read { fd, buffer, size } => lemma_read_valid(s, fd, buffer, size),
        FsOp::Write { fd, buffer, size } => lemma_write_valid(s, fd, buffer, size),
        FsOp::Lseek { fd, offset, whence } => lemma_lseek_valid(s, fd, offset, whence),
        FsOp::Mkdir { path } => lemma_mkdir_valid(s, path),
        FsOp::Rmdir { path } => lemma_rmdir_valid(s, path),
        FsOp::Chdir { path } => lemma_chdir_valid(s, path),
    }
}

/// Every sequence of calls keeps the filesystem valid.
pub proof fn law_run_keeps_valid(s: FsState, ops: Seq<FsOp>)
    requires
        s.valid(),
        room_throughout(s, ops),
    ensures
        run(s, ops).valid(),
    decreases ops.len(),
{
    if ops.len() > 0 {
        law_run_keeps_valid(s, ops.drop_last());
        law_step_keeps_valid(run(s, ops.drop_last()), ops.last());
    }
}

/// Whatever calls were made since the filesystem was new, no file is larger
/// than `FILE_MAX_SIZE`.
pub proof fn law_file_size_is_bounded(ops: Seq<FsOp>, file: int)
    requires
        room_throughout(FsState::initial(), ops),
        run(FsState::initial(), ops).is_file(file),
    ensures
        0 <= run(FsState::initial(), ops).file(file).size <= FILE_MAX_SIZE,
{
    lemma_initial_valid();
    law_run_keeps_valid(FsState::initial(), ops);
}

/// Whatever calls were made since the filesystem was new, the offset of an
/// open descriptor is not beyond the end of its file.
pub proof fn law_offset_is_within_file(ops: Seq<FsOp>, fd: usize)
    requires
        room_throughout(FsState::initial(), ops),
        run(FsState::initial(), ops).descriptors.contains_key(fd),
    ensures
        ({
            let s = run(FsState::initial(), ops);
            &&& s.is_file(s.descriptors[fd].entry as int)
            &&& 0 <= s.descriptors[fd].file_offset <= s.file(s.descriptors[fd].entry as int).size
        }),
{
    lemma_initial_valid();
    law_run_keeps_valid(FsState::initial(), ops);
    let s = run(FsState::initial(), ops);
    assert(s.valid_descriptor(fd));
}

/// How many entries of an arena are files.
pub open spec fn files_in(nodes: Seq<EntryState>) -> nat
    decreases nodes.len(),
{
    if nodes.len() == 0 {
        0
    } else if nodes.last() is File {
        files_in(nodes.drop_last()) + 1
    } else {
        files_in(nodes.drop_last())
    }
}

/// An entry that changes, but stays a file or stays none, leaves the number
/// of files as it was.
pub proof fn lemma_files_in_after_update(nodes: Seq<EntryState>, i: int, entry: EntryState)
    requires
        0 <= i < nodes.len(),
        (nodes[i] is File) == (entry is File),
    ensures
        files_in(nodes.update(i, entry)) == files_in(nodes),
    decreases nodes.len(),
{
    let changed = nodes.update(i, entry);
    if i == nodes.len() - 1 {
        assert(changed.drop_last() =~= nodes.drop_last());
    } else {
        lemma_files_in_after_update(nodes.drop_last(), i, entry);
        assert(changed.drop_last() =~= nodes.drop_last().update(i, entry));
    }
}

/// One more entry is one more file if it is a file.
pub proof fn lemma_files_in_after_push(nodes: Seq<EntryState>, entry: EntryState)
    ensures
        files_in(nodes.push(entry)) == files_in(nodes) + if entry is File {
            1nat
        } else {
            0nat
        },
{
    assert(nodes.push(entry).drop_last() =~= nodes);
}

/// Every call leaves the files and the free buffers together as many as
/// they were: a buffer leaves the pool when a file is made, and at no other
/// time.
pub proof fn lemma_step_keeps_buffers_accounted(s: FsState, op: FsOp)
    requires
        s.valid(),
    ensures
        files_in(step(s, op).nodes) + step(s, op).free_buffers.len() == files_in(s.nodes)
            + s.free_buffers.len(),
{
    match op {
        FsOp::Open { path, flag } => {
            lemma_resolve_in_arena(s, path, parent_components(path));
            if s.open(path, flag).1 is Ok {
                let dir = s.directory_of(s.resolve_parent(path)->Ok_0)->Ok_0 as int;
                let name = last_component(path);
                if !s.has_child(dir, name) {
                    let file = EntryState::File(FileState { size: 0, data: s.free_buffers[0] });
                    let here = s.dir(dir);
                    lemma_files_in_after_push(s.nodes, file);
                    lemma_files_in_after_update(
                        s.nodes.push(file),
                        dir,
                        EntryState::Directory(
                            DirState {
                                children: here.children.insert(name, s.nodes.len() as usize),
                                ..here
                            },
                        ),
                    );
                }
            }
        },
        FsOp::Unlink { path } => {
            lemma_resolve_in_arena(s, path, parent_components(path));
            if s.unlink(path).1 is Ok {
                let parent = s.resolve_parent(path)->Ok_0 as int;
                let dir = if s.nodes[parent] is Directory {
                    parent
                } else {
                    ROOT as int
                };
                let here = s.dir(dir);
                lemma_files_in_after_update(
                    s.nodes,
                    dir,
                    EntryState::Directory(
                        DirState { children: here.children.remove(last_component(path)), ..here },
                    ),
                );
            }
        },
        FsOp::Mkdir { path } => {
            lemma_resolve_in_arena(s, path, parent_components(path));
            if s.mkdir(path).1 is Ok {
                let dir = s.resolve_parent(path)->Ok_0 as int;
                let name = last_component(path);
                let made = EntryState::Directory(
                    DirState { parent: Some(dir as usize), children: Map::empty() },
                );
                let here = s.dir(dir);
                lemma_files_in_after_push(s.nodes, made);
                lemma_files_in_after_update(
                    s.nodes.push(made),
                    dir,
                    EntryState::Directory(
                        DirState {
                            children: here.children.insert(name, s.nodes.len() as usize),
                            ..here
                        },
                    ),
                );
            }
        },
        FsOp::Rmdir { path } => {
            lemma_resolve_in_arena(s, path, parent_components(path));
            if s.rmdir(path).1 is Ok {
                let dir = s.resolve_parent(path)->Ok_0 as int;
                let here = s.dir(dir);
                lemma_files_in_after_update(
                    s.nodes,
                    dir,
                    EntryState::Directory(
                        DirState { children: here.children.remove(last_component(path)), ..here },
                    ),
                );
            }
        },
        FsOp::Write { fd, buffer, size } => {
            if s.write(fd, buffer, size).1 is Ok {
                let d = s.descriptors[fd];
                assert(s.valid_descriptor(fd));
                lemma_files_in_after_update(
                    s.nodes,
                    d.entry as int,
                    s.write(fd, buffer, size).0.nodes[d.entry as int],
                );
                assert(s.write(fd, buffer, size).0.nodes =~= s.nodes.update(
                    d.entry as int,
                    s.write(fd, buffer, size).0.nodes[d.entry as int],
                ));
            }
        },
        _ => {},
    }
}

/// Whatever calls were made since the filesystem was new, the files and the
/// free buffers together are `NUMBER_OF_MAXIMUM_FILES`: no more files than
/// that were ever made.
pub proof fn law_pool_bounds_files(ops: Seq<FsOp>)
    requires
        room_throughout(FsState::initial(), ops),
    ensures
        files_in(run(FsState::initial(), ops).nodes) + run(
            FsState::initial(),
            ops,
        ).free_buffers.len() == NUMBER_OF_MAXIMUM_FILES,
    decreases ops.len(),
{
    if ops.len() == 0 {
        reveal_with_fuel(files_in, 3);
        let nodes = FsState::initial().nodes;
        assert(nodes.drop_last().drop_last() =~= Seq::<EntryState>::empty());
    } else {
        law_pool_bounds_files(ops.drop_last());
        lemma_initial_valid();
        law_run_keeps_valid(FsState::initial(), ops.drop_last());
        lemma_step_keeps_buffers_accounted(run(FsState::initial(), ops.drop_last()), ops.last());
    }
}

/// The descriptor counter never goes back.
pub proof fn law_counter_never_goes_back(s: FsState, ops: Seq<FsOp>)
    requires
        room_throughout(s, ops),
    ensures
        run(s, ops).next_descriptor >= s.next_descriptor,
    decreases ops.len(),
{
    if ops.len() > 0 {
        law_counter_never_goes_back(s, ops.drop_last());
    }
}

/// The id that `open` gives is the counter's value: no open descriptor has
/// it, and every open descriptor has a smaller one.
pub proof fn law_new_descriptor_is_fresh(s: FsState, path: Seq<char>, flag: OpenFlag)
    requires
        s.valid(),
        s.has_room(),
        s.open(path, flag).1 is Ok,
    ensures
        s.open(path, flag).1->Ok_0 == s.next_descriptor,
        s.open(path, flag).0.next_descriptor == s.next_descriptor + 1,
        !s.descriptors.contains_key(s.next_descriptor),
        forall|other: usize| #[trigger]
            s.descriptors.contains_key(other) ==> other < s.open(path, flag).1->Ok_0,
{
    assert forall|other: usize| #[trigger] s.descriptors.contains_key(other) implies other
        < s.next_descriptor by {
        assert(s.valid_descriptor(other));
    }
}

/// Descriptor ids are strictly increasing: of two successful `open` calls,
/// the later gives the greater id, whatever calls were made between them
/// (a `close` of the first id among them).
pub proof fn law_descriptor_ids_increase(
    s: FsState,
    first_path: Seq<char>,
    first_flag: OpenFlag,
    between: Seq<FsOp>,
    second_path: Seq<char>,
    second_flag: OpenFlag,
)
    requires
        s.valid(),
        s.has_room(),
        s.open(first_path, first_flag).1 is Ok,
        room_throughout(s.open(first_path, first_flag).0, between),
        run(s.open(first_path, first_flag).0, between).has_room(),
        run(s.open(first_path, first_flag).0, between).open(second_path, second_flag).1 is Ok,
    ensures
        s.open(first_path, first_flag).1->Ok_0 < run(
            s.open(first_path, first_flag).0,
            between,
        ).open(second_path, second_flag).1->Ok_0,
{
    let t = s.open(first_path, first_flag).0;
    law_new_descriptor_is_fresh(s, first_path, first_flag);
    law_counter_never_goes_back(t, between);
    lemma_open_valid(s, first_path, first_flag);
    law_run_keeps_valid(t, between);
    law_new_descriptor_is_fresh(run(t, between), second_path, second_flag);
}

} // verus!
