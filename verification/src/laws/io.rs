//! Reading, writing and seeking through descriptors.

use vstd::prelude::*;
use crate::invariants::{lemma_lseek_valid, lemma_write_valid};
use crate::model::{readable, write_count, write_position, FsState};
use crate::utils::{
    has_bits, MemFSErrType, SeekFlag, APPEND_BIT, FILE_MAX_SIZE, RDONLY_BIT, WRONLY_BIT,
};

verus! {

/// A read through a descriptor that was opened for writing only fails with
/// `EBADF` and changes nothing.
pub proof fn law_read_needs_read_access(s: FsState, fd: usize, buffer: Seq<u8>, size: usize)
    requires
        s.descriptors.contains_key(fd),
        has_bits(s.descriptors[fd].flag@, WRONLY_BIT),
    ensures
        s.read(fd, buffer, size) == (s, buffer, Err::<usize, MemFSErrType>(MemFSErrType::EBADF)),
{
}

/// A write through a descriptor that was opened for reading only fails with
/// `EBADF` and changes nothing.
pub proof fn law_write_needs_write_access(s: FsState, fd: usize, buffer: Seq<u8>, size: usize)
    requires
        s.descriptors.contains_key(fd),
        has_bits(s.descriptors[fd].flag@, RDONLY_BIT),
    ensures
        s.write(fd, buffer, size) == (s, Err::<usize, MemFSErrType>(MemFSErrType::EBADF)),
{
}

/// A read that asks for more than the file holds past the offset gives what
/// is there, if the caller's buffer can take it.
pub proof fn law_read_gives_what_is_there(s: FsState, fd: usize, buffer: Seq<u8>, size: usize)
    requires
        s.valid(),
        s.descriptors.contains_key(fd),
        !has_bits(s.descriptors[fd].flag@, WRONLY_BIT),
        size >= s.file(s.descriptors[fd].entry as int).size - s.descriptors[fd].file_offset,
        buffer.len() >= s.file(s.descriptors[fd].entry as int).size
            - s.descriptors[fd].file_offset,
    ensures
        s.read(fd, buffer, size).2 == Ok::<usize, MemFSErrType>(
            (s.file(s.descriptors[fd].entry as int).size
                - s.descriptors[fd].file_offset) as usize,
        ),
{
    assert(s.valid_descriptor(fd));
}

/// A read of bytes that the file holds, into a buffer too small for them,
/// fails with `EFAULT` and changes nothing.
pub proof fn law_read_into_small_buffer(s: FsState, fd: usize, buffer: Seq<u8>, size: usize)
    requires
        s.valid(),
        s.descriptors.contains_key(fd),
        !has_bits(s.descriptors[fd].flag@, WRONLY_BIT),
        size <= s.file(s.descriptors[fd].entry as int).size - s.descriptors[fd].file_offset,
        buffer.len() < size,
    ensures
        s.read(fd, buffer, size) == (s, buffer, Err::<usize, MemFSErrType>(MemFSErrType::EFAULT)),
{
    assert(s.valid_descriptor(fd));
}

/// A write that would end beyond `FILE_MAX_SIZE` fails with `EFBIG` and
/// changes nothing.
pub proof fn law_write_beyond_limit(s: FsState, fd: usize, buffer: Seq<u8>, size: usize)
    requires
        s.valid(),
        s.descriptors.contains_key(fd),
        !has_bits(s.descriptors[fd].flag@, RDONLY_BIT),
        write_position(s.descriptors[fd], s.file(s.descriptors[fd].entry as int)) + write_count(
            size,
            buffer,
        ) > FILE_MAX_SIZE,
    ensures
        s.write(fd, buffer, size) == (s, Err::<usize, MemFSErrType>(MemFSErrType::EFBIG)),
{
    assert(s.valid_descriptor(fd));
}

/// A write, then `lseek` back to where the write began, then a read of as
/// many bytes as were written: the read gives the bytes just written. A
/// write that began at the start of the file is read back after
/// `lseek(fd, 0, SEEK_SET)`.
pub proof fn law_write_then_read(
    s: FsState,
    fd: usize,
    buffer: Seq<u8>,
    size: usize,
    into: Seq<u8>,
)
    requires
        s.valid(),
        s.descriptors.contains_key(fd),
        !has_bits(s.descriptors[fd].flag@, WRONLY_BIT),
        s.write(fd, buffer, size).1 is Ok,
        into.len() >= write_count(size, buffer),
    ensures
        ({
            let d = s.descriptors[fd];
            let at = write_position(d, s.file(d.entry as int));
            let count = write_count(size, buffer);
            let written = s.write(fd, buffer, size);
            let sought = written.0.lseek(fd, at, SeekFlag::SEEK_SET);
            let got = sought.0.read(fd, into, count);
            &&& written.1 == Ok::<usize, MemFSErrType>(count)
            &&& sought.1 == Ok::<usize, MemFSErrType>(at)
            &&& got.2 == Ok::<usize, MemFSErrType>(count)
            &&& got.1.subrange(0, count as int) == buffer.subrange(0, count as int)
        }),
{
    let d = s.descriptors[fd];
    assert(s.valid_descriptor(fd));
    let file = s.file(d.entry as int);
    let at = write_position(d, file);
    let count = write_count(size, buffer);
    let w = s.write(fd, buffer, size).0;
    lemma_write_valid(s, fd, buffer, size);
    assert(w.descriptors.contains_key(fd));
    assert(w.valid_descriptor(fd));
    let k = w.lseek(fd, at, SeekFlag::SEEK_SET).0;
    lemma_lseek_valid(w, fd, at, SeekFlag::SEEK_SET);
    assert(k.descriptors.contains_key(fd));
    assert(k.descriptors[fd].file_offset == at);
    assert(k.file(d.entry as int) == w.file(d.entry as int));
    let got = k.read(fd, into, count);
    assert(readable(at, k.file(d.entry as int).size, count) == count);
    assert(got.1.subrange(0, count as int) =~= buffer.subrange(0, count as int));
}

/// A write through a descriptor that appends lands at the end of the file:
/// the file keeps what it held and grows by what was written.
pub proof fn law_append_lands_at_end(s: FsState, fd: usize, buffer: Seq<u8>, size: usize)
    requires
        s.valid(),
        s.descriptors.contains_key(fd),
        has_bits(s.descriptors[fd].flag@, APPEND_BIT),
        s.write(fd, buffer, size).1 is Ok,
    ensures
        ({
            let entry = s.descriptors[fd].entry as int;
            let before = s.file(entry);
            let after = s.write(fd, buffer, size).0.file(entry);
            let count = write_count(size, buffer);
            &&& after.size == before.size + count
            &&& after.data.subrange(0, before.size as int) == before.data.subrange(
                0,
                before.size as int,
            )
            &&& after.data.subrange(before.size as int, before.size + count) == buffer.subrange(
                0,
                count as int,
            )
            &&& s.write(fd, buffer, size).0.descriptors[fd].file_offset == after.size
        }),
{
    assert(s.valid_descriptor(fd));
    let entry = s.descriptors[fd].entry as int;
    let before = s.file(entry);
    let after = s.write(fd, buffer, size).0.file(entry);
    let count = write_count(size, buffer);
    assert(after.data.subrange(0, before.size as int) =~= before.data.subrange(
        0,
        before.size as int,
    ));
    assert(after.data.subrange(before.size as int, before.size + count) =~= buffer.subrange(
        0,
        count as int,
    ));
}

/// A write moves the offset by no more than the bytes it was asked to
/// write, counted from where it began, and a failed write does not move it.
pub proof fn law_write_moves_offset_by_count(s: FsState, fd: usize, buffer: Seq<u8>, size: usize)
    requires
        s.valid(),
        s.descriptors.contains_key(fd),
    ensures
        ({
            let d = s.descriptors[fd];
            let after = s.write(fd, buffer, size).0.descriptors[fd];
            let at = write_position(d, s.file(d.entry as int));
            &&& s.write(fd, buffer, size).1 is Err ==> after.file_offset == d.file_offset
            &&& s.write(fd, buffer, size).1 is Ok ==> after.file_offset == at + write_count(
                size,
                buffer,
            ) && after.file_offset <= at + size
        }),
{
    assert(s.valid_descriptor(fd));
}

} // verus!
