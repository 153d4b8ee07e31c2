//! The concurrent collections that hold the filesystem's tables, and what is
//! taken for granted of them.
//!
//! Every function here is a single call into `dashmap` or `crossbeam`; its
//! contract is believed, not proved. The collections are owned by the
//! filesystem and reached through `&mut`, so a table changes only where a
//! contract says so. No reference into a table outlives the call that made
//! it, so no call waits for another.

use vstd::prelude::*;
use crossbeam::queue::ArrayQueue;
use dashmap::DashMap;
use std::collections::hash_map::RandomState;
use crate::memfs::MemFSFileDescriptor;

verus! {

#[verifier::external_type_specification]
#[verifier::external_body]
#[verifier::reject_recursive_types(K)]
#[verifier::reject_recursive_types(V)]
#[verifier::reject_recursive_types(S)]
pub struct ExDashMap<K, V, S>(DashMap<K, V, S>);

#[verifier::external_type_specification]
#[verifier::external_body]
#[verifier::reject_recursive_types(T)]
pub struct ExArrayQueue<T>(ArrayQueue<T>);

/// The children of a directory: from a name to the entry's place in the arena.
pub type NameTable = DashMap<String, usize, RandomState>;

/// The open descriptors, by id.
pub type DescriptorTable = DashMap<usize, MemFSFileDescriptor, RandomState>;

/// The supply of file buffers.
pub type BufferPool = ArrayQueue<Vec<u8>>;

/// What a name table holds.
pub uninterp spec fn name_table(table: NameTable) -> Map<Seq<char>, usize>;

/// What a descriptor table holds.
pub uninterp spec fn descriptor_table(table: DescriptorTable) -> Map<usize, MemFSFileDescriptor>;

/// The buffers in a pool, the one that leaves next first.
pub uninterp spec fn pool_buffers(pool: BufferPool) -> Seq<Seq<u8>>;

/// The number of buffers that a pool was made to hold.
pub uninterp spec fn pool_capacity(pool: BufferPool) -> nat;

/// `DashMap::new`: a table that holds nothing.
#[verifier::external_body]
pub(crate) fn name_table_new() -> (table: NameTable)
    ensures
        name_table(table) =~= Map::empty(),
{
    DashMap::new()
}

/// `DashMap::get`: the entry stored under `name`, if there is one. The table
/// is only read.
#[verifier::external_body]
pub(crate) fn name_table_get(table: &NameTable, name: &str) -> (found: Option<usize>)
    ensures
        found == if name_table(*table).contains_key(name@) {
            Some(name_table(*table)[name@])
        } else {
            None
        },
{
    table.get(name).map(|entry| *entry.value())
}

/// `DashMap::insert`: afterwards `name` stands for `entry`, whatever it stood
/// for before; every other name is as it was.
#[verifier::external_body]
pub(crate) fn name_table_insert(table: &mut NameTable, name: String, entry: usize)
    ensures
        name_table(*final(table)) == name_table(*old(table)).insert(name@, entry),
{
    table.insert(name, entry);
}

/// `DashMap::remove`: afterwards `name` stands for nothing; every other name
/// is as it was.
#[verifier::external_body]
pub(crate) fn name_table_remove(table: &mut NameTable, name: &str)
    ensures
        name_table(*final(table)) == name_table(*old(table)).remove(name@),
{
    table.remove(name);
}

/// `DashMap::is_empty`: whether the table holds no name at all.
#[verifier::external_body]
pub(crate) fn name_table_is_empty(table: &NameTable) -> (empty: bool)
    ensures
        empty == (name_table(*table) =~= Map::empty()),
{
    table.is_empty()
}

/// `DashMap::new`: a table that holds nothing.
#[verifier::external_body]
pub(crate) fn descriptor_table_new() -> (table: DescriptorTable)
    ensures
        descriptor_table(table) =~= Map::empty(),
{
    DashMap::new()
}

/// `DashMap::get`: a copy of the descriptor stored under `fd`, if there is
/// one. The table is only read.
#[verifier::external_body]
pub(crate) fn descriptor_table_get(table: &DescriptorTable, fd: usize) -> (found: Option<
    MemFSFileDescriptor,
>)
    ensures
        found == if descriptor_table(*table).contains_key(fd) {
            Some(descriptor_table(*table)[fd])
        } else {
            None
        },
{
    table.get(&fd).map(|entry| *entry.value())
}

/// `DashMap::insert`: afterwards `fd` stands for `descriptor`, whatever it
/// stood for before; every other id is as it was.
#[verifier::external_body]
pub(crate) fn descriptor_table_insert(
    table: &mut DescriptorTable,
    fd: usize,
    descriptor: MemFSFileDescriptor,
)
    ensures
        descriptor_table(*final(table)) == descriptor_table(*old(table)).insert(fd, descriptor),
{
    table.insert(fd, descriptor);
}

/// `DashMap::remove`: whether `fd` stood for a descriptor; afterwards it
/// stands for none, and every other id is as it was.
#[verifier::external_body]
pub(crate) fn descriptor_table_remove(table: &mut DescriptorTable, fd: usize) -> (removed: bool)
    ensures
        removed == descriptor_table(*old(table)).contains_key(fd),
        descriptor_table(*final(table)) == descriptor_table(*old(table)).remove(fd),
{
    table.remove(&fd).is_some()
}

/// `ArrayQueue::new`: an empty pool made to hold `capacity` buffers. The
/// call panics on a capacity of zero, which `requires` leaves out.
#[verifier::external_body]
pub(crate) fn pool_new(capacity: usize) -> (pool: BufferPool)
    requires
        capacity > 0,
    ensures
        pool_buffers(pool) == Seq::<Seq<u8>>::empty(),
        pool_capacity(pool) == capacity,
{
    ArrayQueue::new(capacity)
}

/// `ArrayQueue::push`: a pool that is not full takes the buffer as its last;
/// a full pool hands it back and stays as it was.
#[verifier::external_body]
pub(crate) fn pool_push(pool: &mut BufferPool, buffer: Vec<u8>) -> (pushed: core::result::Result<
    (),
    Vec<u8>,
>)
    ensures
        pool_capacity(*final(pool)) == pool_capacity(*old(pool)),
        pushed is Ok == (pool_buffers(*old(pool)).len() < pool_capacity(*old(pool))),
        pushed is Ok ==> pool_buffers(*final(pool)) == pool_buffers(*old(pool)).push(buffer@),
        pushed is Err ==> pushed->Err_0 == buffer && pool_buffers(*final(pool)) == pool_buffers(
            *old(pool),
        ),
{
    pool.push(buffer)
}

/// `ArrayQueue::pop`: the first buffer of a pool that holds one, which then
/// leaves the pool; nothing from an empty pool, which stays as it was.
#[verifier::external_body]
pub(crate) fn pool_pop(pool: &mut BufferPool) -> (popped: Option<Vec<u8>>)
    ensures
        pool_capacity(*final(pool)) == pool_capacity(*old(pool)),
        popped is Some == (pool_buffers(*old(pool)).len() > 0),
        popped is Some ==> popped->Some_0@ == pool_buffers(*old(pool))[0] && pool_buffers(
            *final(pool),
        ) == pool_buffers(*old(pool)).drop_first(),
        popped is None ==> pool_buffers(*final(pool)) == pool_buffers(*old(pool)),
{
    pool.pop()
}

} // verus!
