//! Open flags, seek origins, the error taxonomy and the size limits.

use vstd::prelude::*;
use rand::rngs::ThreadRng;
use rand::Rng;
use std::ops::{BitAnd, BitOr, Not};
use vstd::std_specs::ops::{BitAndSpecImpl, BitOrSpecImpl, NotSpecImpl};

verus! {

/// Upper bound on the number of files alive at any moment.
pub const NUMBER_OF_MAXIMUM_FILES: usize = 1024;

/// Maximum number of bytes a file can hold.
pub const FILE_MAX_SIZE: usize = 4096;

/// Bit of the read-only access mode.
pub const RDONLY_BIT: u32 = 0b1;

/// Bit of the write-only access mode.
pub const WRONLY_BIT: u32 = 0b10;

/// Bit of the read-write access mode.
pub const RDWR_BIT: u32 = 0b100;

/// Bit asking `open` to create a missing file.
pub const CREAT_BIT: u32 = 0b1000;

/// Bit asking `open` to fail when the name is already taken.
pub const EXCL_BIT: u32 = 0b10000;

/// Bit making every write land at the end of the file.
pub const APPEND_BIT: u32 = 0b100000;

/// The three access-mode bits together.
pub const ACCESS_MODE_BITS: u32 = 0b111;

/// Every bit that a flag set can hold.
pub const ALL_FLAG_BITS: u32 = 0b111111;

/// A set of open flags, stored as a bit field.
#[derive(Clone, Copy, Debug, PartialEq, Eq, Structural)]
pub struct OpenFlag {
    pub bits: u32,
}

impl View for OpenFlag {
    type V = u32;

    open spec fn view(&self) -> u32 {
        self.bits
    }
}

/// Whether exactly one of the three access-mode bits is set in `bits`.
pub open spec fn mode_exclusive(bits: u32) -> bool {
    let mode = bits & ACCESS_MODE_BITS;
    mode == RDONLY_BIT || mode == WRONLY_BIT || mode == RDWR_BIT
}

/// Whether every bit of `wanted` is set in `bits`.
pub open spec fn has_bits(bits: u32, wanted: u32) -> bool {
    bits & wanted == wanted
}

impl OpenFlag {
    /// Open for reading only.
    #[allow(non_snake_case)]
    pub fn O_RDONLY() -> (flag: OpenFlag)
        ensures
            flag@ == RDONLY_BIT,
    {
        OpenFlag { bits: RDONLY_BIT }
    }

    /// Open for writing only.
    #[allow(non_snake_case)]
    pub fn O_WRONLY() -> (flag: OpenFlag)
        ensures
            flag@ == WRONLY_BIT,
    {
        OpenFlag { bits: WRONLY_BIT }
    }

    /// Open for reading and writing.
    #[allow(non_snake_case)]
    pub fn O_RDWR() -> (flag: OpenFlag)
        ensures
            flag@ == RDWR_BIT,
    {
        OpenFlag { bits: RDWR_BIT }
    }

    /// Create the file if the name is vacant.
    #[allow(non_snake_case)]
    pub fn O_CREAT() -> (flag: OpenFlag)
        ensures
            flag@ == CREAT_BIT,
    {
        OpenFlag { bits: CREAT_BIT }
    }

    /// Together with `O_CREAT`: fail if the name is taken.
    #[allow(non_snake_case)]
    pub fn O_EXCL() -> (flag: OpenFlag)
        ensures
            flag@ == EXCL_BIT,
    {
        OpenFlag { bits: EXCL_BIT }
    }

    /// Every write appends to the end of the file.
    #[allow(non_snake_case)]
    pub fn O_APPEND() -> (flag: OpenFlag)
        ensures
            flag@ == APPEND_BIT,
    {
        OpenFlag { bits: APPEND_BIT }
    }

    /// The flag set with no bit set.
    pub fn empty() -> (flag: OpenFlag)
        ensures
            flag@ == 0,
    {
        OpenFlag { bits: 0 }
    }

    /// The bit field of this flag set.
    pub fn bits(&self) -> (bits: u32)
        ensures
            bits == self@,
    {
        self.bits
    }

    /// Whether every flag of `other` is in this set.
    pub fn contains(&self, other: OpenFlag) -> (found: bool)
        ensures
            found == has_bits(self@, other@),
    {
        self.bits & other.bits == other.bits
    }

    /// Whether exactly one of `O_RDONLY`, `O_WRONLY`, `O_RDWR` is set.
    pub fn check_mode_exclusiveness(&self) -> (exclusive: bool)
        ensures
            exclusive == mode_exclusive(self@),
    {
        let mode: u32 = self.bits & ACCESS_MODE_BITS;
        mode == RDONLY_BIT || mode == WRONLY_BIT || mode == RDWR_BIT
    }
}

impl BitOr for OpenFlag {
    type Output = OpenFlag;

    fn bitor(self, rhs: OpenFlag) -> (union: OpenFlag) {
        OpenFlag { bits: self.bits | rhs.bits }
    }
}

impl BitOrSpecImpl for OpenFlag {
    open spec fn obeys_bitor_spec() -> bool {
        true
    }

    open spec fn bitor_req(self, rhs: OpenFlag) -> bool {
        true
    }

    open spec fn bitor_spec(self, rhs: OpenFlag) -> OpenFlag {
        OpenFlag { bits: self.bits | rhs.bits }
    }
}

impl BitAnd for OpenFlag {
    type Output = OpenFlag;

    fn bitand(self, rhs: OpenFlag) -> (common: OpenFlag) {
        OpenFlag { bits: self.bits & rhs.bits }
    }
}

impl BitAndSpecImpl for OpenFlag {
    open spec fn obeys_bitand_spec() -> bool {
        true
    }

    open spec fn bitand_req(self, rhs: OpenFlag) -> bool {
        true
    }

    open spec fn bitand_spec(self, rhs: OpenFlag) -> OpenFlag {
        OpenFlag { bits: self.bits & rhs.bits }
    }
}

impl Not for OpenFlag {
    type Output = OpenFlag;

    fn not(self) -> (complement: OpenFlag) {
        OpenFlag { bits: !self.bits & ALL_FLAG_BITS }
    }
}

impl NotSpecImpl for OpenFlag {
    open spec fn obeys_not_spec() -> bool {
        true
    }

    open spec fn not_req(self) -> bool {
        true
    }

    open spec fn not_spec(self) -> OpenFlag {
        OpenFlag { bits: !self.bits & ALL_FLAG_BITS }
    }
}

/// The origin that `lseek` measures its offset from.
#[allow(non_camel_case_types)]
#[derive(Clone, Copy, Debug, PartialEq, Eq, Structural)]
pub enum SeekFlag {
    /// From the descriptor's current offset.
    SEEK_CUR,
    /// From the end of the file.
    SEEK_END,
    /// From the start of the file.
    SEEK_SET,
}

/// The kinds of failure that an operation can report.
#[derive(Clone, Copy, Debug, PartialEq, Eq, Structural)]
pub enum MemFSErrType {
    /// Used on poisoned lock error.
    PoisonedLock,
    /// Used when there is no entry with the given name.
    ENOENT,
    /// Used when there is already an entry with the given name.
    EEXIST,
    /// Used when the given integer is not a valid file descriptor,
    /// or the file descriptor is not opened with appropriate read/write privilege.
    EBADF,
    /// Used when the target should be a file, but is a directory.
    EISDIR,
    /// Used when the target should be a directory, but is a file.
    ENOTDIR,
    /// Used on memory fault, such as out of bound error.
    EFAULT,
    /// Used when the provided value is invalid.
    EINVAL,
    /// Used when directory is not empty.
    ENOTEMPTY,
    /// Used when the target is in use and cannot be removed.
    EBUSY,
    /// Used when a write would grow a file beyond its maximum size.
    EFBIG,
    /// Used when no file memory is left.
    ENOMEM,
    /// Miscellaneous
    Misc,
}

/// The message that goes with each kind of error but `Misc`.
pub open spec fn kind_message(kind: MemFSErrType) -> Seq<char> {
    match kind {
        MemFSErrType::PoisonedLock => "Lock poison error"@,
        MemFSErrType::ENOENT => "No such file or directory"@,
        MemFSErrType::EEXIST => "An entry with name already exists"@,
        MemFSErrType::EBADF => "Not a file descriptor"@,
        MemFSErrType::EISDIR => "Is a directory"@,
        MemFSErrType::ENOTDIR => "Is not a directory"@,
        MemFSErrType::EFAULT => "Bad memory access"@,
        MemFSErrType::EINVAL => "Invalid value"@,
        MemFSErrType::ENOTEMPTY => "Directory is not empty"@,
        MemFSErrType::EBUSY => "Device or resource busy"@,
        MemFSErrType::EFBIG => "File too large"@,
        MemFSErrType::ENOMEM => "Out of memory"@,
        MemFSErrType::Misc => Seq::empty(),
    }
}

/// An error: its kind and a message for people.
#[derive(Debug)]
pub struct MemFSErr {
    pub message: String,
    pub err_type: MemFSErrType,
}

pub type Result<T> = std::result::Result<T, MemFSErr>;

impl MemFSErr {
    /// Whether this is the error of the given kind, with that kind's message.
    pub open spec fn is_kind(self, kind: MemFSErrType) -> bool {
        self.err_type == kind && self.message@ == kind_message(kind)
    }

    /// A miscellaneous error with a message of the caller's choice.
    pub fn with_message(message: &str) -> (e: MemFSErr)
        ensures
            e.err_type == MemFSErrType::Misc,
            e.message@ == message@,
    {
        Self { message: message.to_owned(), err_type: MemFSErrType::Misc }
    }

    /// No entry has the name.
    pub fn no_such_file_or_directory() -> (e: MemFSErr)
        ensures
            e.is_kind(MemFSErrType::ENOENT),
    {
        Self { message: "No such file or directory".to_owned(), err_type: MemFSErrType::ENOENT }
    }

    /// The descriptor is not open, or not open for what was asked.
    pub fn bad_file_descriptor() -> (e: MemFSErr)
        ensures
            e.is_kind(MemFSErrType::EBADF),
    {
        Self { message: "Not a file descriptor".to_owned(), err_type: MemFSErrType::EBADF }
    }

    /// A file was asked for and a directory found.
    pub fn is_directory() -> (e: MemFSErr)
        ensures
            e.is_kind(MemFSErrType::EISDIR),
    {
        Self { message: "Is a directory".to_owned(), err_type: MemFSErrType::EISDIR }
    }

    /// A directory was asked for and a file found.
    pub fn is_not_directory() -> (e: MemFSErr)
        ensures
            e.is_kind(MemFSErrType::ENOTDIR),
    {
        Self { message: "Is not a directory".to_owned(), err_type: MemFSErrType::ENOTDIR }
    }

    /// The caller's buffer is too small.
    pub fn bad_memory_access() -> (e: MemFSErr)
        ensures
            e.is_kind(MemFSErrType::EFAULT),
    {
        Self { message: "Bad memory access".to_owned(), err_type: MemFSErrType::EFAULT }
    }

    /// The name is taken.
    pub fn already_exists() -> (e: MemFSErr)
        ensures
            e.is_kind(MemFSErrType::EEXIST),
    {
        Self {
            message: "An entry with name already exists".to_owned(),
            err_type: MemFSErrType::EEXIST,
        }
    }

    /// An argument is not valid.
    pub fn invalid_value() -> (e: MemFSErr)
        ensures
            e.is_kind(MemFSErrType::EINVAL),
    {
        Self { message: "Invalid value".to_owned(), err_type: MemFSErrType::EINVAL }
    }

    /// The directory has children.
    pub fn is_not_empty() -> (e: MemFSErr)
        ensures
            e.is_kind(MemFSErrType::ENOTEMPTY),
    {
        Self { message: "Directory is not empty".to_owned(), err_type: MemFSErrType::ENOTEMPTY }
    }

    /// A lock was left poisoned.
    pub fn poisoned_lock() -> (e: MemFSErr)
        ensures
            e.is_kind(MemFSErrType::PoisonedLock),
    {
        Self { message: "Lock poison error".to_owned(), err_type: MemFSErrType::PoisonedLock }
    }

    /// The entry is in use.
    pub fn busy() -> (e: MemFSErr)
        ensures
            e.is_kind(MemFSErrType::EBUSY),
    {
        Self { message: "Device or resource busy".to_owned(), err_type: MemFSErrType::EBUSY }
    }

    /// The file would grow beyond `FILE_MAX_SIZE`.
    pub fn file_too_large() -> (e: MemFSErr)
        ensures
            e.is_kind(MemFSErrType::EFBIG),
    {
        Self { message: "File too large".to_owned(), err_type: MemFSErrType::EFBIG }
    }

    /// The pool has no buffer left.
    pub fn out_of_memory() -> (e: MemFSErr)
        ensures
            e.is_kind(MemFSErrType::ENOMEM),
    {
        Self { message: "Out of memory".to_owned(), err_type: MemFSErrType::ENOMEM }
    }

    /// The message of this error.
    pub fn to_string(&self) -> (text: String)
        ensures
            text@ == self.message@,
    {
        self.message.clone()
    }
}

/// Whether a result of an operation is the one that the model asks for:
/// the same value on success, the error of the same kind on failure.
pub open spec fn result_is<T>(got: Result<T>, wanted: std::result::Result<T, MemFSErrType>) -> bool {
    match wanted {
        Ok(value) => got == Ok::<T, MemFSErr>(value),
        Err(kind) => got is Err && got->Err_0.is_kind(kind),
    }
}

#[verifier::external_type_specification]
#[verifier::external_body]
pub struct ExThreadRng(ThreadRng);

/// `rand::rng`: a handle to the calling thread's random number generator.
/// Nothing is claimed of the handle.
#[verifier::external_body]
fn thread_rng() -> (rng: ThreadRng) {
    rand::rng()
}

/// `Rng::random` at type `u8`: the generator's next byte. Nothing is claimed
/// of the byte: it depends on chance.
#[verifier::external_body]
fn random_byte(rng: &mut ThreadRng) -> (byte: u8) {
    rng.random::<u8>()
}

/// A vector of `capacity` random bytes.
pub fn generate_random_vector(capacity: usize) -> (bytes: Vec<u8>)
    ensures
        bytes@.len() == capacity,
{
    let mut rng = thread_rng();
    let mut bytes: Vec<u8> = Vec::new();
    let mut filled: usize = 0;
    while filled < capacity
        invariant
            filled <= capacity,
            bytes@.len() == filled,
        decreases capacity - filled,
    {
        let byte = random_byte(&mut rng);
        bytes.push(byte);
        filled = filled + 1;
    }
    bytes
}

} // verus!
