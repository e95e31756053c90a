//! The library's error type.

use vstd::prelude::*;
use vstd::std_specs::convert::FromSpecImpl;

use crate::text::joined;

verus! {

/// `std::io::Error`, carried in an error as it came.
#[verifier::external_type_specification]
#[verifier::external_body]
pub struct ExIoError(std::io::Error);

/// `std::alloc::LayoutError`, carried in an error as it came.
#[verifier::external_type_specification]
#[verifier::external_body]
pub struct ExLayoutError(std::alloc::LayoutError);

/// `std::array::TryFromSliceError`, carried in an error as it came.
#[verifier::external_type_specification]
#[verifier::external_body]
pub struct ExTryFromSliceError(std::array::TryFromSliceError);

pub type AnnResult<T> = Result<T, AnnError>;

/// What can go wrong while an index is built or searched.
#[derive(Debug)]
#[allow(inconsistent_fields)]
pub enum AnnError {
    /// Index construction and search error.
    Index { err: String },
    /// Index configuration error.
    IndexConfig { parameter: String, err: String },
    /// Integer conversion error.
    TryFromInt { err: std::num::TryFromIntError },
    /// I/O error.
    Io { err: std::io::Error },
    /// Layout error in memory allocation.
    MemoryAllocLayout { err: std::alloc::LayoutError },
    /// A lock was poisoned by a thread that failed while it held the lock.
    LockPoison { err: String },
    /// A disk index file cannot be opened with the alignment that it needs.
    DiskIoAlignmentError { err: String },
    /// An I/O queue for a disk index file cannot be made.
    IoQueue { err: String },
    /// Array conversion error.
    TryFromSlice { err: std::array::TryFromSliceError },
}

impl AnnError {
    /// The index error with text `text`.
    pub open spec fn is_index(self, text: Seq<char>) -> bool {
        self matches AnnError::Index { err } && err@ == text
    }

    pub fn log_index_config_error(parameter: String, err: String) -> (error: Self)
        ensures
            error == (AnnError::IndexConfig { parameter, err }),
    {
        AnnError::IndexConfig { parameter, err }
    }

    pub fn log_index_error(err: String) -> (error: Self)
        ensures
            error == (AnnError::Index { err }),
    {
        AnnError::Index { err }
    }

    pub fn log_lock_poison_error(err: String) -> (error: Self)
        ensures
            error == (AnnError::LockPoison { err }),
    {
        AnnError::LockPoison { err }
    }

    pub fn log_io_error(err: std::io::Error) -> (error: Self)
        ensures
            error == (AnnError::Io { err }),
    {
        AnnError::Io { err }
    }

    pub fn log_disk_io_alignment_error(err: String) -> (error: Self)
        ensures
            error == (AnnError::DiskIoAlignmentError { err }),
    {
        AnnError::DiskIoAlignmentError { err }
    }

    pub fn log_io_queue_error(err: String) -> (error: Self)
        ensures
            error == (AnnError::IoQueue { err }),
    {
        AnnError::IoQueue { err }
    }

    /// What stands in front of the cause in the error's text.
    pub open spec fn prefix(self) -> Seq<char> {
        match self {
            AnnError::Index { .. } => "IndexError: "@,
            AnnError::IndexConfig { parameter, .. } => "IndexConfigError: "@ + parameter@
                + " is invalid, err="@,
            AnnError::TryFromInt { .. } => "TryFromIntError: "@,
            AnnError::Io { .. } => "IOError: "@,
            AnnError::MemoryAllocLayout { .. } => "MemoryAllocLayoutError: "@,
            AnnError::LockPoison { .. } => "LockPoisonError: "@,
            AnnError::DiskIoAlignmentError { .. } => "DiskIOAlignmentError: "@,
            AnnError::IoQueue { .. } => "IOQueueError: "@,
            AnnError::TryFromSlice { .. } => "Error try creating array from slice: "@,
        }
    }

    /// The text of the cause, where the cause is text.
    pub open spec fn cause_text(self) -> Option<Seq<char>> {
        match self {
            AnnError::Index { err } => Some(err@),
            AnnError::IndexConfig { err, .. } => Some(err@),
            AnnError::LockPoison { err } => Some(err@),
            AnnError::DiskIoAlignmentError { err } => Some(err@),
            AnnError::IoQueue { err } => Some(err@),
            _ => None,
        }
    }

    /// The text in front of the cause.
    pub fn prefix_text(&self) -> (text: String)
        ensures
            text@ == self.prefix(),
    {
        match self {
            AnnError::Index { .. } => "IndexError: ".to_owned(),
            AnnError::IndexConfig { parameter, .. } => {
                let head: String = joined("IndexConfigError: ", parameter.as_str());
                joined(head.as_str(), " is invalid, err=")
            },
            AnnError::TryFromInt { .. } => "TryFromIntError: ".to_owned(),
            AnnError::Io { .. } => "IOError: ".to_owned(),
            AnnError::MemoryAllocLayout { .. } => "MemoryAllocLayoutError: ".to_owned(),
            AnnError::LockPoison { .. } => "LockPoisonError: ".to_owned(),
            AnnError::DiskIoAlignmentError { .. } => "DiskIOAlignmentError: ".to_owned(),
            AnnError::IoQueue { .. } => "IOQueueError: ".to_owned(),
            AnnError::TryFromSlice { .. } => "Error try creating array from slice: ".to_owned(),
        }
    }

    /// The whole text of the error: its prefix, then its cause. The text of a
    /// cause from the standard library is that library's own.
    pub fn message(&self) -> (text: String)
        ensures
            self.prefix().len() <= text@.len(),
            text@.take(self.prefix().len() as int) == self.prefix(),
            self.cause_text() matches Some(cause) ==> text@ == self.prefix() + cause,
    {
        let head: String = self.prefix_text();
        let cause: String = match self {
            AnnError::Index { err } => err.clone(),
            AnnError::IndexConfig { err, .. } => err.clone(),
            AnnError::TryFromInt { err } => err.to_string(),
            AnnError::Io { err } => err.to_string(),
            AnnError::MemoryAllocLayout { err } => err.to_string(),
            AnnError::LockPoison { err } => err.clone(),
            AnnError::DiskIoAlignmentError { err } => err.clone(),
            AnnError::IoQueue { err } => err.clone(),
            AnnError::TryFromSlice { err } => err.to_string(),
        };
        let text: String = joined(head.as_str(), cause.as_str());
        proof {
            assert(text@.take(self.prefix().len() as int) =~= self.prefix());
        }
        text
    }
}

impl From<std::num::TryFromIntError> for AnnError {
    fn from(err: std::num::TryFromIntError) -> (error: Self) {
        AnnError::TryFromInt { err }
    }
}

impl FromSpecImpl<std::num::TryFromIntError> for AnnError {
    open spec fn obeys_from_spec() -> bool {
        true
    }

    open spec fn from_spec(err: std::num::TryFromIntError) -> Self {
        AnnError::TryFromInt { err }
    }
}

impl From<std::io::Error> for AnnError {
    fn from(err: std::io::Error) -> (error: Self) {
        AnnError::Io { err }
    }
}

impl FromSpecImpl<std::io::Error> for AnnError {
    open spec fn obeys_from_spec() -> bool {
        true
    }

    open spec fn from_spec(err: std::io::Error) -> Self {
        AnnError::Io { err }
    }
}

impl From<std::alloc::LayoutError> for AnnError {
    fn from(err: std::alloc::LayoutError) -> (error: Self) {
        AnnError::MemoryAllocLayout { err }
    }
}

impl FromSpecImpl<std::alloc::LayoutError> for AnnError {
    open spec fn obeys_from_spec() -> bool {
        true
    }

    open spec fn from_spec(err: std::alloc::LayoutError) -> Self {
        AnnError::MemoryAllocLayout { err }
    }
}

impl From<std::array::TryFromSliceError> for AnnError {
    fn from(err: std::array::TryFromSliceError) -> (error: Self) {
        AnnError::TryFromSlice { err }
    }
}

impl FromSpecImpl<std::array::TryFromSliceError> for AnnError {
    open spec fn obeys_from_spec() -> bool {
        true
    }

    open spec fn from_spec(err: std::array::TryFromSliceError) -> Self {
        AnnError::TryFromSlice { err }
    }
}

/// The index error with the given text.
pub fn index_error(text: String) -> (error: AnnError)
    ensures
        error.is_index(text@),
{
    AnnError::log_index_error(text)
}

} // verus!
