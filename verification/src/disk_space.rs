//! How much room a file system has left.
use vstd::prelude::*;

verus! {

/// What the file system tells of itself.
#[derive(Clone, Copy, Debug, PartialEq, Eq, Structural)]
pub struct VolumeReading {
    /// The free blocks that are open to everyone.
    pub available_blocks: u64,
    /// The size in which the blocks are counted; some file systems leave it at 0.
    pub fragment_size: u64,
    /// The size that is preferred for reading and writing.
    pub block_size: u64,
}

/// In which size the blocks are counted.
pub open spec fn counted_size(reading: VolumeReading) -> int {
    if reading.fragment_size == 0 {
        reading.block_size as int
    } else {
        reading.fragment_size as int
    }
}

/// The bytes that are left, where the file system could be asked and the number can be held.
///
/// Whoever asks takes `None` to mean that no limit is known.
pub fn available_bytes(reading: Option<VolumeReading>) -> (bytes: Option<u64>)
    ensures
        match reading {
            Some(told) => match bytes {
                Some(count) => count == told.available_blocks * counted_size(told),
                None => told.available_blocks * counted_size(told) > u64::MAX,
            },
            None => bytes is None,
        },
{
    match reading {
        Some(told) => {
            let size: u64 = if told.fragment_size == 0 {
                told.block_size
            } else {
                told.fragment_size
            };
            told.available_blocks.checked_mul(size)
        },
        None => None,
    }
}

/// Which directory is asked for the room that a path has.
#[derive(Clone, Copy, Debug, PartialEq, Eq, Structural)]
pub enum ProbedDirectory {
    /// The path itself.
    Path,
    /// The directory that the path stands in.
    Parent,
    Nothing,
}

/// Which directory is asked for the room that a path has: a file need not be there yet.
pub fn probed_directory(is_directory: bool, has_parent: bool) -> (directory: ProbedDirectory)
    ensures
        directory == (if is_directory {
            ProbedDirectory::Path
        } else if has_parent {
            ProbedDirectory::Parent
        } else {
            ProbedDirectory::Nothing
        }),
{
    if is_directory {
        ProbedDirectory::Path
    } else if has_parent {
        ProbedDirectory::Parent
    } else {
        ProbedDirectory::Nothing
    }
}

} // verus!
