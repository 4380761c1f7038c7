//! What a probed path is, and whether a listing or a read is owed for it.
use vstd::prelude::*;

verus! {

/// What a path denotes on the filesystem. A node that exists and is not a
/// regular file counts as a directory.
#[derive(Clone, Copy, Debug, PartialEq, Eq, Structural)]
pub enum Classification {
    Missing,
    Directory,
    File,
}

pub open spec fn classification(exists: bool, is_regular_file: bool) -> Classification {
    if !exists {
        Classification::Missing
    } else if is_regular_file {
        Classification::File
    } else {
        Classification::Directory
    }
}

/// Classifies a path from two probes: whether it exists and, only where it
/// does, whether its metadata says regular file. Absence is checked first;
/// `is_regular_file` is not looked at for a missing path.
pub fn classify(exists: bool, is_regular_file: bool) -> (r: Classification)
    ensures
        r == classification(exists, is_regular_file),
{
    if !exists {
        Classification::Missing
    } else if is_regular_file {
        Classification::File
    } else {
        Classification::Directory
    }
}

/// A directory listing is owed: the path is not empty and names a directory.
pub open spec fn listing_owed(path: Seq<char>, class: Classification) -> bool {
    path.len() > 0 && class == Classification::Directory
}

/// File content is owed: the path is not empty and names a regular file.
pub open spec fn read_owed(path: Seq<char>, class: Classification) -> bool {
    path.len() > 0 && class == Classification::File
}

/// Whether `path` names a directory whose children should be listed. Where
/// it does not (empty, missing, a file) the listing is absent, not failed.
pub fn is_directory(path: &str, class: Classification) -> (r: bool)
    ensures
        r == listing_owed(path@, class),
{
    !path.is_empty() && class == Classification::Directory
}

/// Whether `path` names a regular file whose content should be read. Where
/// it does not (empty, missing, a directory) the content is absent, not failed.
pub fn is_file(path: &str, class: Classification) -> (r: bool)
    ensures
        r == read_owed(path@, class),
{
    !path.is_empty() && class == Classification::File
}

/// A path that does not exist is neither listed nor read: both outcomes are
/// absent, whatever the metadata probe would have said.
pub proof fn lemma_missing_path_is_absent(path: Seq<char>, is_regular_file: bool)
    ensures
        !listing_owed(path, classification(false, is_regular_file)),
        !read_owed(path, classification(false, is_regular_file)),
{
}

/// A path that is a regular file is never listed.
pub proof fn lemma_file_is_not_listed(path: Seq<char>)
    ensures
        !listing_owed(path, classification(true, true)),
{
}

/// A path that is a directory is never read.
pub proof fn lemma_directory_is_not_read(path: Seq<char>)
    ensures
        !read_owed(path, classification(true, false)),
{
}

} // verus!
