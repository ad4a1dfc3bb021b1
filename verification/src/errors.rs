//! The error taxonomy shared by the builtins, with the user-facing
//! message text of each kind.

use vstd::prelude::*;
use vstd::string::*;

verus! {

/// Why a builtin refused or failed an operation on one operand.
#[derive(Clone, Copy, Debug, PartialEq, Eq)]
pub enum ErrKind {
    /// The operand does not name an existing entry.
    NotFound,
    /// A directory stood where a file was expected.
    IsADirectory,
    /// Something other than a regular file or directory stood in the way.
    NotRegular,
    /// The target of `mkdir` already exists.
    AlreadyExists,
    /// The parent of the target path is not an existing directory.
    ParentMissing,
    /// The source path has no final component to name the moved or
    /// copied file with.
    InvalidName,
    /// Moving a directory across devices is not supported.
    UnsupportedDirMove,
    /// The move would place the source inside its own subtree.
    IntoItself,
    /// The home directory is not known to the environment.
    HomeNotSet,
}

/// The message text of each error kind, following the familiar wording
/// of the corresponding shell tools.
pub open spec fn kind_message(k: ErrKind) -> Seq<char> {
    match k {
        ErrKind::NotFound => "No such file or directory"@,
        ErrKind::IsADirectory => "Is a directory"@,
        ErrKind::NotRegular => "Not a regular file or directory"@,
        ErrKind::AlreadyExists => "File exists"@,
        ErrKind::ParentMissing => "No such file or directory"@,
        ErrKind::InvalidName => "Invalid source file name"@,
        ErrKind::UnsupportedDirMove => "Cross-device directory moves not supported"@,
        ErrKind::IntoItself => "Invalid argument"@,
        ErrKind::HomeNotSet => "HOME environment variable not set"@,
    }
}

/// Renders the message of an error kind.
pub fn message_of(k: ErrKind) -> (r: String)
    ensures
        r@ == kind_message(k),
{
    match k {
        ErrKind::NotFound => String::from_str("No such file or directory"),
        ErrKind::IsADirectory => String::from_str("Is a directory"),
        ErrKind::NotRegular => String::from_str("Not a regular file or directory"),
        ErrKind::AlreadyExists => String::from_str("File exists"),
        ErrKind::ParentMissing => String::from_str("No such file or directory"),
        ErrKind::InvalidName => String::from_str("Invalid source file name"),
        ErrKind::UnsupportedDirMove => String::from_str("Cross-device directory moves not supported"),
        ErrKind::IntoItself => String::from_str("Invalid argument"),
        ErrKind::HomeNotSet => String::from_str("HOME environment variable not set"),
    }
}

} // verus!
