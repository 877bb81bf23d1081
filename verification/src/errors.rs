use vstd::prelude::*;

verus! {

/// The error taxonomy of the store core. Every fallible operation of the
/// library reports one of these; the surrounding application turns them into
/// display-level messages.
#[derive(Debug, Clone, Copy, PartialEq, Eq, Structural)]
pub enum NoterError {
    /// The target id has no filesystem counterpart.
    NotFound,
    /// The id resolves to a directory where a file was expected.
    NotAFile,
    /// The id resolves to a file where a directory was expected.
    NotADirectory,
    /// The path does not lie under the root: a path-escape attempt.
    NotInRoot,
    /// The file type cannot be inferred from the extension.
    UnknownExtension,
    /// The bytes do not parse as the inferred type.
    DecodeError,
    /// The target of a create or rename is already occupied.
    AlreadyExists,
    /// An underlying filesystem failure reported by the caller.
    IoError,
}

impl NoterError {
    /// A short description, for display by the application layer.
    pub fn message(&self) -> (r: &'static str)
        ensures
            r@.len() > 0,
    {
        proof {
            reveal_strlit("entry not found");
            reveal_strlit("not a file");
            reveal_strlit("not a directory");
            reveal_strlit("path is not in the notes directory");
            reveal_strlit("unknown file extension");
            reveal_strlit("file body has invalid format");
            reveal_strlit("entry already exists");
            reveal_strlit("filesystem error");
        }
        match self {
            NoterError::NotFound => "entry not found",
            NoterError::NotAFile => "not a file",
            NoterError::NotADirectory => "not a directory",
            NoterError::NotInRoot => "path is not in the notes directory",
            NoterError::UnknownExtension => "unknown file extension",
            NoterError::DecodeError => "file body has invalid format",
            NoterError::AlreadyExists => "entry already exists",
            NoterError::IoError => "filesystem error",
        }
    }
}

} // verus!
