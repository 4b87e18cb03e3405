use vstd::prelude::*;

verus! {

/// The failure conditions of the build engine.
///
/// Every condition aborts the remainder of the build pipeline; none is
/// retried. The shell around the engine constructs the variants that arise
/// from file-system traversal and process spawning; the engine itself
/// constructs `MissingHeaders`.
#[derive(Debug, Clone, PartialEq, Eq)]
pub enum Error {
    /// A scan root does not exist or is not a directory.
    DirectoryNotFound(String),
    /// Recursive traversal of a directory hit an unreadable entry.
    FileListingFailed(String),
    /// The contents of a source or header could not be read.
    FileReadFailed(String),
    /// One or more quoted header names in the named file could not be
    /// resolved against the known header set. Carries the path of the file
    /// and exactly the unresolved names, in the order they were quoted.
    MissingHeaders(String, Vec<String>),
    /// The compiler or linker executable could not be spawned.
    /// Carries the tool path and a description of the cause.
    ProcessCreationFailed(String, String),
    /// Waiting on a spawned process failed with an I/O error.
    ProcessExecutionFailed,
    /// A compile subprocess exited with a non-zero status.
    CompilationFailed,
    /// The linker exited with a non-zero status. Carries diagnostic text.
    LinkFailed(String),
    /// No known compiler family was detected on the host.
    NoCompilerFound,
    /// The output directory could not be created.
    OutputDirectoryUncreatable(String),
}

} // verus!
