//! The failures that the package manager reports, each with the subject it
//! is about (a package or repository name, a URL, or a short reason).
use vstd::prelude::*;

verus! {

#[derive(Debug)]
pub enum PmError {
    /// A package or repository that is not there.
    NotFound(String),
    /// A repository name that is already registered.
    AlreadyExists(String),
    /// A repository whose signed index could not be verified (its URL).
    VerificationFailure(String),
    NetworkFailure(String),
    ParseFailure(String),
    /// A package built for another platform (its name).
    IncompatiblePlatform(String),
    InstallFailure(String),
    FilesystemFailure(String),
}

impl PmError {
    /// The subject that the error is about.
    pub fn subject(&self) -> (r: &String)
        ensures
            r == (match self {
                PmError::NotFound(s) => s,
                PmError::AlreadyExists(s) => s,
                PmError::VerificationFailure(s) => s,
                PmError::NetworkFailure(s) => s,
                PmError::ParseFailure(s) => s,
                PmError::IncompatiblePlatform(s) => s,
                PmError::InstallFailure(s) => s,
                PmError::FilesystemFailure(s) => s,
            }),
    {
        match self {
            PmError::NotFound(s) => s,
            PmError::AlreadyExists(s) => s,
            PmError::VerificationFailure(s) => s,
            PmError::NetworkFailure(s) => s,
            PmError::ParseFailure(s) => s,
            PmError::IncompatiblePlatform(s) => s,
            PmError::InstallFailure(s) => s,
            PmError::FilesystemFailure(s) => s,
        }
    }
}

} // verus!
