//! The failure taxonomy of the tool.

use vstd::prelude::*;

verus! {

/// Why a command failed.
///
/// Input failures (a platform no manifest covers), remote failures (the
/// registry answered with an error), state failures (a corrupt state document
/// or a missing image), resource failures (a host tool used during assembly
/// failed; the captured output is carried along) and plain I/O failures.
#[derive(Debug)]
pub enum Error {
    /// A host tool needed for assembly is not installed.
    CommandNotFound(String),
    /// The requested platform has no manifest in the manifest list.
    PlatformNotFound,
    /// The registry answered with an error message.
    RemoteError(String),
    /// The image configuration lacks the label naming the bootloader path.
    BootloaderPathMissing,
    /// The staged content of the decompressed layers is empty.
    EmptyImage,
    /// No image is stored under the requested name, tag and platform.
    NotFound,
    /// The persisted state document is malformed.
    FormatError,
    /// A host tool invoked during assembly failed; carries its output.
    ResourceError(String),
    /// Reading or writing local data failed.
    IOError(String),
}

impl Clone for Error {
    fn clone(&self) -> (r: Self)
        ensures
            r == *self,
    {
        match self {
            Error::CommandNotFound(c) => Error::CommandNotFound(c.clone()),
            Error::PlatformNotFound => Error::PlatformNotFound,
            Error::RemoteError(m) => Error::RemoteError(m.clone()),
            Error::BootloaderPathMissing => Error::BootloaderPathMissing,
            Error::EmptyImage => Error::EmptyImage,
            Error::NotFound => Error::NotFound,
            Error::FormatError => Error::FormatError,
            Error::ResourceError(m) => Error::ResourceError(m.clone()),
            Error::IOError(m) => Error::IOError(m.clone()),
        }
    }
}

impl Error {
    /// A short description of the failure, for the JSON error object.
    pub fn message(&self) -> (r: String)
        ensures
            match self {
                Error::CommandNotFound(c) => r@ == "required command not found: "@ + c@,
                Error::PlatformNotFound => r@ == "manifest not found for platform"@,
                Error::RemoteError(m) => r@ == "registry error: "@ + m@,
                Error::BootloaderPathMissing => r@ == "bootloader not found in image config"@,
                Error::EmptyImage => r@ == "image size must be greater than 0"@,
                Error::NotFound => r@ == "image not found"@,
                Error::FormatError => r@ == "state file is malformed"@,
                Error::ResourceError(m) => r@ == "resource operation failed: "@ + m@,
                Error::IOError(m) => r@ == "io operation failed: "@ + m@,
            },
    {
        match self {
            Error::CommandNotFound(c) => {
                let mut s = String::from_str("required command not found: ");
                s.append(c.as_str());
                s
            },
            Error::PlatformNotFound => String::from_str("manifest not found for platform"),
            Error::RemoteError(m) => {
                let mut s = String::from_str("registry error: ");
                s.append(m.as_str());
                s
            },
            Error::BootloaderPathMissing => String::from_str("bootloader not found in image config"),
            Error::EmptyImage => String::from_str("image size must be greater than 0"),
            Error::NotFound => String::from_str("image not found"),
            Error::FormatError => String::from_str("state file is malformed"),
            Error::ResourceError(m) => {
                let mut s = String::from_str("resource operation failed: ");
                s.append(m.as_str());
                s
            },
            Error::IOError(m) => {
                let mut s = String::from_str("io operation failed: ");
                s.append(m.as_str());
                s
            },
        }
    }
}

} // verus!
