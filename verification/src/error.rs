//! The two ways in which reading a lockfile fails.

use vstd::prelude::*;

verus! {

/// Why a lockfile, or one resolution of it, was not turned into identities.
#[derive(Debug, PartialEq, Eq)]
pub enum Error {
    /// The lockfile is malformed; `message` says how. Nothing is read out of
    /// such a lockfile.
    InvalidLockfileFormat { message: String },
    /// The resolution is well formed, but names a source that has no
    /// identity here. A lockfile is read on without such an entry.
    UnsupportedResolution { resolution: String },
}

/// The mathematical value of an [`Error`].
pub enum ErrorView {
    InvalidLockfileFormat { message: Seq<char> },
    UnsupportedResolution { resolution: Seq<char> },
}

impl View for Error {
    type V = ErrorView;

    open spec fn view(&self) -> ErrorView {
        match *self {
            Error::InvalidLockfileFormat { message } => ErrorView::InvalidLockfileFormat {
                message: message@,
            },
            Error::UnsupportedResolution { resolution } => ErrorView::UnsupportedResolution {
                resolution: resolution@,
            },
        }
    }
}

/// The error for a text that is not YAML.
pub open spec fn invalid_yaml() -> ErrorView {
    ErrorView::InvalidLockfileFormat { message: "Not a valid YAML"@ }
}

/// The error for a document that has not the shape of a lockfile.
pub open spec fn invalid_format() -> ErrorView {
    ErrorView::InvalidLockfileFormat { message: "Malformed lockfile"@ }
}

/// The error for a resolution that the descriptor grammar does not accept.
pub open spec fn invalid_descriptor(descriptor: Seq<char>) -> ErrorView {
    ErrorView::InvalidLockfileFormat {
        message: "Some resolution has unsupported descriptor: "@ + descriptor,
    }
}

/// The error for a well-formed resolution without an identity.
pub open spec fn unsupported(resolution: Seq<char>) -> ErrorView {
    ErrorView::UnsupportedResolution { resolution }
}

/// What [`Error::describe`] says of an error.
pub open spec fn description(error: ErrorView) -> Seq<char> {
    match error {
        ErrorView::InvalidLockfileFormat { message } => "Couldn't parse the lockfile.\n"@
            + message,
        ErrorView::UnsupportedResolution { resolution } => "Unsupported resolution: "@
            + resolution,
    }
}

impl Clone for Error {
    fn clone(&self) -> (copy: Self)
        ensures
            copy@ == self@,
    {
        match self {
            Error::InvalidLockfileFormat { message } => Error::InvalidLockfileFormat {
                message: message.clone(),
            },
            Error::UnsupportedResolution { resolution } => Error::UnsupportedResolution {
                resolution: resolution.clone(),
            },
        }
    }
}

impl Error {
    /// The error for a text that is not YAML.
    pub fn invalid_yaml() -> (error: Self)
        ensures
            error@ == invalid_yaml(),
    {
        Error::InvalidLockfileFormat { message: String::from_str("Not a valid YAML") }
    }

    /// The error for a document that has not the shape of a lockfile.
    pub fn invalid_format() -> (error: Self)
        ensures
            error@ == invalid_format(),
    {
        Error::InvalidLockfileFormat { message: String::from_str("Malformed lockfile") }
    }

    /// The error for a resolution that the descriptor grammar does not
    /// accept.
    pub fn invalid_descriptor(descriptor: &str) -> (error: Self)
        ensures
            error@ == invalid_descriptor(descriptor@),
    {
        Error::InvalidLockfileFormat {
            message: String::from_str("Some resolution has unsupported descriptor: ").concat(
                descriptor,
            ),
        }
    }

    /// The error for a well-formed resolution without an identity.
    pub fn unsupported(resolution: &str) -> (error: Self)
        ensures
            error@ == unsupported(resolution@),
    {
        Error::UnsupportedResolution { resolution: String::from_str(resolution) }
    }

    /// Whether the error only sets one resolution aside.
    pub fn is_unsupported(&self) -> (unsupported: bool)
        ensures
            unsupported == (self@ is UnsupportedResolution),
    {
        match self {
            Error::UnsupportedResolution { .. } => true,
            Error::InvalidLockfileFormat { .. } => false,
        }
    }

    /// The error in words, for a reader.
    pub fn describe(&self) -> (words: String)
        ensures
            words@ == description(self@),
    {
        match self {
            Error::InvalidLockfileFormat { message } => String::from_str(
                "Couldn't parse the lockfile.\n",
            ).concat(message.as_str()),
            Error::UnsupportedResolution { resolution } => String::from_str(
                "Unsupported resolution: ",
            ).concat(resolution.as_str()),
        }
    }
}

} // verus!
