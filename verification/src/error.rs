//! What can go wrong with a request.
use vstd::prelude::*;

use crate::text::views;

verus! {

/// Why a request cannot be met.
#[derive(Debug, Clone, PartialEq, Eq)]
pub enum SnatchError {
    /// An argument has a value that cannot be used.
    InvalidArgument {
        /// The argument.
        name: String,
        /// What is wrong with it.
        reason: String,
    },
    /// No session has the given id.
    SessionNotFound {
        /// The id that was asked for.
        session_id: String,
    },
    /// No project matches.
    ProjectNotFound {
        /// What was looked for.
        project_path: String,
    },
    /// A file is missing.
    FileNotFound {
        /// Its path.
        path: String,
    },
    /// The configuration, or a request that goes with it, is not usable.
    ConfigError {
        /// What is wrong.
        message: String,
    },
    /// An export cannot be made.
    ExportError {
        /// What is wrong.
        message: String,
    },
    /// A provider cannot do something.
    Unsupported {
        /// What it cannot do.
        capability: String,
    },
    /// Flags were given that do not go with what is asked for.
    UnsupportedFlags {
        /// What is asked for.
        route: String,
        /// The flags that were given, in order.
        flags: Vec<String>,
    },
}

/// The contents of an error, as texts.
#[verifier::ext_equal]
pub enum ErrorView {
    /// See [`SnatchError::InvalidArgument`].
    InvalidArgument {
        /// The argument.
        name: Seq<char>,
        /// What is wrong with it.
        reason: Seq<char>,
    },
    /// See [`SnatchError::SessionNotFound`].
    SessionNotFound {
        /// The id that was asked for.
        session_id: Seq<char>,
    },
    /// See [`SnatchError::ProjectNotFound`].
    ProjectNotFound {
        /// What was looked for.
        project_path: Seq<char>,
    },
    /// See [`SnatchError::FileNotFound`].
    FileNotFound {
        /// Its path.
        path: Seq<char>,
    },
    /// See [`SnatchError::ConfigError`].
    ConfigError {
        /// What is wrong.
        message: Seq<char>,
    },
    /// See [`SnatchError::ExportError`].
    ExportError {
        /// What is wrong.
        message: Seq<char>,
    },
    /// See [`SnatchError::Unsupported`].
    Unsupported {
        /// What the provider cannot do.
        capability: Seq<char>,
    },
    /// See [`SnatchError::UnsupportedFlags`].
    UnsupportedFlags {
        /// What is asked for.
        route: Seq<char>,
        /// The flags that were given.
        flags: Seq<Seq<char>>,
    },
}

impl View for SnatchError {
    type V = ErrorView;

    open spec fn view(&self) -> ErrorView {
        match *self {
            SnatchError::InvalidArgument { name, reason } => ErrorView::InvalidArgument {
                name: name@,
                reason: reason@,
            },
            SnatchError::SessionNotFound { session_id } => ErrorView::SessionNotFound {
                session_id: session_id@,
            },
            SnatchError::ProjectNotFound { project_path } => ErrorView::ProjectNotFound {
                project_path: project_path@,
            },
            SnatchError::FileNotFound { path } => ErrorView::FileNotFound { path: path@ },
            SnatchError::ConfigError { message } => ErrorView::ConfigError { message: message@ },
            SnatchError::ExportError { message } => ErrorView::ExportError { message: message@ },
            SnatchError::Unsupported { capability } => ErrorView::Unsupported {
                capability: capability@,
            },
            SnatchError::UnsupportedFlags { route, flags } => ErrorView::UnsupportedFlags {
                route: route@,
                flags: views(flags@),
            },
        }
    }
}

/// An argument that cannot be used.
pub open spec fn invalid(name: Seq<char>, reason: Seq<char>) -> ErrorView {
    ErrorView::InvalidArgument { name, reason }
}

/// An argument that cannot be used.
pub fn invalid_argument(name: &str, reason: String) -> (r: SnatchError)
    ensures
        r@ == invalid(name@, reason@),
{
    SnatchError::InvalidArgument { name: name.to_owned(), reason }
}

} // verus!
