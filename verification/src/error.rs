//! What goes wrong, as callers see it.

use vstd::prelude::*;

verus! {

/// The ways in which a request fails.
#[derive(Clone, Debug, PartialEq, Eq)]
pub enum Error {
    /// The request's parameters are wrong.
    InvalidToolParams(String),
    /// An edit was refused before anything was written.
    ApplyRefused(String),
    /// An edit failed after something was written.
    ApplyPartiallyFailed {
        /// Files that still hold what this run wrote.
        written: Vec<String>,
        /// Files that were put back.
        restored: Vec<String>,
        /// Files that could not be put back, and where they are.
        unrecovered: Vec<String>,
        /// Why the run failed.
        reason: String,
    },
    /// The tool writes to the working tree, and that is switched off.
    ApplyDisabled {
        /// The tool.
        tool: String,
        /// The setting that switches it on.
        config_key: String,
    },
    /// The server that would answer is not there.
    ServerUnavailable {
        /// The server.
        server_id: String,
        /// Why it is not there.
        reason: String,
    },
    /// The server that would answer is still starting.
    ServerInitializing {
        /// The server.
        server_id: String,
    },
    /// The servers that would answer are all still starting.
    WorkspaceServersInitializing,
    /// No server is configured at all.
    NoServerConfigured,
    /// No configured server answers this tool.
    NoServerForWorkspaceTool {
        /// The tool.
        tool: String,
    },
    /// A server refused the request, or did not answer it.
    RequestFailed(String),
}

/// What an [`Error`] stands for.
pub enum ErrorView {
    /// The request's parameters are wrong.
    InvalidToolParams(Seq<char>),
    /// An edit was refused before anything was written.
    ApplyRefused(Seq<char>),
    /// An edit failed after something was written.
    ApplyPartiallyFailed {
        /// Files that still hold what this run wrote.
        written: Seq<Seq<char>>,
        /// Files that were put back.
        restored: Seq<Seq<char>>,
        /// Files that could not be put back, and where they are.
        unrecovered: Seq<Seq<char>>,
        /// Why the run failed.
        reason: Seq<char>,
    },
    /// The tool writes to the working tree, and that is switched off.
    ApplyDisabled {
        /// The tool.
        tool: Seq<char>,
        /// The setting that switches it on.
        config_key: Seq<char>,
    },
    /// The server that would answer is not there.
    ServerUnavailable {
        /// The server.
        server_id: Seq<char>,
        /// Why it is not there.
        reason: Seq<char>,
    },
    /// The server that would answer is still starting.
    ServerInitializing {
        /// The server.
        server_id: Seq<char>,
    },
    /// The servers that would answer are all still starting.
    WorkspaceServersInitializing,
    /// No server is configured at all.
    NoServerConfigured,
    /// No configured server answers this tool.
    NoServerForWorkspaceTool {
        /// The tool.
        tool: Seq<char>,
    },
    /// A server refused the request, or did not answer it.
    RequestFailed(Seq<char>),
}

impl DeepView for Error {
    type V = ErrorView;

    open spec fn deep_view(&self) -> ErrorView {
        match self {
            Error::InvalidToolParams(s) => ErrorView::InvalidToolParams(s@),
            Error::ApplyRefused(s) => ErrorView::ApplyRefused(s@),
            Error::ApplyPartiallyFailed { written, restored, unrecovered, reason } =>
                ErrorView::ApplyPartiallyFailed {
                    written: written.deep_view(),
                    restored: restored.deep_view(),
                    unrecovered: unrecovered.deep_view(),
                    reason: reason@,
                },
            Error::ApplyDisabled { tool, config_key } => ErrorView::ApplyDisabled {
                tool: tool@,
                config_key: config_key@,
            },
            Error::ServerUnavailable { server_id, reason } => ErrorView::ServerUnavailable {
                server_id: server_id@,
                reason: reason@,
            },
            Error::ServerInitializing { server_id } => ErrorView::ServerInitializing {
                server_id: server_id@,
            },
            Error::WorkspaceServersInitializing => ErrorView::WorkspaceServersInitializing,
            Error::NoServerConfigured => ErrorView::NoServerConfigured,
            Error::NoServerForWorkspaceTool { tool } => ErrorView::NoServerForWorkspaceTool {
                tool: tool@,
            },
            Error::RequestFailed(s) => ErrorView::RequestFailed(s@),
        }
    }
}

/// What a fallible operation came to, in the terms that contracts speak of.
pub open spec fn outcome<T: DeepView>(r: Result<T, Error>) -> Result<T::V, ErrorView> {
    match r {
        Ok(value) => Ok(value.deep_view()),
        Err(e) => Err(e.deep_view()),
    }
}

/// The error that a check came to, if any.
pub open spec fn failure(r: Result<(), Error>) -> Option<ErrorView> {
    match r {
        Ok(()) => None,
        Err(e) => Some(e.deep_view()),
    }
}

} // verus!
