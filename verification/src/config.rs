//! The configuration that delivery and routing read.

use crate::diagnostics::DiagnosticSeverity;
use crate::table::Key;
use vstd::prelude::*;
use vstd::string::*;

verus! {

/// The routing identity of a language server.
#[derive(Clone, Debug, PartialEq, Eq, PartialOrd, Ord, Hash)]
pub struct ServerId {
    /// The name.
    pub name: String,
}

impl View for ServerId {
    type V = Seq<char>;

    open spec fn view(&self) -> Seq<char> {
        self.name@
    }
}

impl DeepView for ServerId {
    type V = Seq<char>;

    open spec fn deep_view(&self) -> Seq<char> {
        self.name@
    }
}

impl Key for ServerId {
    fn same(&self, other: &Self) -> (r: bool) {
        self.name == other.name
    }

    fn dup(&self) -> (r: Self) {
        ServerId { name: self.name.clone() }
    }
}

impl ServerId {
    /// The identity named `name`.
    pub fn from(name: &str) -> (r: Self)
        ensures
            r@ == name@,
    {
        ServerId { name: name.to_owned() }
    }

    /// The name.
    pub fn as_str(&self) -> (r: &str)
        ensures
            r@ == self@,
    {
        self.name.as_str()
    }
}

/// The least severe diagnostics that are delivered.
#[derive(Clone, Copy, Debug, PartialEq, Eq, Structural)]
pub enum SeverityFloor {
    /// Errors only.
    Error,
    /// Errors and warnings.
    Warning,
    /// All but hints.
    Information,
    /// Everything.
    Hint,
    /// Nothing.
    Off,
}

impl SeverityFloor {
    /// How many degrees of severity pass the floor, from errors down.
    pub open spec fn degrees(self) -> int {
        match self {
            SeverityFloor::Error => 1,
            SeverityFloor::Warning => 2,
            SeverityFloor::Information => 3,
            SeverityFloor::Hint => 4,
            SeverityFloor::Off => 0,
        }
    }

    /// Whether a diagnostic of `severity` passes the floor. One without a
    /// severity counts as information, which is how it is rendered.
    pub open spec fn passes(self, severity: Option<DiagnosticSeverity>) -> bool {
        crate::diagnostics::severity_degree(severity) <= self.degrees()
    }

    /// Whether a diagnostic of `severity` is delivered.
    pub fn admits(self, severity: Option<DiagnosticSeverity>) -> (r: bool)
        ensures
            r == self.passes(severity),
    {
        let degrees: u8 = match self {
            SeverityFloor::Error => 1,
            SeverityFloor::Warning => 2,
            SeverityFloor::Information => 3,
            SeverityFloor::Hint => 4,
            SeverityFloor::Off => 0,
        };
        let degree: u8 = match severity {
            Some(DiagnosticSeverity::Error) => 1,
            Some(DiagnosticSeverity::Warning) => 2,
            Some(DiagnosticSeverity::Hint) => 4,
            _ => 3,
        };
        degree <= degrees
    }
}

/// How diagnostics are delivered.
#[derive(Clone, Copy, Debug, PartialEq, Eq, Structural)]
pub struct DiagnosticsConfig {
    /// The floor of a server that sets none of its own.
    pub severity: SeverityFloor,
    /// The most diagnostics of one file in a report; zero for no limit.
    pub max_per_file: usize,
    /// The most diagnostics and cleared files in a report; zero for no limit.
    pub max_total: usize,
    /// How long an unprotected record outlives its last activity, in
    /// milliseconds.
    pub record_grace_ms: u64,
}

impl Default for DiagnosticsConfig {
    fn default() -> (r: Self)
        ensures
            r == (DiagnosticsConfig {
                severity: SeverityFloor::Warning,
                max_per_file: 10,
                max_total: 30,
                record_grace_ms: 60_000,
            }),
    {
        DiagnosticsConfig {
            severity: SeverityFloor::Warning,
            max_per_file: 10,
            max_total: 30,
            record_grace_ms: 60_000,
        }
    }
}

/// What delivery and routing read of a language server's configuration.
#[derive(Clone, Debug)]
pub struct LspServerConfig {
    /// The language the server is for.
    pub language_id: String,
    /// Its own name, when it has one.
    pub name: Option<String>,
    /// Its own floor, when it sets one.
    pub diagnostics_severity: Option<SeverityFloor>,
}

impl LspServerConfig {
    /// The routing identity: the name, or the language without one.
    pub open spec fn identity(self) -> Seq<char> {
        match self.name {
            Some(name) => name@,
            None => self.language_id@,
        }
    }

    /// The routing identity.
    pub fn id(&self) -> (r: ServerId)
        ensures
            r@ == self.identity(),
    {
        match &self.name {
            Some(name) => ServerId { name: name.clone() },
            None => ServerId { name: self.language_id.clone() },
        }
    }
}

/// Where a configuration came from.
#[derive(Clone, Copy, Debug, PartialEq, Eq, Structural)]
pub enum ConfigSource {
    /// The project's own file.
    Project,
    /// The user's file.
    Global,
    /// A file named on the command line.
    Explicit,
}

/// What other processes compare of a configuration.
#[derive(Clone, Debug, PartialEq, Eq)]
pub struct ServerConfig {
    /// A hash of all that is configured.
    pub fingerprint: String,
    /// Where it came from.
    pub source: ConfigSource,
    /// Whether a project's file was ignored for want of trust.
    pub project_config_ignored: bool,
}

} // verus!
