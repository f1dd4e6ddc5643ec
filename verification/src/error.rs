//! Error taxonomy of the library.
//!
//! Failures of outside collaborators (file reading, JSON decoding,
//! resolvers) arrive as plain messages and are carried under the matching
//! class.

use vstd::prelude::*;

verus! {

/// One error, classified.
#[derive(Clone, Debug)]
pub enum Error {
    /// File or socket trouble.
    Io(String),
    /// Malformed JSON input.
    Json(String),
    /// A resolver query failed.
    Resolver(String),
    /// Network-level failure.
    Network(String),
    /// Bad or missing configuration.
    Config(String),
    /// Terminal interface failure.
    Tui(String),
    /// Malformed input.
    Parse(String),
    /// The operation ran out of time.
    Timeout,
}

impl Error {
    /// Wrap a network failure message.
    pub fn network(msg: String) -> (r: Self)
        ensures
            r == Error::Network(msg),
    {
        Error::Network(msg)
    }

    /// Wrap a configuration failure message.
    pub fn config(msg: String) -> (r: Self)
        ensures
            r == Error::Config(msg),
    {
        Error::Config(msg)
    }

    /// Wrap a parse failure message.
    pub fn parse(msg: String) -> (r: Self)
        ensures
            r == Error::Parse(msg),
    {
        Error::Parse(msg)
    }

    /// Wrap a terminal interface failure message.
    pub fn tui(msg: String) -> (r: Self)
        ensures
            r == Error::Tui(msg),
    {
        Error::Tui(msg)
    }

    /// The classified message text of the error.
    pub open spec fn spec_message(self) -> Seq<char> {
        match self {
            Error::Io(m) => "IO error: "@ + m@,
            Error::Json(m) => "JSON parse error: "@ + m@,
            Error::Resolver(m) => "DNS resolver error: "@ + m@,
            Error::Network(m) => "Network error: "@ + m@,
            Error::Config(m) => "Config error: "@ + m@,
            Error::Tui(m) => "TUI error: "@ + m@,
            Error::Parse(m) => "Parse error: "@ + m@,
            Error::Timeout => "Operation timed out"@,
        }
    }

    /// Render the error with its class prefix.
    pub fn message(&self) -> (r: String)
        ensures
            r@ == self.spec_message(),
    {
        let mut s = String::new();
        match self {
            Error::Io(m) => {
                s.append("IO error: ");
                s.append(m.as_str());
            },
            Error::Json(m) => {
                s.append("JSON parse error: ");
                s.append(m.as_str());
            },
            Error::Resolver(m) => {
                s.append("DNS resolver error: ");
                s.append(m.as_str());
            },
            Error::Network(m) => {
                s.append("Network error: ");
                s.append(m.as_str());
            },
            Error::Config(m) => {
                s.append("Config error: ");
                s.append(m.as_str());
            },
            Error::Tui(m) => {
                s.append("TUI error: ");
                s.append(m.as_str());
            },
            Error::Parse(m) => {
                s.append("Parse error: ");
                s.append(m.as_str());
            },
            Error::Timeout => {
                s.append("Operation timed out");
            },
        }
        proof {
            assert(s@ =~= self.spec_message());
        }
        s
    }
}

} // verus!
