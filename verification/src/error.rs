//! The error type of the library.
use vstd::prelude::*;

verus! {

/// What can go wrong while loading a configuration or preparing a run.
#[derive(Debug, Clone)]
pub enum DhanushError {
    /// The configuration is invalid; the message says why.
    Config(String),
    /// A configuration file could not be read.
    Io(String),
    /// A configuration file is not valid YAML for this tool.
    Yaml(String),
    /// The HTTP client could not be set up.
    Http(String),
}

/// The mathematical value of a `DhanushError`.
pub enum ErrorView {
    Config(Seq<char>),
    Io(Seq<char>),
    Yaml(Seq<char>),
    Http(Seq<char>),
}

impl DeepView for DhanushError {
    type V = ErrorView;

    open spec fn deep_view(&self) -> ErrorView {
        match self {
            DhanushError::Config(m) => ErrorView::Config(m@),
            DhanushError::Io(m) => ErrorView::Io(m@),
            DhanushError::Yaml(m) => ErrorView::Yaml(m@),
            DhanushError::Http(m) => ErrorView::Http(m@),
        }
    }
}

/// The text shown for an error.
pub open spec fn error_text(e: ErrorView) -> Seq<char> {
    match e {
        ErrorView::Config(m) => "Configuration error: "@ + m,
        ErrorView::Io(m) => "IO error: "@ + m,
        ErrorView::Yaml(m) => "YAML parse error: "@ + m,
        ErrorView::Http(m) => "HTTP client error: "@ + m,
    }
}

impl DhanushError {
    /// The text shown for this error.
    pub fn message(&self) -> (s: String)
        ensures
            s@ == error_text(self.deep_view()),
    {
        let (prefix, m) = match self {
            DhanushError::Config(m) => ("Configuration error: ", m),
            DhanushError::Io(m) => ("IO error: ", m),
            DhanushError::Yaml(m) => ("YAML parse error: ", m),
            DhanushError::Http(m) => ("HTTP client error: ", m),
        };
        proof {
            reveal_strlit("Configuration error: ");
            reveal_strlit("IO error: ");
            reveal_strlit("YAML parse error: ");
            reveal_strlit("HTTP client error: ");
        }
        let mut s = String::from_str(prefix);
        s.append(m.as_str());
        s
    }
}

} // verus!
