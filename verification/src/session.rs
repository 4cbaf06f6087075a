//! The session's state and the interpreter's error taxonomy.

use crate::text::dec_digits;
use crate::text::render_u16;

use vstd::prelude::*;

verus! {

/// The mutable state of one interactive session.
///
/// `display_width` is `None` for unbounded output and defaults to 80.  A
/// navigation cursor into the parsed document is never stored here: each
/// `find` command derives a fresh working node from the root of the last
/// fetched document, so a cursor cannot outlive the parse it came from.
#[derive(Debug, Clone)]
pub struct SessionState {
    /// The URL of the last successful fetch; a failed fetch records nothing.
    pub source_url: Option<String>,
    /// The body of the last successfully fetched document.
    pub document_text: Option<String>,
    /// The column bound for printed lines; `None` disables truncation.
    pub display_width: Option<usize>,
}

/// The mathematical model of a session state.
pub ghost struct StateModel {
    pub source_url: Option<Seq<char>>,
    pub document_text: Option<Seq<char>>,
    pub display_width: Option<usize>,
}

impl View for SessionState {
    type V = StateModel;

    open spec fn view(&self) -> StateModel {
        StateModel {
            source_url: self.source_url.deep_view(),
            document_text: self.document_text.deep_view(),
            display_width: self.display_width,
        }
    }
}

impl SessionState {
    /// A fresh session: nothing targeted, nothing fetched, width 80.
    pub fn new() -> (s: SessionState)
        ensures
            s@ == (StateModel {
                source_url: None,
                document_text: None,
                display_width: Some(80usize),
            }),
    {
        SessionState { source_url: None, document_text: None, display_width: Some(80) }
    }
}

/// Why a command failed.
#[derive(Debug, Clone, PartialEq, Eq)]
pub enum InterpreterError {
    /// An argument was missing (the payload is then empty) or was not a
    /// valid positive integer.
    Parse(String),
    /// No node with the requested tag exists in the document.
    NotFound(String),
    /// An unknown `find` sub-operation keyword.
    UnrecognizedParameter(String),
    /// `head` or `find` ran before any document was fetched.
    NoDocument,
    /// A `find` sub-operation needed a current node, but none was selected.
    NoCurrentNode,
    /// The fetch failed below the protocol; the transport's own message.
    Transport(String),
    /// The fetch answered with a status in the server-error class.
    Server(u16),
}

/// The model of an error: the same variants over character sequences.
pub ghost enum ErrModel {
    Parse(Seq<char>),
    NotFound(Seq<char>),
    UnrecognizedParameter(Seq<char>),
    NoDocument,
    NoCurrentNode,
    Transport(Seq<char>),
    Server(u16),
}

impl View for InterpreterError {
    type V = ErrModel;

    open spec fn view(&self) -> ErrModel {
        match self {
            InterpreterError::Parse(t) => ErrModel::Parse(t@),
            InterpreterError::NotFound(t) => ErrModel::NotFound(t@),
            InterpreterError::UnrecognizedParameter(t) => ErrModel::UnrecognizedParameter(t@),
            InterpreterError::NoDocument => ErrModel::NoDocument,
            InterpreterError::NoCurrentNode => ErrModel::NoCurrentNode,
            InterpreterError::Transport(m) => ErrModel::Transport(m@),
            InterpreterError::Server(s) => ErrModel::Server(*s),
        }
    }
}

/// The one-line message that the surrounding program reports for an error.
pub open spec fn spec_message(e: ErrModel) -> Seq<char> {
    match e {
        ErrModel::Parse(t) => "could not parse argument: "@ + t,
        ErrModel::NotFound(t) => "Unable to find tag "@ + t,
        ErrModel::UnrecognizedParameter(t) => "Unrecognized param: "@ + t,
        ErrModel::NoDocument => "No contents available."@,
        ErrModel::NoCurrentNode => "No current node selected."@,
        ErrModel::Transport(m) => m,
        ErrModel::Server(s) => "server error: "@ + dec_digits(s as nat),
    }
}

impl InterpreterError {
    /// Renders the error as the message to print, exactly as [`spec_message`]
    /// describes.
    pub fn message(&self) -> (r: String)
        ensures
            r@ == spec_message(self@),
    {
        match self {
            InterpreterError::Parse(t) => String::from_str("could not parse argument: ").concat(
                t.as_str(),
            ),
            InterpreterError::NotFound(t) => String::from_str("Unable to find tag ").concat(
                t.as_str(),
            ),
            InterpreterError::UnrecognizedParameter(t) => String::from_str(
                "Unrecognized param: ",
            ).concat(t.as_str()),
            InterpreterError::NoDocument => String::from_str("No contents available."),
            InterpreterError::NoCurrentNode => String::from_str("No current node selected."),
            InterpreterError::Transport(m) => m.clone(),
            InterpreterError::Server(s) => String::from_str("server error: ").concat(
                render_u16(*s).as_str(),
            ),
        }
    }
}

} // verus!
