//! What can go wrong.
use vstd::prelude::*;

verus! {

/// A failure, as it is reported to the person at the terminal.
pub enum Error {
    /// A finished sentence.
    Message(String),
    /// The operating system refused an operation on a path.
    Io { path: String, detail: String },
    /// A file does not hold valid JSON.
    Json { path: String, detail: String },
    /// A file holds JSON, but not ChatGPT OAuth credentials.
    InvalidAuth(String),
    /// The other side of a conversation broke its rules.
    Protocol(String),
    /// A WebSocket connection failed.
    WebSocket(String),
    /// The other side did not answer in time.
    Timeout,
    /// The work was called off.
    Cancelled,
    /// A Codex process that may write credentials is running.
    WriterRunning,
    /// An unfinished credential transaction has to wait.
    RecoveryDeferred,
}

/// What a failure says.
pub enum ErrorView {
    Message(Seq<char>),
    Io { path: Seq<char>, detail: Seq<char> },
    Json { path: Seq<char>, detail: Seq<char> },
    InvalidAuth(Seq<char>),
    Protocol(Seq<char>),
    WebSocket(Seq<char>),
    Timeout,
    Cancelled,
    WriterRunning,
    RecoveryDeferred,
}

impl View for Error {
    type V = ErrorView;

    open spec fn view(&self) -> ErrorView {
        match self {
            Error::Message(text) => ErrorView::Message(text@),
            Error::Io { path, detail } => ErrorView::Io { path: path@, detail: detail@ },
            Error::Json { path, detail } => ErrorView::Json { path: path@, detail: detail@ },
            Error::InvalidAuth(path) => ErrorView::InvalidAuth(path@),
            Error::Protocol(text) => ErrorView::Protocol(text@),
            Error::WebSocket(text) => ErrorView::WebSocket(text@),
            Error::Timeout => ErrorView::Timeout,
            Error::Cancelled => ErrorView::Cancelled,
            Error::WriterRunning => ErrorView::WriterRunning,
            Error::RecoveryDeferred => ErrorView::RecoveryDeferred,
        }
    }
}

impl ErrorView {
    /// The sentence shown for a failure.
    pub open spec fn text(self) -> Seq<char> {
        match self {
            ErrorView::Message(text) => text,
            ErrorView::Io { path, detail } => path + ": "@ + detail,
            ErrorView::Json { path, detail } => path + ": invalid JSON: "@ + detail,
            ErrorView::InvalidAuth(path) => path
                + " does not hold ChatGPT OAuth credentials."@,
            ErrorView::Protocol(text) => "app-server protocol error: "@ + text,
            ErrorView::WebSocket(text) => "WebSocket error: "@ + text,
            ErrorView::Timeout => "timed out"@,
            ErrorView::Cancelled => "cancelled"@,
            ErrorView::WriterRunning => "A Codex process is running; stop it and try again."@,
            ErrorView::RecoveryDeferred => "Credential recovery has to wait until Codex stops."@,
        }
    }

    /// The one-word kind of a failure that a quota reading is marked with.
    pub open spec fn kind(self) -> Seq<char> {
        match self {
            ErrorView::Timeout => "Timeout"@,
            ErrorView::Protocol(_) => "Protocol"@,
            ErrorView::Io { .. } => "Io"@,
            _ => "Error"@,
        }
    }
}

impl Clone for Error {
    fn clone(&self) -> (r: Error)
        ensures
            r == *self,
    {
        match self {
            Error::Message(text) => Error::Message(text.clone()),
            Error::Io { path, detail } => Error::Io { path: path.clone(), detail: detail.clone() },
            Error::Json { path, detail } => Error::Json {
                path: path.clone(),
                detail: detail.clone(),
            },
            Error::InvalidAuth(path) => Error::InvalidAuth(path.clone()),
            Error::Protocol(text) => Error::Protocol(text.clone()),
            Error::WebSocket(text) => Error::WebSocket(text.clone()),
            Error::Timeout => Error::Timeout,
            Error::Cancelled => Error::Cancelled,
            Error::WriterRunning => Error::WriterRunning,
            Error::RecoveryDeferred => Error::RecoveryDeferred,
        }
    }
}

impl Error {
    /// A failure that is a finished sentence.
    pub fn message(text: &str) -> (r: Error)
        ensures
            r@ == ErrorView::Message(text@),
    {
        Error::Message(text.to_owned())
    }

    /// A failure to keep to a protocol.
    pub fn protocol(text: &str) -> (r: Error)
        ensures
            r@ == ErrorView::Protocol(text@),
    {
        Error::Protocol(text.to_owned())
    }

    /// The sentence shown for a failure.
    pub fn text(&self) -> (r: String)
        ensures
            r@ == self@.text(),
    {
        match self {
            Error::Message(text) => text.clone(),
            Error::Io { path, detail } => path.clone().concat(": ").concat(detail),
            Error::Json { path, detail } => path.clone().concat(": invalid JSON: ").concat(detail),
            Error::InvalidAuth(path) => path.clone().concat(
                " does not hold ChatGPT OAuth credentials.",
            ),
            Error::Protocol(text) => "app-server protocol error: ".to_owned().concat(text),
            Error::WebSocket(text) => "WebSocket error: ".to_owned().concat(text),
            Error::Timeout => "timed out".to_owned(),
            Error::Cancelled => "cancelled".to_owned(),
            Error::WriterRunning => "A Codex process is running; stop it and try again.".to_owned(),
            Error::RecoveryDeferred => "Credential recovery has to wait until Codex stops.".to_owned(),
        }
    }
}

/// The one-word kind of a failure that a quota reading is marked with.
pub fn error_kind(error: &Error) -> (r: &'static str)
    ensures
        r@ == error@.kind(),
{
    match error {
        Error::Timeout => "Timeout",
        Error::Protocol(_) => "Protocol",
        Error::Io { .. } => "Io",
        _ => "Error",
    }
}

}
