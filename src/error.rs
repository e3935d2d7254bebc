//! The library's error taxonomy.
use vstd::prelude::*;

verus! {

/// What an error or info token reports. Texts are UTF-16 code units.
#[derive(Debug, Clone, PartialEq, Eq)]
pub struct ServerMessage {
    pub number: u32,
    pub state: u8,
    pub class: u8,
    pub message: Vec<u16>,
    pub server: Vec<u16>,
    pub procedure: Vec<u16>,
    pub line: u32,
}

/// The mathematical value of a `ServerMessage`.
pub struct ServerMessageView {
    pub number: u32,
    pub state: u8,
    pub class: u8,
    pub message: Seq<u16>,
    pub server: Seq<u16>,
    pub procedure: Seq<u16>,
    pub line: u32,
}

impl View for ServerMessage {
    type V = ServerMessageView;

    open spec fn view(&self) -> ServerMessageView {
        ServerMessageView {
            number: self.number,
            state: self.state,
            class: self.class,
            message: self.message@,
            server: self.server@,
            procedure: self.procedure@,
            line: self.line,
        }
    }
}

fn copy_units(v: &Vec<u16>) -> (r: Vec<u16>)
    ensures
        r@ == v@,
{
    let mut r: Vec<u16> = Vec::new();
    let mut i: usize = 0;
    while i < v.len()
        invariant
            i <= v@.len(),
            r@ == v@.subrange(0, i as int),
        decreases v@.len() - i,
    {
        r.push(v[i]);
        assert(v@.subrange(0, i + 1) =~= v@.subrange(0, i as int).push(v@[i as int]));
        i += 1;
    }
    assert(v@.subrange(0, i as int) =~= v@);
    r
}

impl ServerMessage {
    /// A copy with the same content.
    pub fn copy(&self) -> (r: ServerMessage)
        ensures
            r@ == self@,
    {
        ServerMessage {
            number: self.number,
            state: self.state,
            class: self.class,
            message: copy_units(&self.message),
            server: copy_units(&self.server),
            procedure: copy_units(&self.procedure),
            line: self.line,
        }
    }
}

/// Why an operation failed.
#[derive(Debug, Clone, PartialEq, Eq)]
pub enum Error {
    /// The underlying byte stream failed; the session cannot go on.
    Transport,
    /// Malformed or unexpected bytes or tokens from the server.
    ProtocolViolation,
    /// An error token sent by the server.
    Server(ServerMessage),
    /// A value cannot be written as its declared SQL type.
    Conversion,
    /// A bulk-load row does not match the columns kept for the load.
    BulkInput,
    /// The session is in an unexpected but recoverable state.
    Protocol(String),
}

/// The mathematical value of an `Error`.
pub enum ErrorView {
    Transport,
    ProtocolViolation,
    Server(ServerMessageView),
    Conversion,
    BulkInput,
    Protocol(Seq<char>),
}

impl View for Error {
    type V = ErrorView;

    open spec fn view(&self) -> ErrorView {
        match self {
            Error::Transport => ErrorView::Transport,
            Error::ProtocolViolation => ErrorView::ProtocolViolation,
            Error::Server(m) => ErrorView::Server(m@),
            Error::Conversion => ErrorView::Conversion,
            Error::BulkInput => ErrorView::BulkInput,
            Error::Protocol(s) => ErrorView::Protocol(s@),
        }
    }
}

} // verus!
