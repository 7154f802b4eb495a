//! What can go wrong around the library, and how it is worded.

use vstd::prelude::*;
use vstd::string::StringExecFns;

verus! {

/// A failure of one of the three things a node leans on. Each variant holds
/// the cause in words.
#[derive(Debug)]
pub enum Error {
    /// Connecting, reading or writing failed.
    Tcp(String),
    /// The channel between the connection loops and the clipboard loop broke.
    Chn(String),
    /// The clipboard could not be read or written.
    Clp(String),
}

impl Error {
    /// A clipboard failure with the given cause.
    pub fn new_clip(e: String) -> (error: Self)
        ensures
            error == Error::Clp(e),
    {
        Error::Clp(e)
    }

    /// The cause in words.
    pub open spec fn cause(&self) -> Seq<char> {
        match self {
            Error::Tcp(e) => e@,
            Error::Chn(e) => e@,
            Error::Clp(e) => e@,
        }
    }

    /// What the message starts with.
    pub open spec fn heading(&self) -> Seq<char> {
        match self {
            Error::Tcp(_) => "TcpStream error: "@,
            Error::Chn(_) => "Channel error: "@,
            Error::Clp(_) => "Clipboard error: "@,
        }
    }

    /// The message: the heading, the cause and a closing bracket.
    pub open spec fn message_text(&self) -> Seq<char> {
        self.heading() + self.cause() + ")"@
    }

    /// The message for the log.
    pub fn message(&self) -> (text: String)
        ensures
            text@ == self.message_text(),
    {
        let (heading, cause) = match self {
            Error::Tcp(e) => ("TcpStream error: ", e),
            Error::Chn(e) => ("Channel error: ", e),
            Error::Clp(e) => ("Clipboard error: ", e),
        };
        let mut text = String::from_str(heading);
        text.append(cause.as_str());
        text.append(")");
        text
    }
}

} // verus!
