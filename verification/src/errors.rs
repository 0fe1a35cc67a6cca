use vstd::prelude::*;

verus! {

// ---------------------------------------------------------------------------
// Error values shared by the servers.  None of these types can implement the
// standard formatting traits under verification, so each offers a `to_string`
// method whose exact output is part of its contract.
// ---------------------------------------------------------------------------

/// Error taxonomy of the asynchronous server.
pub enum ErrorType {
    SocketError(String),
    ReadError(String),
    WriteError(String),
    BadRequest(String),
    NotFound(String),
    InternalServerError(String),
    ProtocolError(String),
    ConnectionError(String),
}

impl ErrorType {
    /// The display form: a fixed prefix naming the kind, then the message.
    pub open spec fn display_seq(&self) -> Seq<char> {
        match self {
            ErrorType::SocketError(m) => "Error with socket: "@ + m@,
            ErrorType::ReadError(m) => "Error reading file: "@ + m@,
            ErrorType::WriteError(m) => "Error writing to file: "@ + m@,
            ErrorType::BadRequest(m) => "Error bad request: "@ + m@,
            ErrorType::NotFound(m) => "Error resource not found: "@ + m@,
            ErrorType::InternalServerError(m) => "Internal Server Error: "@ + m@,
            ErrorType::ProtocolError(m) => "Protocol Error: "@ + m@,
            ErrorType::ConnectionError(m) => "Connection Error: "@ + m@,
        }
    }

    /// Renders the error as its display form.
    pub fn to_string(&self) -> (r: String)
        ensures
            r@ == self.display_seq(),
    {
        match self {
            ErrorType::SocketError(m) => {
                let mut s = String::from_str("Error with socket: ");
                s.append(m.as_str());
                s
            },
            ErrorType::ReadError(m) => {
                let mut s = String::from_str("Error reading file: ");
                s.append(m.as_str());
                s
            },
            ErrorType::WriteError(m) => {
                let mut s = String::from_str("Error writing to file: ");
                s.append(m.as_str());
                s
            },
            ErrorType::BadRequest(m) => {
                let mut s = String::from_str("Error bad request: ");
                s.append(m.as_str());
                s
            },
            ErrorType::NotFound(m) => {
                let mut s = String::from_str("Error resource not found: ");
                s.append(m.as_str());
                s
            },
            ErrorType::InternalServerError(m) => {
                let mut s = String::from_str("Internal Server Error: ");
                s.append(m.as_str());
                s
            },
            ErrorType::ProtocolError(m) => {
                let mut s = String::from_str("Protocol Error: ");
                s.append(m.as_str());
                s
            },
            ErrorType::ConnectionError(m) => {
                let mut s = String::from_str("Connection Error: ");
                s.append(m.as_str());
                s
            },
        }
    }
}

/// Socket failure report of the synchronous server.
#[derive(Debug)]
pub struct SocketError {
    pub msg: String,
}

impl SocketError {
    /// The display form.
    pub open spec fn display_seq(&self) -> Seq<char> {
        "Error with socket: "@ + self.msg@
    }

    /// Renders the error as its display form.
    pub fn to_string(&self) -> (r: String)
        ensures
            r@ == self.display_seq(),
    {
        let mut s = String::from_str("Error with socket: ");
        s.append(self.msg.as_str());
        s
    }
}

impl Clone for SocketError {
    fn clone(&self) -> (r: Self)
        ensures
            r.msg@ == self.msg@,
    {
        SocketError { msg: self.msg.clone() }
    }
}

/// Error report of the HTTP server.
#[derive(Debug)]
pub struct ServerError {
    pub message: String,
}

impl ServerError {
    /// The display form.
    pub open spec fn display_seq(&self) -> Seq<char> {
        "Error: "@ + self.message@
    }

    /// Renders the error as its display form.
    pub fn to_string(&self) -> (r: String)
        ensures
            r@ == self.display_seq(),
    {
        let mut s = String::from_str("Error: ");
        s.append(self.message.as_str());
        s
    }
}

/// Error report of the key-value protocol responder.
#[derive(Debug)]
pub struct Error {
    pub message: String,
}

impl Error {
    /// The display form.
    pub open spec fn display_seq(&self) -> Seq<char> {
        "Error: "@ + self.message@
    }

    /// Renders the error as its display form.
    pub fn to_string(&self) -> (r: String)
        ensures
            r@ == self.display_seq(),
    {
        let mut s = String::from_str("Error: ");
        s.append(self.message.as_str());
        s
    }
}

impl Clone for Error {
    fn clone(&self) -> (r: Self)
        ensures
            r.message@ == self.message@,
    {
        Error { message: self.message.clone() }
    }
}

} // verus!
