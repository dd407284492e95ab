//! Errors that may come up while running minikv: user errors, server errors
//! and errors in the communication between client and server.
use vstd::prelude::*;

verus! {

#[derive(Debug)]
pub enum KvErrores {
    // recoverable
    NotFound,
    ExtraArgument,
    MissingArgument,
    UnknownCommand,
    // not recoverable
    IoError(String),
    ConnectionClosed,
    Timeout,
    ClientSocketBinding,
    InvalidArgs,
    InvalidPuerto,
    EOF,
    EMPTY,
    InvalidDataFile,
    InvalidLogFile,
    /// A specific error, carrying its own message.
    Error(String),
}

impl KvErrores {
    /// Whether the client may go on after this error.
    pub open spec fn recuperable(&self) -> bool {
        ||| self is NotFound
        ||| self is ExtraArgument
        ||| self is MissingArgument
        ||| self is UnknownCommand
    }

    /// The text that describes the error.
    pub open spec fn texto(&self) -> Seq<char> {
        match self {
            KvErrores::NotFound => "Not Found"@,
            KvErrores::ExtraArgument => "EXTRA ARGUMENT"@,
            KvErrores::MissingArgument => "MISSING ARGUMENT"@,
            KvErrores::UnknownCommand => "UNKNOWN COMMAND"@,
            KvErrores::IoError(_) => "IoError"@,
            KvErrores::ConnectionClosed => "CONNECTION CLOSED"@,
            KvErrores::Timeout => "Timeout"@,
            KvErrores::ClientSocketBinding => "CLIENT SOCKET BINDING"@,
            KvErrores::InvalidArgs => "INVALID ARGS"@,
            KvErrores::InvalidPuerto => "Invalid Puerto"@,
            KvErrores::EOF => "EOF"@,
            KvErrores::EMPTY => "EMPTY"@,
            KvErrores::InvalidDataFile => "INVALID DATA FILE"@,
            KvErrores::InvalidLogFile => "INVALID LOG FILE"@,
            KvErrores::Error(mensaje) => mensaje@,
        }
    }

    pub fn es_recuperable(&self) -> (r: bool)
        ensures
            r == self.recuperable(),
    {
        match self {
            KvErrores::NotFound | KvErrores::ExtraArgument | KvErrores::MissingArgument
            | KvErrores::UnknownCommand => true,
            _ => false,
        }
    }

    pub fn to_str(&self) -> (r: String)
        ensures
            r@ == self.texto(),
    {
        match self {
            KvErrores::NotFound => String::from_str("Not Found"),
            KvErrores::ExtraArgument => String::from_str("EXTRA ARGUMENT"),
            KvErrores::MissingArgument => String::from_str("MISSING ARGUMENT"),
            KvErrores::UnknownCommand => String::from_str("UNKNOWN COMMAND"),
            KvErrores::IoError(_) => String::from_str("IoError"),
            KvErrores::ConnectionClosed => String::from_str("CONNECTION CLOSED"),
            KvErrores::Timeout => String::from_str("Timeout"),
            KvErrores::ClientSocketBinding => String::from_str("CLIENT SOCKET BINDING"),
            KvErrores::InvalidArgs => String::from_str("INVALID ARGS"),
            KvErrores::InvalidPuerto => String::from_str("Invalid Puerto"),
            KvErrores::EOF => String::from_str("EOF"),
            KvErrores::EMPTY => String::from_str("EMPTY"),
            KvErrores::InvalidDataFile => String::from_str("INVALID DATA FILE"),
            KvErrores::InvalidLogFile => String::from_str("INVALID LOG FILE"),
            KvErrores::Error(mensaje) => mensaje.clone(),
        }
    }
}

} // verus!
