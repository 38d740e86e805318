//! Errors of the fork-server protocol.

use crate::text::hex_byte;
use crate::text::hex_byte_text;
use crate::text::io_error_text;
use crate::text::utf8_error_text;
use crate::vl_fork_server::message::Message;
use vstd::prelude::*;
use vstd::string::StringExecFns;

verus! {

/// What can go wrong while talking to the fork server or its forks.
#[derive(Debug)]
pub enum ProtocolError {
    Io(std::io::Error),
    Utf8(std::string::FromUtf8Error),
    InvalidMessageVariant(u8),
    StringOverflow,
    BytearrayOverflow,
    PlatformConvert(&'static str),
    UnexpectedMessage(Message),
    Other(String),
}

pub type ProtocolResult<T> = Result<T, ProtocolError>;

impl ProtocolError {
    /// An error that carries only a description.
    pub fn other(msg: &str) -> (e: Self)
        ensures
            e matches ProtocolError::Other(s) && s@ == msg@,
    {
        ProtocolError::Other(String::from_str(msg))
    }

    /// The text of the error, for display.
    pub fn describe(&self) -> (text: String)
        ensures
            self is Io ==> exists|d: Seq<char>| text@ == "IOError: "@ + d,
            self is Utf8 ==> exists|d: Seq<char>| text@ == "Utf8: "@ + d,
            self matches ProtocolError::InvalidMessageVariant(b) ==> text@
                == "Invalid message variant: 0x"@ + hex_byte(*b),
            self is StringOverflow ==> text@ == "Given string is too large to be sent"@,
            self is BytearrayOverflow ==> text@ == "Given bytearray is too large to be sent"@,
            self matches ProtocolError::PlatformConvert(t) ==> text@ == "Platform is unable to convert "@
                + t@ + " to usize"@,
            self matches ProtocolError::UnexpectedMessage(m) ==> text@ == "Message "@ + kind_name(
                m@.kind(),
            ) + " was not expected"@,
            self matches ProtocolError::Other(s) ==> text@ == s@,
    {
        match self {
            ProtocolError::Io(err) => {
                let mut text = String::from_str("IOError: ");
                let shown = io_error_text(err);
                text.append(shown.as_str());
                text
            },
            ProtocolError::Utf8(err) => {
                let mut text = String::from_str("Utf8: ");
                let shown = utf8_error_text(err);
                text.append(shown.as_str());
                text
            },
            ProtocolError::InvalidMessageVariant(b) => {
                let mut text = String::from_str("Invalid message variant: 0x");
                let digits = hex_byte_text(*b);
                text.append(digits.as_str());
                text
            },
            ProtocolError::StringOverflow => String::from_str("Given string is too large to be sent"),
            ProtocolError::BytearrayOverflow => String::from_str(
                "Given bytearray is too large to be sent",
            ),
            ProtocolError::PlatformConvert(t) => {
                let mut text = String::from_str("Platform is unable to convert ");
                text.append(t);
                text.append(" to usize");
                text
            },
            ProtocolError::UnexpectedMessage(m) => {
                let mut text = String::from_str("Message ");
                text.append(m.variant().name());
                text.append(" was not expected");
                text
            },
            ProtocolError::Other(s) => s.clone(),
        }
    }
}

/// The name of a kind of message, as `Debug` writes it.
pub open spec fn kind_name(v: crate::vl_fork_server::message::MessageVariant) -> Seq<char> {
    match v {
        crate::vl_fork_server::message::MessageVariant::Fail => "Fail"@,
        crate::vl_fork_server::message::MessageVariant::Ack => "Ack"@,
        crate::vl_fork_server::message::MessageVariant::Exit => "Exit"@,
        crate::vl_fork_server::message::MessageVariant::Fork => "Fork"@,
        crate::vl_fork_server::message::MessageVariant::Data => "Data"@,
        crate::vl_fork_server::message::MessageVariant::InputWidth => "InputWidth"@,
    }
}

impl From<std::io::Error> for ProtocolError {
    fn from(value: std::io::Error) -> Self {
        ProtocolError::Io(value)
    }
}

impl vstd::std_specs::convert::FromSpecImpl<std::io::Error> for ProtocolError {
    open spec fn obeys_from_spec() -> bool {
        true
    }

    open spec fn from_spec(value: std::io::Error) -> Self {
        ProtocolError::Io(value)
    }
}

impl From<std::string::FromUtf8Error> for ProtocolError {
    fn from(value: std::string::FromUtf8Error) -> Self {
        ProtocolError::Utf8(value)
    }
}

impl vstd::std_specs::convert::FromSpecImpl<std::string::FromUtf8Error> for ProtocolError {
    open spec fn obeys_from_spec() -> bool {
        true
    }

    open spec fn from_spec(value: std::string::FromUtf8Error) -> Self {
        ProtocolError::Utf8(value)
    }
}

impl From<&'static str> for ProtocolError {
    fn from(value: &'static str) -> (e: Self)
        ensures
            e matches ProtocolError::Other(s) && s@ == value@,
    {
        ProtocolError::Other(String::from_str(value))
    }
}

/// The error holds the text as `Other`; that `String` is not a value that a spec function can
/// name from the `&str`, so the result is stated by `from` itself.
impl vstd::std_specs::convert::FromSpecImpl<&'static str> for ProtocolError {
    open spec fn obeys_from_spec() -> bool {
        false
    }

    open spec fn from_spec(value: &'static str) -> Self {
        vstd::pervasive::arbitrary()
    }
}

impl From<String> for ProtocolError {
    fn from(value: String) -> Self {
        ProtocolError::Other(value)
    }
}

impl vstd::std_specs::convert::FromSpecImpl<String> for ProtocolError {
    open spec fn obeys_from_spec() -> bool {
        true
    }

    open spec fn from_spec(value: String) -> Self {
        ProtocolError::Other(value)
    }
}

} // verus!
