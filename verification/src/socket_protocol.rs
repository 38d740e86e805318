//! The first version of the fork-server protocol: a message channel over a byte stream, and the
//! wire format of its messages (strings behind a 16-bit length).

use crate::text::hex_byte;
use crate::text::hex_byte_text;
use crate::text::io_error_text;
use crate::text::utf8_error_text;
use crate::wire::emit_bytes16;
use crate::wire::emit_bytes32;
use crate::wire::emit_then;
use crate::wire::emitted;
use crate::wire::lemma_bytes16_prefix;
use crate::wire::lemma_bytes16_roundtrip;
use crate::wire::lemma_bytes32_prefix;
use crate::wire::lemma_bytes32_roundtrip;
use crate::wire::lemma_text_bytes;
use crate::wire::lemma_u32_roundtrip;
use crate::wire::parse_bytes16;
use crate::wire::parse_bytes32;
use crate::wire::parse_u16;
use crate::wire::parse_u32;
use crate::wire::parse_u64;
use crate::wire::parse_u8;
use crate::wire::parsed_text;
use crate::wire::read_bytes16;
use crate::wire::read_bytes32;
use crate::wire::read_u16;
use crate::wire::read_u32;
use crate::wire::read_u64;
use crate::wire::read_u8;
use crate::wire::string_from_utf8;
use crate::wire::unexpected_eof_error;
use crate::wire::write_bytes16;
use crate::wire::write_bytes32;
use crate::wire::write_u16;
use crate::wire::write_u32;
use crate::wire::write_u64;
use crate::wire::write_u8;
use crate::wire::Emitted;
use crate::wire::Overflow;
use crate::wire::Parsed;
use vstd::bytes::*;
use vstd::prelude::*;
use vstd::string::StringExecFns;
use vstd::utf8::*;

verus! {

/// What can go wrong while reading or writing messages.
#[derive(Debug)]
pub enum ProtocolError {
    Io(std::io::Error),
    Utf8(std::string::FromUtf8Error),
    InvalidMessageVariant(u8),
    StringOverflow,
    BytearrayOverflow,
    PlatformConvert(&'static str),
    Other(String),
}

pub type ProtocolResult<T> = Result<T, ProtocolError>;

impl ProtocolError {
    /// An error that carries only a description.
    pub fn other(msg: &str) -> (e: Self)
        ensures
            e matches ProtocolError::Other(s) && s@ == msg@,
    {
        ProtocolError::Other(String::from_str(msg))
    }

    /// The text of the error, for display.
    pub fn describe(&self) -> (text: String)
        ensures
            self is Io ==> exists|d: Seq<char>| text@ == "IOError: "@ + d,
            self is Utf8 ==> exists|d: Seq<char>| text@ == "Utf8: "@ + d,
            self matches ProtocolError::InvalidMessageVariant(b) ==> text@
                == "Invalid message variant: 0x"@ + hex_byte(*b),
            self is StringOverflow ==> text@ == "Given string is too large to be sent"@,
            self is BytearrayOverflow ==> text@ == "Given bytearray is too large to be sent"@,
            self matches ProtocolError::PlatformConvert(t) ==> text@ == "Platform is unable to convert "@
                + t@ + " to usize"@,
            self matches ProtocolError::Other(s) ==> text@ == s@,
    {
        match self {
            ProtocolError::Io(err) => {
                let mut text = String::from_str("IOError: ");
                let shown = io_error_text(err);
                text.append(shown.as_str());
                text
            },
            ProtocolError::Utf8(err) => {
                let mut text = String::from_str("Utf8: ");
                let shown = utf8_error_text(err);
                text.append(shown.as_str());
                text
            },
            ProtocolError::InvalidMessageVariant(b) => {
                let mut text = String::from_str("Invalid message variant: 0x");
                let digits = hex_byte_text(*b);
                text.append(digits.as_str());
                text
            },
            ProtocolError::StringOverflow => String::from_str("Given string is too large to be sent"),
            ProtocolError::BytearrayOverflow => String::from_str(
                "Given bytearray is too large to be sent",
            ),
            ProtocolError::PlatformConvert(t) => {
                let mut text = String::from_str("Platform is unable to convert ");
                text.append(t);
                text.append(" to usize");
                text
            },
            ProtocolError::Other(s) => s.clone(),
        }
    }
}

impl From<std::io::Error> for ProtocolError {
    fn from(value: std::io::Error) -> Self {
        ProtocolError::Io(value)
    }
}

impl vstd::std_specs::convert::FromSpecImpl<std::io::Error> for ProtocolError {
    open spec fn obeys_from_spec() -> bool {
        true
    }

    open spec fn from_spec(value: std::io::Error) -> Self {
        ProtocolError::Io(value)
    }
}

impl From<std::string::FromUtf8Error> for ProtocolError {
    fn from(value: std::string::FromUtf8Error) -> Self {
        ProtocolError::Utf8(value)
    }
}

impl vstd::std_specs::convert::FromSpecImpl<std::string::FromUtf8Error> for ProtocolError {
    open spec fn obeys_from_spec() -> bool {
        true
    }

    open spec fn from_spec(value: std::string::FromUtf8Error) -> Self {
        ProtocolError::Utf8(value)
    }
}

impl From<&'static str> for ProtocolError {
    fn from(value: &'static str) -> (e: Self)
        ensures
            e matches ProtocolError::Other(s) && s@ == value@,
    {
        ProtocolError::Other(String::from_str(value))
    }
}

/// The error holds the text as `Other`; that `String` is not a value that a spec function can
/// name from the `&str`, so the result is stated by `from` itself.
impl vstd::std_specs::convert::FromSpecImpl<&'static str> for ProtocolError {
    open spec fn obeys_from_spec() -> bool {
        false
    }

    open spec fn from_spec(value: &'static str) -> Self {
        vstd::pervasive::arbitrary()
    }
}

impl From<String> for ProtocolError {
    fn from(value: String) -> Self {
        ProtocolError::Other(value)
    }
}

impl vstd::std_specs::convert::FromSpecImpl<String> for ProtocolError {
    open spec fn obeys_from_spec() -> bool {
        true
    }

    open spec fn from_spec(value: String) -> Self {
        ProtocolError::Other(value)
    }
}

/// A message of the protocol.
pub enum Message {
    Fail { msg: String },
    Ack,
    Exit,
    Fork { socket_path: String },
    Data { content: Vec<u8> },
    InputWidth { width: u32 },
}

/// A message as plain values.
pub enum MessageView {
    Fail { msg: Seq<char> },
    Ack,
    Exit,
    Fork { socket_path: Seq<char> },
    Data { content: Seq<u8> },
    InputWidth { width: u32 },
}

impl View for Message {
    type V = MessageView;

    open spec fn view(&self) -> MessageView {
        match self {
            Message::Fail { msg } => MessageView::Fail { msg: msg@ },
            Message::Ack => MessageView::Ack,
            Message::Exit => MessageView::Exit,
            Message::Fork { socket_path } => MessageView::Fork { socket_path: socket_path@ },
            Message::Data { content } => MessageView::Data { content: content@ },
            Message::InputWidth { width } => MessageView::InputWidth { width: *width },
        }
    }
}

/// The kind of a message, which its first byte names.
#[derive(Clone, Copy)]
enum MessageVariant {
    Fail,
    Ack,
    Exit,
    Fork,
    Data,
    InputWidth,
}

/// A string on the wire: its UTF-8 bytes after a 16-bit length.
pub open spec fn parse_text(s: Seq<u8>) -> Parsed<Seq<char>> {
    parsed_text(parse_bytes16(s))
}

/// Wraps a decoded field into a message, counting the variant byte before it.
pub open spec fn parsed_message<T>(p: Parsed<T>, wrap: spec_fn(T) -> MessageView) -> Parsed<
    MessageView,
> {
    match p {
        Parsed::Done(v, k) => Parsed::Done(wrap(v), k + 1),
        Parsed::Incomplete => Parsed::Incomplete,
        Parsed::BadVariant(b) => Parsed::BadVariant(b),
        Parsed::BadUtf8 => Parsed::BadUtf8,
    }
}

/// The message at the front of `s`: a variant byte, then the message's fields in order.
pub open spec fn parse_message(s: Seq<u8>) -> Parsed<MessageView> {
    if s.len() == 0 {
        Parsed::Incomplete
    } else {
        let body = s.skip(1);
        if s[0] == 0 {
            parsed_message(parse_text(body), |msg: Seq<char>| MessageView::Fail { msg })
        } else if s[0] == 1 {
            Parsed::Done(MessageView::Ack, 1)
        } else if s[0] == 2 {
            Parsed::Done(MessageView::Exit, 1)
        } else if s[0] == 16 {
            parsed_message(
                parse_text(body),
                |socket_path: Seq<char>| MessageView::Fork { socket_path },
            )
        } else if s[0] == 17 {
            parsed_message(parse_bytes32(body), |content: Seq<u8>| MessageView::Data { content })
        } else if s[0] == 18 {
            parsed_message(parse_u32(body), |width: u32| MessageView::InputWidth { width })
        } else {
            Parsed::BadVariant(s[0])
        }
    }
}

/// What writing a string does: its UTF-8 bytes after a 16-bit length.
pub open spec fn emit_text(s: Seq<char>) -> Emitted {
    emit_bytes16(encode_utf8(s), Overflow::String)
}

/// What writing a message does: its variant byte, then its fields in order.
pub open spec fn emit_message(m: MessageView) -> Emitted {
    match m {
        MessageView::Fail { msg } => emit_then(emitted(seq![0u8]), emit_text(msg)),
        MessageView::Ack => emitted(seq![1u8]),
        MessageView::Exit => emitted(seq![2u8]),
        MessageView::Fork { socket_path } => emit_then(emitted(seq![16u8]), emit_text(socket_path)),
        MessageView::Data { content } => emit_then(
            emitted(seq![17u8]),
            emit_bytes32(content, Overflow::Bytearray),
        ),
        MessageView::InputWidth { width } => emitted(seq![18u8] + spec_u32_to_le_bytes(width)),
    }
}

/// `r` is what reading the value that `p` describes returns, and `after` is what is left of
/// `before`: the bytes after the value when it was read whole.
pub open spec fn decodes_to<T, V>(
    p: Parsed<V>,
    r: ProtocolResult<T>,
    view: spec_fn(T) -> V,
    before: Seq<u8>,
    after: Seq<u8>,
) -> bool {
    match p {
        Parsed::Done(v, k) => r matches Ok(x) && view(x) == v && after == before.skip(k),
        Parsed::Incomplete => r matches Err(ProtocolError::Io(_)),
        Parsed::BadVariant(b) => r matches Err(ProtocolError::InvalidMessageVariant(c)) && c == b,
        Parsed::BadUtf8 => r matches Err(ProtocolError::Utf8(_)),
    }
}

/// `r` is what writing returns when it writes what `e` describes, and `after` is `before` with
/// the written bytes appended.
pub open spec fn encodes_as(e: Emitted, r: ProtocolResult<()>, before: Seq<u8>, after: Seq<u8>) -> bool {
    &&& after == before + e.bytes
    &&& match e.failure {
        None => r is Ok,
        Some(Overflow::String) => r matches Err(ProtocolError::StringOverflow),
        Some(Overflow::Bytearray) => r matches Err(ProtocolError::BytearrayOverflow),
    }
}

/// Reading a value from the front of a byte slice, which the read advances.
pub trait FromReader: Sized {
    fn from_reader(reader: &mut &[u8]) -> ProtocolResult<Self>;
}

/// Appending a value's wire form to a byte vector.
pub trait ToWriter: Sized {
    fn to_writer(&self, writer: &mut Vec<u8>) -> ProtocolResult<()>;
}

impl FromReader for u8 {
    fn from_reader(reader: &mut &[u8]) -> (r: ProtocolResult<u8>)
        ensures
            decodes_to(parse_u8(old(reader)@), r, |x: u8| x, old(reader)@, final(reader)@),
    {
        match read_u8(reader) {
            Some(v) => Ok(v),
            None => Err(ProtocolError::Io(unexpected_eof_error())),
        }
    }
}

impl FromReader for u16 {
    fn from_reader(reader: &mut &[u8]) -> (r: ProtocolResult<u16>)
        ensures
            decodes_to(parse_u16(old(reader)@), r, |x: u16| x, old(reader)@, final(reader)@),
    {
        match read_u16(reader) {
            Some(v) => Ok(v),
            None => Err(ProtocolError::Io(unexpected_eof_error())),
        }
    }
}

impl FromReader for u32 {
    fn from_reader(reader: &mut &[u8]) -> (r: ProtocolResult<u32>)
        ensures
            decodes_to(parse_u32(old(reader)@), r, |x: u32| x, old(reader)@, final(reader)@),
    {
        match read_u32(reader) {
            Some(v) => Ok(v),
            None => Err(ProtocolError::Io(unexpected_eof_error())),
        }
    }
}

impl FromReader for u64 {
    fn from_reader(reader: &mut &[u8]) -> (r: ProtocolResult<u64>)
        ensures
            decodes_to(parse_u64(old(reader)@), r, |x: u64| x, old(reader)@, final(reader)@),
    {
        match read_u64(reader) {
            Some(v) => Ok(v),
            None => Err(ProtocolError::Io(unexpected_eof_error())),
        }
    }
}

impl FromReader for String {
    fn from_reader(reader: &mut &[u8]) -> (r: ProtocolResult<String>)
        ensures
            decodes_to(parse_text(old(reader)@), r, |s: String| s@, old(reader)@, final(reader)@),
    {
        let bytes = match read_bytes16(reader) {
            Some(b) => b,
            None => return Err(ProtocolError::Io(unexpected_eof_error())),
        };
        let ghost raw = bytes@;
        match string_from_utf8(bytes) {
            Ok(s) => {
                proof {
                    lemma_text_bytes(s@);
                }
                Ok(s)
            },
            Err(e) => Err(ProtocolError::Utf8(e)),
        }
    }
}

impl FromReader for Vec<u8> {
    fn from_reader(reader: &mut &[u8]) -> (r: ProtocolResult<Vec<u8>>)
        ensures
            decodes_to(
                parse_bytes32(old(reader)@),
                r,
                |v: Vec<u8>| v@,
                old(reader)@,
                final(reader)@,
            ),
    {
        match read_bytes32(reader) {
            Some(b) => Ok(b),
            None => Err(ProtocolError::Io(unexpected_eof_error())),
        }
    }
}

impl MessageVariant {
    /// The kind of message that byte `v` names; `Err(v)` when it names none.
    fn try_from_byte(v: u8) -> (r: Result<MessageVariant, u8>)
        ensures
            r is Err <==> !(v == 0 || v == 1 || v == 2 || v == 16 || v == 17 || v == 18),
            r matches Err(b) ==> b == v,
            r matches Ok(k) ==> k.to_byte_spec() == v,
    {
        match v {
            0 => Ok(MessageVariant::Fail),
            1 => Ok(MessageVariant::Ack),
            2 => Ok(MessageVariant::Exit),
            16 => Ok(MessageVariant::Fork),
            17 => Ok(MessageVariant::Data),
            18 => Ok(MessageVariant::InputWidth),
            _ => Err(v),
        }
    }

    pub closed spec fn to_byte_spec(self) -> u8 {
        match self {
            MessageVariant::Fail => 0,
            MessageVariant::Ack => 1,
            MessageVariant::Exit => 2,
            MessageVariant::Fork => 16,
            MessageVariant::Data => 17,
            MessageVariant::InputWidth => 18,
        }
    }
}

impl ToWriter for MessageVariant {
    fn to_writer(&self, writer: &mut Vec<u8>) -> (r: ProtocolResult<()>)
        ensures
            r is Ok,
            final(writer)@ == old(writer)@ + seq![self.to_byte_spec()],
    {
        let variant = match self {
            MessageVariant::Fail => 0u8,
            MessageVariant::Ack => 1u8,
            MessageVariant::Exit => 2u8,
            MessageVariant::Fork => 16u8,
            MessageVariant::Data => 17u8,
            MessageVariant::InputWidth => 18u8,
        };
        write_u8(writer, variant);
        Ok(())
    }
}

impl FromReader for Message {
    fn from_reader(reader: &mut &[u8]) -> (r: ProtocolResult<Message>)
        ensures
            decodes_to(
                parse_message(old(reader)@),
                r,
                |m: Message| m@,
                old(reader)@,
                final(reader)@,
            ),
    {
        let ghost start = reader@;
        let variant = match read_u8(reader) {
            Some(v) => v,
            None => return Err(ProtocolError::Io(unexpected_eof_error())),
        };
        let variant = match MessageVariant::try_from_byte(variant) {
            Ok(v) => v,
            Err(v) => return Err(ProtocolError::InvalidMessageVariant(v)),
        };
        let ghost body = reader@;
        assert(body =~= start.skip(1));
        proof {
            assert forall|k: int| 0 <= k <= body.len() implies #[trigger] body.skip(k) =~= start.skip(k + 1) by {}
        }
        match variant {
            MessageVariant::Fail => match String::from_reader(reader) {
                Ok(msg) => Ok(Message::Fail { msg }),
                Err(e) => Err(e),
            },
            MessageVariant::Ack => Ok(Message::Ack),
            MessageVariant::Exit => Ok(Message::Exit),
            MessageVariant::Fork => match String::from_reader(reader) {
                Ok(socket_path) => Ok(Message::Fork { socket_path }),
                Err(e) => Err(e),
            },
            MessageVariant::Data => match Vec::<u8>::from_reader(reader) {
                Ok(content) => Ok(Message::Data { content }),
                Err(e) => Err(e),
            },
            MessageVariant::InputWidth => match u32::from_reader(reader) {
                Ok(width) => Ok(Message::InputWidth { width }),
                Err(e) => Err(e),
            },
        }
    }
}

impl ToWriter for u8 {
    fn to_writer(&self, writer: &mut Vec<u8>) -> (r: ProtocolResult<()>)
        ensures
            r is Ok,
            final(writer)@ == old(writer)@ + seq![*self],
    {
        write_u8(writer, *self);
        Ok(())
    }
}

impl ToWriter for u16 {
    fn to_writer(&self, writer: &mut Vec<u8>) -> (r: ProtocolResult<()>)
        ensures
            r is Ok,
            final(writer)@ == old(writer)@ + spec_u16_to_le_bytes(*self),
    {
        write_u16(writer, *self);
        Ok(())
    }
}

impl ToWriter for u32 {
    fn to_writer(&self, writer: &mut Vec<u8>) -> (r: ProtocolResult<()>)
        ensures
            r is Ok,
            final(writer)@ == old(writer)@ + spec_u32_to_le_bytes(*self),
    {
        write_u32(writer, *self);
        Ok(())
    }
}

impl ToWriter for u64 {
    fn to_writer(&self, writer: &mut Vec<u8>) -> (r: ProtocolResult<()>)
        ensures
            r is Ok,
            final(writer)@ == old(writer)@ + spec_u64_to_le_bytes(*self),
    {
        write_u64(writer, *self);
        Ok(())
    }
}

impl ToWriter for String {
    fn to_writer(&self, writer: &mut Vec<u8>) -> (r: ProtocolResult<()>)
        ensures
            encodes_as(emit_text(self@), r, old(writer)@, final(writer)@),
    {
        let bytes = self.as_str().as_bytes();
        assert(bytes@ == encode_utf8(self@));
        if write_bytes16(writer, bytes) {
            assert(emit_text(self@).failure is None);
            assert(writer@ == old(writer)@ + emit_text(self@).bytes);
            Ok(())
        } else {
            assert(emit_text(self@).failure == Some(Overflow::String));
            assert(writer@ =~= old(writer)@ + Seq::<u8>::empty());
            Err(ProtocolError::StringOverflow)
        }
    }
}

impl ToWriter for Vec<u8> {
    fn to_writer(&self, writer: &mut Vec<u8>) -> (r: ProtocolResult<()>)
        ensures
            encodes_as(emit_bytes32(self@, Overflow::Bytearray), r, old(writer)@, final(writer)@),
    {
        if write_bytes32(writer, self.as_slice()) {
            assert(emit_bytes32(self@, Overflow::Bytearray).failure is None);
            assert(writer@ == old(writer)@ + emit_bytes32(self@, Overflow::Bytearray).bytes);
            Ok(())
        } else {
            assert(emit_bytes32(self@, Overflow::Bytearray).failure == Some(Overflow::Bytearray));
            assert(writer@ =~= old(writer)@ + Seq::<u8>::empty());
            Err(ProtocolError::BytearrayOverflow)
        }
    }
}

impl ToWriter for Message {
    fn to_writer(&self, writer: &mut Vec<u8>) -> (r: ProtocolResult<()>)
        ensures
            encodes_as(emit_message(self@), r, old(writer)@, final(writer)@),
    {
        let ghost start = writer@;
        match self {
            Message::Fail { msg } => {
                let _ = MessageVariant::Fail.to_writer(writer);
                let r = msg.to_writer(writer);
                assert(writer@ =~= start + emit_message(self@).bytes);
                r
            },
            Message::Ack => MessageVariant::Ack.to_writer(writer),
            Message::Exit => MessageVariant::Exit.to_writer(writer),
            Message::Fork { socket_path } => {
                let _ = MessageVariant::Fork.to_writer(writer);
                let r = socket_path.to_writer(writer);
                assert(writer@ =~= start + emit_message(self@).bytes);
                r
            },
            Message::Data { content } => {
                let _ = MessageVariant::Data.to_writer(writer);
                let r = content.to_writer(writer);
                assert(writer@ =~= start + emit_message(self@).bytes);
                r
            },
            Message::InputWidth { width } => {
                let _ = MessageVariant::InputWidth.to_writer(writer);
                let r = width.to_writer(writer);
                assert(writer@ =~= start + emit_message(self@).bytes);
                r
            },
        }
    }
}

/// The wire bytes of a message whose encoding does not stop early.
pub open spec fn message_bytes(m: MessageView) -> Seq<u8> {
    emit_message(m).bytes
}

/// A message's bytes are its variant byte followed by its body.
proof fn lemma_split_tag(tag: u8, body: Seq<u8>, rest: Seq<u8>)
    ensures
        (seq![tag] + body + rest).len() > 0,
        (seq![tag] + body + rest)[0] == tag,
        (seq![tag] + body + rest).skip(1) == body + rest,
        forall|k: int|
            0 <= k <= (body + rest).len() ==> #[trigger] (seq![tag] + body + rest).skip(1 + k)
                == (body + rest).skip(k),
{
    let s = seq![tag] + body + rest;
    assert(s.skip(1) =~= body + rest);
    assert forall|k: int| 0 <= k <= (body + rest).len() implies #[trigger] s.skip(1 + k) == (
    body + rest).skip(k) by {
        assert(s.skip(1 + k) =~= (body + rest).skip(k));
    }
}

/// A proper prefix of a message's bytes is its variant byte followed by a proper prefix of its
/// body.
proof fn lemma_prefix_tag(tag: u8, body: Seq<u8>, n: int)
    requires
        1 <= n <= body.len(),
    ensures
        (seq![tag] + body).take(n).len() > 0,
        (seq![tag] + body).take(n)[0] == tag,
        (seq![tag] + body).take(n).skip(1) == body.take(n - 1),
{
    assert((seq![tag] + body).take(n).skip(1) =~= body.take(n - 1));
}

/// Decoding gives back every message that encodes without overflow, and leaves the bytes after it
/// in place: a reader can take messages one after another from a stream.
pub proof fn law_message_roundtrip(m: MessageView, rest: Seq<u8>)
    requires
        emit_message(m).failure is None,
    ensures
        parse_message(message_bytes(m) + rest) == Parsed::Done(m, message_bytes(m).len() as int),
        (message_bytes(m) + rest).skip(message_bytes(m).len() as int) == rest,
{
    let s = message_bytes(m) + rest;
    assert(s.skip(message_bytes(m).len() as int) =~= rest);
    match m {
        MessageView::Fail { msg } => {
            let text = encode_utf8(msg);
            let body = spec_u16_to_le_bytes(text.len() as u16) + text;
            assert(message_bytes(m) =~= seq![0u8] + body);
            lemma_split_tag(0u8, body, rest);
            lemma_bytes16_roundtrip(text, rest);
            lemma_text_bytes(msg);
        },
        MessageView::Ack => {
            assert(s[0] == 1u8);
        },
        MessageView::Exit => {
            assert(s[0] == 2u8);
        },
        MessageView::Fork { socket_path } => {
            let text = encode_utf8(socket_path);
            let body = spec_u16_to_le_bytes(text.len() as u16) + text;
            assert(message_bytes(m) =~= seq![16u8] + body);
            lemma_split_tag(16u8, body, rest);
            lemma_bytes16_roundtrip(text, rest);
            lemma_text_bytes(socket_path);
        },
        MessageView::Data { content } => {
            let body = spec_u32_to_le_bytes(content.len() as u32) + content;
            assert(message_bytes(m) =~= seq![17u8] + body);
            lemma_split_tag(17u8, body, rest);
            lemma_bytes32_roundtrip(content, rest);
        },
        MessageView::InputWidth { width } => {
            let body = spec_u32_to_le_bytes(width);
            lemma_split_tag(18u8, body, rest);
            lemma_u32_roundtrip(width, rest);
        },
    }
}

/// Every proper prefix of a message's bytes decodes as incomplete: a reader never takes a message
/// before all of its bytes have arrived.
pub proof fn law_message_prefix_incomplete(m: MessageView, n: int)
    requires
        emit_message(m).failure is None,
        0 <= n < message_bytes(m).len(),
    ensures
        parse_message(message_bytes(m).take(n)) == Parsed::<MessageView>::Incomplete,
{
    lemma_auto_spec_u16_to_from_le_bytes();
    lemma_auto_spec_u32_to_from_le_bytes();
    if n > 0 {
        match m {
            MessageView::Fail { msg } => {
                let text = encode_utf8(msg);
                let body = spec_u16_to_le_bytes(text.len() as u16) + text;
                assert(message_bytes(m) =~= seq![0u8] + body);
                lemma_prefix_tag(0u8, body, n);
                lemma_bytes16_prefix(text, n - 1);
            },
            MessageView::Ack => {},
            MessageView::Exit => {},
            MessageView::Fork { socket_path } => {
                let text = encode_utf8(socket_path);
                let body = spec_u16_to_le_bytes(text.len() as u16) + text;
                assert(message_bytes(m) =~= seq![16u8] + body);
                lemma_prefix_tag(16u8, body, n);
                lemma_bytes16_prefix(text, n - 1);
            },
            MessageView::Data { content } => {
                let body = spec_u32_to_le_bytes(content.len() as u32) + content;
                assert(message_bytes(m) =~= seq![17u8] + body);
                lemma_prefix_tag(17u8, body, n);
                lemma_bytes32_prefix(content, n - 1);
            },
            MessageView::InputWidth { width } => {
                let body = spec_u32_to_le_bytes(width);
                lemma_u32_roundtrip(width, Seq::empty());
                lemma_prefix_tag(18u8, body, n);
            },
        }
    }
}

/// A bidirectional connection that reads whole messages or nothing.
///
/// Bytes may arrive before a whole message has: the channel keeps what it has received and
/// continues from there next time. The connection itself, `T`, is only held here; reading from
/// it and writing to it happen outside, which hand the received bytes to [`Self::receive`].
#[derive(Debug)]
pub struct MessageChannel<T> {
    inner: T,
    buffer: Vec<u8>,
}

impl<T> MessageChannel<T> {
    /// The underlying connection.
    pub closed spec fn connection(&self) -> T {
        self.inner
    }

    /// Bytes received but not yet taken as messages.
    pub closed spec fn pending(&self) -> Seq<u8> {
        self.buffer@
    }

    pub fn new(inner: T) -> (channel: Self)
        ensures
            channel.connection() == inner,
            channel.pending() == Seq::<u8>::empty(),
    {
        MessageChannel { inner, buffer: Vec::new() }
    }

    /// Replaces the underlying connection with a new one, returning the old one. This drops the
    /// bytes received so far (keeping the buffer's allocation).
    pub fn replace(&mut self, new_inner: T) -> (old_inner: T)
        ensures
            old_inner == old(self).connection(),
            final(self).connection() == new_inner,
            final(self).pending() == Seq::<u8>::empty(),
    {
        let mut old_inner = new_inner;
        std::mem::swap(&mut self.inner, &mut old_inner);
        self.buffer.clear();
        old_inner
    }

    /// The underlying connection, to read from or write to.
    pub fn connection_mut(&mut self) -> (inner: &mut T)
        ensures
            *inner == old(self).connection(),
            final(self).connection() == *final(inner),
            final(self).pending() == old(self).pending(),
    {
        &mut self.inner
    }

    /// Adds bytes read from the connection to the pending ones.
    pub fn receive(&mut self, bytes: &[u8])
        ensures
            final(self).connection() == old(self).connection(),
            final(self).pending() == old(self).pending() + bytes@,
    {
        self.buffer.extend_from_slice(bytes);
    }

    /// Drops the first `n` pending bytes, moving the rest to the front of the buffer.
    fn discard_front(&mut self, n: usize)
        requires
            n <= old(self).pending().len(),
        ensures
            final(self).connection() == old(self).connection(),
            final(self).pending() == old(self).pending().skip(n as int),
    {
        let len = self.buffer.len();
        if n == len {
            self.buffer.clear();
            assert(self.buffer@ =~= old(self).pending().skip(n as int));
            return;
        }
        let ghost before = self.buffer@;
        let keep = len - n;
        let mut i: usize = 0;
        while i < keep
            invariant
                keep == len - n,
                n <= len,
                i <= keep,
                before.len() == len,
                self.buffer@.len() == len,
                self.inner == old(self).inner,
                before == old(self).buffer@,
                forall|j: int| 0 <= j < i ==> self.buffer@[j] == before[n + j],
                forall|j: int| i <= j < len ==> self.buffer@[j] == before[j],
            decreases keep - i,
        {
            let b = self.buffer[n + i];
            self.buffer.set(i, b);
            i = i + 1;
        }
        self.buffer.truncate(keep);
        assert(self.buffer@ =~= before.skip(n as int));
    }

    /// Takes the message at the front of the pending bytes. When they hold a whole message, it
    /// is returned and its bytes are dropped; otherwise the pending bytes stay as they are, and
    /// the error is that of reading past their end (`Io`), an unknown variant byte, or a string
    /// that is not UTF-8.
    pub fn take_message(&mut self) -> (r: ProtocolResult<Message>)
        ensures
            final(self).connection() == old(self).connection(),
            decodes_to(
                parse_message(old(self).pending()),
                r,
                |m: Message| m@,
                old(self).pending(),
                final(self).pending(),
            ),
            !(parse_message(old(self).pending()) is Done) ==> final(self).pending() == old(
                self,
            ).pending(),
    {
        let mut reader: &[u8] = self.buffer.as_slice();
        let message = Message::from_reader(&mut reader);
        let remaining = reader.len();
        match message {
            Ok(m) => {
                let consumed = self.buffer.len() - remaining;
                self.discard_front(consumed);
                Ok(m)
            },
            Err(e) => Err(e),
        }
    }

    /// Like [`Self::take_message`], but `Ok(None)` when the pending bytes do not yet hold a whole
    /// message.
    pub fn try_take_message(&mut self) -> (r: ProtocolResult<Option<Message>>)
        ensures
            final(self).connection() == old(self).connection(),
            match parse_message(old(self).pending()) {
                Parsed::Done(m, k) => r matches Ok(Some(x)) && x@ == m && final(self).pending()
                    == old(self).pending().skip(k),
                Parsed::Incomplete => r matches Ok(None) && final(self).pending() == old(
                    self,
                ).pending(),
                Parsed::BadVariant(b) => r matches Err(ProtocolError::InvalidMessageVariant(c))
                    && c == b && final(self).pending() == old(self).pending(),
                Parsed::BadUtf8 => r matches Err(ProtocolError::Utf8(_)) && final(self).pending()
                    == old(self).pending(),
            },
    {
        match self.take_message() {
            Ok(m) => Ok(Some(m)),
            Err(ProtocolError::Io(_)) => Ok(None),
            Err(e) => Err(e),
        }
    }
}

} // verus!
