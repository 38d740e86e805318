//! Messages of the fork-server protocol, and their wire format: a variant byte, then the fields
//! in order; integers little-endian, byte arrays and strings (as UTF-8) after a 32-bit length.

use crate::vl_fork_server::error::ProtocolError;
use crate::vl_fork_server::error::ProtocolResult;
use crate::wire::emit_bytes32;
use crate::wire::emit_then;
use crate::wire::emitted;
use crate::wire::lemma_bytes32_prefix;
use crate::wire::lemma_bytes32_roundtrip;
use crate::wire::lemma_text_bytes;
use crate::wire::lemma_u32_roundtrip;
use crate::wire::parse_bytes32;
use crate::wire::parse_u16;
use crate::wire::parse_u32;
use crate::wire::parse_u64;
use crate::wire::parse_u8;
use crate::wire::parsed_text;
use crate::wire::read_bytes32;
use crate::wire::read_u16;
use crate::wire::read_u32;
use crate::wire::read_u64;
use crate::wire::read_u8;
use crate::wire::string_from_utf8;
use crate::wire::unexpected_eof_error;
use crate::wire::write_bytes32;
use crate::wire::write_u16;
use crate::wire::write_u32;
use crate::wire::write_u64;
use crate::wire::write_u8;
use crate::wire::Emitted;
use crate::wire::Overflow;
use crate::wire::Parsed;
use vstd::bytes::*;
use vstd::prelude::*;
use vstd::std_specs::convert::TryFromSpec;
use vstd::utf8::*;

verus! {

/// The kind of a message, which its first byte names.
#[derive(Debug, Clone, Copy)]
pub enum MessageVariant {
    Fail,
    Ack,
    Exit,
    Fork,
    Data,
    InputWidth,
}

/// A message of the protocol.
#[derive(Debug)]
pub enum Message {
    Fail { msg: String },
    Ack,
    Exit,
    Fork { input: String, output: String },
    Data { content: Vec<u8> },
    InputWidth { width: u32 },
}

/// A message as plain values.
pub enum MessageView {
    Fail { msg: Seq<char> },
    Ack,
    Exit,
    Fork { input: Seq<char>, output: Seq<char> },
    Data { content: Seq<u8> },
    InputWidth { width: u32 },
}

impl View for Message {
    type V = MessageView;

    open spec fn view(&self) -> MessageView {
        match self {
            Message::Fail { msg } => MessageView::Fail { msg: msg@ },
            Message::Ack => MessageView::Ack,
            Message::Exit => MessageView::Exit,
            Message::Fork { input, output } => MessageView::Fork { input: input@, output: output@ },
            Message::Data { content } => MessageView::Data { content: content@ },
            Message::InputWidth { width } => MessageView::InputWidth { width: *width },
        }
    }
}

impl MessageView {
    /// The kind of the message.
    pub open spec fn kind(self) -> MessageVariant {
        match self {
            MessageView::Fail { .. } => MessageVariant::Fail,
            MessageView::Ack => MessageVariant::Ack,
            MessageView::Exit => MessageVariant::Exit,
            MessageView::Fork { .. } => MessageVariant::Fork,
            MessageView::Data { .. } => MessageVariant::Data,
            MessageView::InputWidth { .. } => MessageVariant::InputWidth,
        }
    }
}

impl Message {
    /// The kind of this message.
    pub fn variant(&self) -> (v: MessageVariant)
        ensures
            v == self@.kind(),
    {
        match self {
            Message::Fail { .. } => MessageVariant::Fail,
            Message::Ack => MessageVariant::Ack,
            Message::Exit => MessageVariant::Exit,
            Message::Fork { .. } => MessageVariant::Fork,
            Message::Data { .. } => MessageVariant::Data,
            Message::InputWidth { .. } => MessageVariant::InputWidth,
        }
    }
}

impl MessageVariant {
    /// The byte that names this kind of message on the wire.
    pub open spec fn tag(self) -> u8 {
        match self {
            MessageVariant::Fail => 0,
            MessageVariant::Ack => 1,
            MessageVariant::Exit => 2,
            MessageVariant::Fork => 16,
            MessageVariant::Data => 17,
            MessageVariant::InputWidth => 18,
        }
    }

    /// The kind of message that byte `v` names, if any.
    pub open spec fn from_tag(v: u8) -> Result<MessageVariant, u8> {
        if v == 0 {
            Ok(MessageVariant::Fail)
        } else if v == 1 {
            Ok(MessageVariant::Ack)
        } else if v == 2 {
            Ok(MessageVariant::Exit)
        } else if v == 16 {
            Ok(MessageVariant::Fork)
        } else if v == 17 {
            Ok(MessageVariant::Data)
        } else if v == 18 {
            Ok(MessageVariant::InputWidth)
        } else {
            Err(v)
        }
    }

    /// The name of the kind, as its `Debug` form writes it.
    pub fn name(&self) -> (s: &'static str)
        ensures
            *self is Fail ==> s@ == "Fail"@,
            *self is Ack ==> s@ == "Ack"@,
            *self is Exit ==> s@ == "Exit"@,
            *self is Fork ==> s@ == "Fork"@,
            *self is Data ==> s@ == "Data"@,
            *self is InputWidth ==> s@ == "InputWidth"@,
    {
        match self {
            MessageVariant::Fail => "Fail",
            MessageVariant::Ack => "Ack",
            MessageVariant::Exit => "Exit",
            MessageVariant::Fork => "Fork",
            MessageVariant::Data => "Data",
            MessageVariant::InputWidth => "InputWidth",
        }
    }
}

impl TryFrom<u8> for MessageVariant {
    type Error = u8;

    fn try_from(v: u8) -> (r: Result<MessageVariant, u8>) {
        match v {
            0 => Ok(MessageVariant::Fail),
            1 => Ok(MessageVariant::Ack),
            2 => Ok(MessageVariant::Exit),
            16 => Ok(MessageVariant::Fork),
            17 => Ok(MessageVariant::Data),
            18 => Ok(MessageVariant::InputWidth),
            _ => Err(v),
        }
    }
}

impl vstd::std_specs::convert::TryFromSpecImpl<u8> for MessageVariant {
    open spec fn obeys_try_from_spec() -> bool {
        true
    }

    open spec fn try_from_spec(v: u8) -> Result<MessageVariant, u8> {
        MessageVariant::from_tag(v)
    }
}

/// A string on the wire: its UTF-8 bytes after a 32-bit length.
pub open spec fn parse_text(s: Seq<u8>) -> Parsed<Seq<char>> {
    parsed_text(parse_bytes32(s))
}

/// Two strings one after the other.
pub open spec fn parse_text_pair(s: Seq<u8>) -> Parsed<(Seq<char>, Seq<char>)> {
    match parse_text(s) {
        Parsed::Done(first, k1) => match parse_text(s.skip(k1)) {
            Parsed::Done(second, k2) => Parsed::Done((first, second), k1 + k2),
            Parsed::Incomplete => Parsed::Incomplete,
            Parsed::BadVariant(b) => Parsed::BadVariant(b),
            Parsed::BadUtf8 => Parsed::BadUtf8,
        },
        Parsed::Incomplete => Parsed::Incomplete,
        Parsed::BadVariant(b) => Parsed::BadVariant(b),
        Parsed::BadUtf8 => Parsed::BadUtf8,
    }
}

/// Wraps decoded fields into a message, counting the variant byte before them.
pub open spec fn parsed_message<T>(p: Parsed<T>, wrap: spec_fn(T) -> MessageView) -> Parsed<
    MessageView,
> {
    match p {
        Parsed::Done(v, k) => Parsed::Done(wrap(v), k + 1),
        Parsed::Incomplete => Parsed::Incomplete,
        Parsed::BadVariant(b) => Parsed::BadVariant(b),
        Parsed::BadUtf8 => Parsed::BadUtf8,
    }
}

/// The message at the front of `s`: a variant byte, then the message's fields in order.
pub open spec fn parse_message(s: Seq<u8>) -> Parsed<MessageView> {
    if s.len() == 0 {
        Parsed::Incomplete
    } else {
        let body = s.skip(1);
        match MessageVariant::from_tag(s[0]) {
            Err(b) => Parsed::BadVariant(b),
            Ok(MessageVariant::Fail) => parsed_message(
                parse_text(body),
                |msg: Seq<char>| MessageView::Fail { msg },
            ),
            Ok(MessageVariant::Ack) => Parsed::Done(MessageView::Ack, 1),
            Ok(MessageVariant::Exit) => Parsed::Done(MessageView::Exit, 1),
            Ok(MessageVariant::Fork) => parsed_message(
                parse_text_pair(body),
                |p: (Seq<char>, Seq<char>)| MessageView::Fork { input: p.0, output: p.1 },
            ),
            Ok(MessageVariant::Data) => parsed_message(
                parse_bytes32(body),
                |content: Seq<u8>| MessageView::Data { content },
            ),
            Ok(MessageVariant::InputWidth) => parsed_message(
                parse_u32(body),
                |width: u32| MessageView::InputWidth { width },
            ),
        }
    }
}

/// What writing a string does: its UTF-8 bytes after a 32-bit length.
pub open spec fn emit_text(s: Seq<char>) -> Emitted {
    emit_bytes32(encode_utf8(s), Overflow::Bytearray)
}

/// What writing a message does: its variant byte, then its fields in order, stopping at the
/// first field too long for its length prefix.
pub open spec fn emit_message(m: MessageView) -> Emitted {
    let tag = emitted(seq![m.kind().tag()]);
    match m {
        MessageView::Fail { msg } => emit_then(tag, emit_text(msg)),
        MessageView::Fork { input, output } => emit_then(
            tag,
            emit_then(emit_text(input), emit_text(output)),
        ),
        MessageView::Data { content } => emit_then(
            tag,
            emit_bytes32(content, Overflow::Bytearray),
        ),
        MessageView::InputWidth { width } => emit_then(tag, emitted(spec_u32_to_le_bytes(width))),
        _ => tag,
    }
}

/// The wire bytes of a message.
pub open spec fn message_bytes(m: MessageView) -> Seq<u8> {
    emit_message(m).bytes
}

/// `r` is what reading the value that `p` describes returns, and `after` is what is left of
/// `before`: the bytes after the value when it was read whole.
pub open spec fn decodes_to<T, V>(
    p: Parsed<V>,
    r: ProtocolResult<T>,
    view: spec_fn(T) -> V,
    before: Seq<u8>,
    after: Seq<u8>,
) -> bool {
    match p {
        Parsed::Done(v, k) => r matches Ok(x) && view(x) == v && after == before.skip(k),
        Parsed::Incomplete => r matches Err(ProtocolError::Io(_)),
        Parsed::BadVariant(b) => r matches Err(ProtocolError::InvalidMessageVariant(c)) && c == b,
        Parsed::BadUtf8 => r matches Err(ProtocolError::Utf8(_)),
    }
}

/// `r` is what writing returns when it writes what `e` describes, and `after` is `before` with
/// the written bytes appended.
pub open spec fn encodes_as(e: Emitted, r: ProtocolResult<()>, before: Seq<u8>, after: Seq<u8>) -> bool {
    &&& after == before + e.bytes
    &&& match e.failure {
        None => r is Ok,
        Some(Overflow::String) => r matches Err(ProtocolError::StringOverflow),
        Some(Overflow::Bytearray) => r matches Err(ProtocolError::BytearrayOverflow),
    }
}

/// Reading a value from the front of a byte slice, which the read advances.
pub trait FromReader: Sized {
    fn from_reader(reader: &mut &[u8]) -> ProtocolResult<Self>;
}

/// Appending a value's wire form to a byte vector.
pub trait ToWriter: Sized {
    fn to_writer(&self, writer: &mut Vec<u8>) -> ProtocolResult<()>;
}

impl FromReader for u8 {
    fn from_reader(reader: &mut &[u8]) -> (r: ProtocolResult<u8>)
        ensures
            decodes_to(parse_u8(old(reader)@), r, |x: u8| x, old(reader)@, final(reader)@),
    {
        match read_u8(reader) {
            Some(v) => Ok(v),
            None => Err(ProtocolError::Io(unexpected_eof_error())),
        }
    }
}

impl FromReader for u16 {
    fn from_reader(reader: &mut &[u8]) -> (r: ProtocolResult<u16>)
        ensures
            decodes_to(parse_u16(old(reader)@), r, |x: u16| x, old(reader)@, final(reader)@),
    {
        match read_u16(reader) {
            Some(v) => Ok(v),
            None => Err(ProtocolError::Io(unexpected_eof_error())),
        }
    }
}

impl FromReader for u32 {
    fn from_reader(reader: &mut &[u8]) -> (r: ProtocolResult<u32>)
        ensures
            decodes_to(parse_u32(old(reader)@), r, |x: u32| x, old(reader)@, final(reader)@),
    {
        match read_u32(reader) {
            Some(v) => Ok(v),
            None => Err(ProtocolError::Io(unexpected_eof_error())),
        }
    }
}

impl FromReader for u64 {
    fn from_reader(reader: &mut &[u8]) -> (r: ProtocolResult<u64>)
        ensures
            decodes_to(parse_u64(old(reader)@), r, |x: u64| x, old(reader)@, final(reader)@),
    {
        match read_u64(reader) {
            Some(v) => Ok(v),
            None => Err(ProtocolError::Io(unexpected_eof_error())),
        }
    }
}

impl FromReader for Vec<u8> {
    fn from_reader(reader: &mut &[u8]) -> (r: ProtocolResult<Vec<u8>>)
        ensures
            decodes_to(
                parse_bytes32(old(reader)@),
                r,
                |v: Vec<u8>| v@,
                old(reader)@,
                final(reader)@,
            ),
    {
        match read_bytes32(reader) {
            Some(b) => Ok(b),
            None => Err(ProtocolError::Io(unexpected_eof_error())),
        }
    }
}

impl FromReader for String {
    fn from_reader(reader: &mut &[u8]) -> (r: ProtocolResult<String>)
        ensures
            decodes_to(parse_text(old(reader)@), r, |s: String| s@, old(reader)@, final(reader)@),
    {
        let bytes = match Vec::<u8>::from_reader(reader) {
            Ok(b) => b,
            Err(e) => return Err(e),
        };
        match string_from_utf8(bytes) {
            Ok(s) => {
                proof {
                    lemma_text_bytes(s@);
                }
                Ok(s)
            },
            Err(e) => Err(ProtocolError::Utf8(e)),
        }
    }
}

impl FromReader for Message {
    fn from_reader(reader: &mut &[u8]) -> (r: ProtocolResult<Message>)
        ensures
            decodes_to(
                parse_message(old(reader)@),
                r,
                |m: Message| m@,
                old(reader)@,
                final(reader)@,
            ),
    {
        let ghost start = reader@;
        let variant = match u8::from_reader(reader) {
            Ok(v) => v,
            Err(e) => return Err(e),
        };
        let variant = match MessageVariant::try_from(variant) {
            Ok(v) => v,
            Err(v) => return Err(ProtocolError::InvalidMessageVariant(v)),
        };
        let ghost body = reader@;
        assert(body =~= start.skip(1));
        assert forall|k: int| 0 <= k <= body.len() implies #[trigger] body.skip(k) =~= start.skip(
            k + 1,
        ) by {}
        match variant {
            MessageVariant::Fail => match String::from_reader(reader) {
                Ok(msg) => Ok(Message::Fail { msg }),
                Err(e) => Err(e),
            },
            MessageVariant::Ack => Ok(Message::Ack),
            MessageVariant::Exit => Ok(Message::Exit),
            MessageVariant::Fork => {
                let input = match String::from_reader(reader) {
                    Ok(s) => s,
                    Err(e) => return Err(e),
                };
                let ghost middle = reader@;
                assert forall|k: int| 0 <= k <= middle.len() implies #[trigger] middle.skip(k)
                    =~= body.skip(k + (body.len() - middle.len())) by {}
                match String::from_reader(reader) {
                    Ok(output) => Ok(Message::Fork { input, output }),
                    Err(e) => Err(e),
                }
            },
            MessageVariant::Data => match Vec::<u8>::from_reader(reader) {
                Ok(content) => Ok(Message::Data { content }),
                Err(e) => Err(e),
            },
            MessageVariant::InputWidth => match u32::from_reader(reader) {
                Ok(width) => Ok(Message::InputWidth { width }),
                Err(e) => Err(e),
            },
        }
    }
}

impl ToWriter for MessageVariant {
    fn to_writer(&self, writer: &mut Vec<u8>) -> (r: ProtocolResult<()>)
        ensures
            r is Ok,
            final(writer)@ == old(writer)@ + seq![self.tag()],
    {
        let variant = match self {
            MessageVariant::Fail => 0u8,
            MessageVariant::Ack => 1u8,
            MessageVariant::Exit => 2u8,
            MessageVariant::Fork => 16u8,
            MessageVariant::Data => 17u8,
            MessageVariant::InputWidth => 18u8,
        };
        write_u8(writer, variant);
        Ok(())
    }
}

impl ToWriter for u8 {
    fn to_writer(&self, writer: &mut Vec<u8>) -> (r: ProtocolResult<()>)
        ensures
            r is Ok,
            final(writer)@ == old(writer)@ + seq![*self],
    {
        write_u8(writer, *self);
        Ok(())
    }
}

impl ToWriter for u16 {
    fn to_writer(&self, writer: &mut Vec<u8>) -> (r: ProtocolResult<()>)
        ensures
            r is Ok,
            final(writer)@ == old(writer)@ + spec_u16_to_le_bytes(*self),
    {
        write_u16(writer, *self);
        Ok(())
    }
}

impl ToWriter for u32 {
    fn to_writer(&self, writer: &mut Vec<u8>) -> (r: ProtocolResult<()>)
        ensures
            r is Ok,
            final(writer)@ == old(writer)@ + spec_u32_to_le_bytes(*self),
    {
        write_u32(writer, *self);
        Ok(())
    }
}

impl ToWriter for u64 {
    fn to_writer(&self, writer: &mut Vec<u8>) -> (r: ProtocolResult<()>)
        ensures
            r is Ok,
            final(writer)@ == old(writer)@ + spec_u64_to_le_bytes(*self),
    {
        write_u64(writer, *self);
        Ok(())
    }
}

impl ToWriter for &[u8] {
    fn to_writer(&self, writer: &mut Vec<u8>) -> (r: ProtocolResult<()>)
        ensures
            encodes_as(emit_bytes32(self@, Overflow::Bytearray), r, old(writer)@, final(writer)@),
    {
        if write_bytes32(writer, *self) {
            assert(emit_bytes32(self@, Overflow::Bytearray).failure is None);
            assert(writer@ == old(writer)@ + emit_bytes32(self@, Overflow::Bytearray).bytes);
            Ok(())
        } else {
            assert(emit_bytes32(self@, Overflow::Bytearray).failure == Some(Overflow::Bytearray));
            assert(writer@ =~= old(writer)@ + Seq::<u8>::empty());
            Err(ProtocolError::BytearrayOverflow)
        }
    }
}

impl ToWriter for Vec<u8> {
    fn to_writer(&self, writer: &mut Vec<u8>) -> (r: ProtocolResult<()>)
        ensures
            encodes_as(emit_bytes32(self@, Overflow::Bytearray), r, old(writer)@, final(writer)@),
    {
        self.as_slice().to_writer(writer)
    }
}

impl ToWriter for String {
    fn to_writer(&self, writer: &mut Vec<u8>) -> (r: ProtocolResult<()>)
        ensures
            encodes_as(emit_text(self@), r, old(writer)@, final(writer)@),
    {
        let bytes = self.as_str().as_bytes();
        assert(bytes@ == encode_utf8(self@));
        bytes.to_writer(writer)
    }
}

impl ToWriter for Message {
    fn to_writer(&self, writer: &mut Vec<u8>) -> (r: ProtocolResult<()>)
        ensures
            encodes_as(emit_message(self@), r, old(writer)@, final(writer)@),
    {
        let ghost start = writer@;
        let _ = self.variant().to_writer(writer);
        let ghost tagged = writer@;
        match self {
            Message::Fail { msg } => {
                let r = msg.to_writer(writer);
                assert(writer@ =~= start + emit_message(self@).bytes);
                r
            },
            Message::Ack => Ok(()),
            Message::Exit => Ok(()),
            Message::Fork { input, output } => {
                match input.to_writer(writer) {
                    Ok(()) => {},
                    Err(e) => {
                        assert(writer@ =~= start + emit_message(self@).bytes);
                        return Err(e);
                    },
                }
                let r = output.to_writer(writer);
                assert(writer@ =~= start + emit_message(self@).bytes);
                r
            },
            Message::Data { content } => {
                let r = content.to_writer(writer);
                assert(writer@ =~= start + emit_message(self@).bytes);
                r
            },
            Message::InputWidth { width } => {
                let r = width.to_writer(writer);
                assert(writer@ =~= start + emit_message(self@).bytes);
                r
            },
        }
    }
}

/// A message's bytes are its variant byte followed by its body.
proof fn lemma_split_tag(tag: u8, body: Seq<u8>, rest: Seq<u8>)
    ensures
        (seq![tag] + body + rest).len() > 0,
        (seq![tag] + body + rest)[0] == tag,
        (seq![tag] + body + rest).skip(1) == body + rest,
{
    assert((seq![tag] + body + rest).skip(1) =~= body + rest);
}

/// A proper prefix of a message's bytes is its variant byte followed by a proper prefix of its
/// body.
proof fn lemma_prefix_tag(tag: u8, body: Seq<u8>, n: int)
    requires
        1 <= n <= body.len(),
    ensures
        (seq![tag] + body).take(n).len() > 0,
        (seq![tag] + body).take(n)[0] == tag,
        (seq![tag] + body).take(n).skip(1) == body.take(n - 1),
{
    assert((seq![tag] + body).take(n).skip(1) =~= body.take(n - 1));
}

/// The wire bytes of a string that fits its length prefix.
pub open spec fn text_bytes(s: Seq<char>) -> Seq<u8> {
    emit_text(s).bytes
}

/// A string is read back as written, and the bytes after it are left in place.
proof fn lemma_text_roundtrip(s: Seq<char>, rest: Seq<u8>)
    requires
        emit_text(s).failure is None,
    ensures
        parse_text(text_bytes(s) + rest) == Parsed::Done(s, text_bytes(s).len() as int),
        (text_bytes(s) + rest).skip(text_bytes(s).len() as int) == rest,
{
    let b = encode_utf8(s);
    assert(text_bytes(s) + rest =~= spec_u32_to_le_bytes(b.len() as u32) + b + rest);
    lemma_bytes32_roundtrip(b, rest);
    lemma_text_bytes(s);
    lemma_auto_spec_u32_to_from_le_bytes();
}

/// Every proper prefix of a string's bytes is incomplete.
proof fn lemma_text_prefix(s: Seq<char>, n: int)
    requires
        emit_text(s).failure is None,
        0 <= n < text_bytes(s).len(),
    ensures
        parse_text(text_bytes(s).take(n)) == Parsed::<Seq<char>>::Incomplete,
{
    lemma_auto_spec_u32_to_from_le_bytes();
    lemma_bytes32_prefix(encode_utf8(s), n);
}

/// Decoding gives back every message that encodes without overflow, and leaves the bytes after it
/// in place: a reader can take messages one after another from a stream.
pub proof fn law_message_roundtrip(m: MessageView, rest: Seq<u8>)
    requires
        emit_message(m).failure is None,
    ensures
        parse_message(message_bytes(m) + rest) == Parsed::Done(m, message_bytes(m).len() as int),
        (message_bytes(m) + rest).skip(message_bytes(m).len() as int) == rest,
{
    let s = message_bytes(m) + rest;
    let tag = m.kind().tag();
    assert(s.skip(message_bytes(m).len() as int) =~= rest);
    match m {
        MessageView::Fail { msg } => {
            let body = text_bytes(msg);
            assert(message_bytes(m) =~= seq![tag] + body);
            lemma_split_tag(tag, body, rest);
            lemma_text_roundtrip(msg, rest);
        },
        MessageView::Ack => {},
        MessageView::Exit => {},
        MessageView::Fork { input, output } => {
            let body = text_bytes(input) + text_bytes(output);
            assert(message_bytes(m) =~= seq![tag] + body);
            lemma_split_tag(tag, body, rest);
            assert(body + rest =~= text_bytes(input) + (text_bytes(output) + rest));
            lemma_text_roundtrip(input, text_bytes(output) + rest);
            lemma_text_roundtrip(output, rest);
        },
        MessageView::Data { content } => {
            let body = spec_u32_to_le_bytes(content.len() as u32) + content;
            assert(message_bytes(m) =~= seq![tag] + body);
            lemma_split_tag(tag, body, rest);
            lemma_bytes32_roundtrip(content, rest);
        },
        MessageView::InputWidth { width } => {
            let body = spec_u32_to_le_bytes(width);
            assert(message_bytes(m) =~= seq![tag] + body);
            lemma_split_tag(tag, body, rest);
            lemma_u32_roundtrip(width, rest);
        },
    }
}

/// Every proper prefix of a message's bytes decodes as incomplete: a reader never takes a message
/// before all of its bytes have arrived.
pub proof fn law_message_prefix_incomplete(m: MessageView, n: int)
    requires
        emit_message(m).failure is None,
        0 <= n < message_bytes(m).len(),
    ensures
        parse_message(message_bytes(m).take(n)) == Parsed::<MessageView>::Incomplete,
{
    lemma_auto_spec_u32_to_from_le_bytes();
    let tag = m.kind().tag();
    if n > 0 {
        match m {
            MessageView::Fail { msg } => {
                let body = text_bytes(msg);
                assert(message_bytes(m) =~= seq![tag] + body);
                lemma_prefix_tag(tag, body, n);
                lemma_text_prefix(msg, n - 1);
            },
            MessageView::Ack => {},
            MessageView::Exit => {},
            MessageView::Fork { input, output } => {
                let first = text_bytes(input);
                let second = text_bytes(output);
                let body = first + second;
                assert(message_bytes(m) =~= seq![tag] + body);
                lemma_prefix_tag(tag, body, n);
                if n - 1 < first.len() {
                    assert(body.take(n - 1) =~= first.take(n - 1));
                    lemma_text_prefix(input, n - 1);
                } else {
                    let k = n - 1 - first.len();
                    assert(body.take(n - 1) =~= first + second.take(k));
                    lemma_text_roundtrip(input, second.take(k));
                    lemma_text_prefix(output, k);
                }
            },
            MessageView::Data { content } => {
                let body = spec_u32_to_le_bytes(content.len() as u32) + content;
                assert(message_bytes(m) =~= seq![tag] + body);
                lemma_prefix_tag(tag, body, n);
                lemma_bytes32_prefix(content, n - 1);
            },
            MessageView::InputWidth { width } => {
                let body = spec_u32_to_le_bytes(width);
                assert(message_bytes(m) =~= seq![tag] + body);
                lemma_prefix_tag(tag, body, n);
            },
        }
    }
}

/// Each kind of message has its fixed wire byte: 0 for `Fail`, 1 for `Ack`, 2 for `Exit`, 16 for
/// `Fork`, 17 for `Data` and 18 for `InputWidth`. Every message's bytes start with its kind's
/// byte, and `Ack` and `Exit` are that byte alone. Reading a message that starts with byte 1 or 2
/// gives `Ack` or `Exit` after one byte, and a message that starts with any other byte than the
/// six is refused with that byte.
pub proof fn law_message_wire_bytes(m: MessageView, s: Seq<u8>)
    ensures
        message_bytes(m).len() >= 1,
        m is Fail ==> message_bytes(m)[0] == 0u8,
        m is Ack ==> message_bytes(m) == seq![1u8],
        m is Exit ==> message_bytes(m) == seq![2u8],
        m is Fork ==> message_bytes(m)[0] == 16u8,
        m is Data ==> message_bytes(m)[0] == 17u8,
        m is InputWidth ==> message_bytes(m)[0] == 18u8,
        <MessageVariant as TryFromSpec<u8>>::obeys_try_from_spec(),
        <MessageVariant as TryFromSpec<u8>>::try_from_spec(0u8) == Ok::<MessageVariant, u8>(MessageVariant::Fail),
        <MessageVariant as TryFromSpec<u8>>::try_from_spec(1u8) == Ok::<MessageVariant, u8>(MessageVariant::Ack),
        <MessageVariant as TryFromSpec<u8>>::try_from_spec(2u8) == Ok::<MessageVariant, u8>(MessageVariant::Exit),
        <MessageVariant as TryFromSpec<u8>>::try_from_spec(16u8) == Ok::<MessageVariant, u8>(MessageVariant::Fork),
        <MessageVariant as TryFromSpec<u8>>::try_from_spec(17u8) == Ok::<MessageVariant, u8>(MessageVariant::Data),
        <MessageVariant as TryFromSpec<u8>>::try_from_spec(18u8) == Ok::<MessageVariant, u8>(
            MessageVariant::InputWidth,
        ),
        s.len() >= 1 && s[0] == 1u8 ==> parse_message(s) == Parsed::Done(MessageView::Ack, 1),
        s.len() >= 1 && s[0] == 2u8 ==> parse_message(s) == Parsed::Done(MessageView::Exit, 1),
        s.len() >= 1 && s[0] != 0u8 && s[0] != 1u8 && s[0] != 2u8 && s[0] != 16u8 && s[0] != 17u8
            && s[0] != 18u8 ==> parse_message(s) == Parsed::<MessageView>::BadVariant(s[0])
            && <MessageVariant as TryFromSpec<u8>>::try_from_spec(s[0]) == Err::<MessageVariant, u8>(s[0]),
{
}

} // verus!
