use std::io::ErrorKind;

use verilator_simulation_manager::socket_protocol::FromReader;
use verilator_simulation_manager::socket_protocol::Message;
use verilator_simulation_manager::socket_protocol::MessageChannel;
use verilator_simulation_manager::socket_protocol::ProtocolError;
use verilator_simulation_manager::socket_protocol::ToWriter;

fn encode(m: &Message) -> Vec<u8> {
    let mut out = Vec::new();
    m.to_writer(&mut out).unwrap();
    out
}

fn decode(bytes: &[u8]) -> (Result<Message, ProtocolError>, usize) {
    let mut reader = bytes;
    let r = Message::from_reader(&mut reader);
    (r, bytes.len() - reader.len())
}

#[test]
fn v1_wire_bytes() {
    assert_eq!(encode(&Message::Ack), vec![1]);
    assert_eq!(encode(&Message::Exit), vec![2]);
    assert_eq!(encode(&Message::InputWidth { width: 0x0102_0304 }), vec![18, 4, 3, 2, 1]);
    assert_eq!(encode(&Message::Fail { msg: "hi".to_string() }), vec![0, 2, 0, b'h', b'i']);
    assert_eq!(
        encode(&Message::Fork { socket_path: "/s".to_string() }),
        vec![16, 2, 0, b'/', b's']
    );
    assert_eq!(encode(&Message::Data { content: vec![9, 8] }), vec![17, 2, 0, 0, 0, 9, 8]);
}

#[test]
fn v1_roundtrip_leaves_rest() {
    let messages = vec![
        Message::Fail { msg: "näh".to_string() },
        Message::Ack,
        Message::Exit,
        Message::Fork { socket_path: "/tmp/sock-1".to_string() },
        Message::Data { content: vec![0, 255, 7] },
        Message::InputWidth { width: 77 },
    ];
    for m in &messages {
        let mut bytes = encode(m);
        let len = bytes.len();
        bytes.extend_from_slice(&[42, 43]);
        let (r, consumed) = decode(&bytes);
        assert_eq!(consumed, len);
        let back = r.unwrap();
        assert_eq!(encode(&back), encode(m));
    }
}

#[test]
fn v1_prefixes_are_incomplete() {
    let bytes = encode(&Message::Fork { socket_path: "abc".to_string() });
    for n in 0..bytes.len() {
        match decode(&bytes[..n]).0 {
            Err(ProtocolError::Io(e)) => assert_eq!(e.kind(), ErrorKind::UnexpectedEof),
            _ => panic!("prefix {n} did not read as incomplete"),
        }
    }
}

#[test]
fn v1_decode_errors() {
    assert!(matches!(decode(&[3]).0, Err(ProtocolError::InvalidMessageVariant(3))));
    assert!(matches!(decode(&[0, 1, 0, 0xFF]).0, Err(ProtocolError::Utf8(_))));
    assert!(matches!(decode(&[18, 1, 2]).0, Err(ProtocolError::Io(_))));
}

#[test]
fn v1_string_overflow_writes_only_the_variant() {
    let long = "x".repeat(70_000);
    let mut out = Vec::new();
    let r = Message::Fail { msg: long }.to_writer(&mut out);
    assert!(matches!(r, Err(ProtocolError::StringOverflow)));
    assert_eq!(out, vec![0]);
}

#[test]
fn v1_number_codecs() {
    let mut out = Vec::new();
    0xBEEFu16.to_writer(&mut out).unwrap();
    0x0102_0304_0506_0708u64.to_writer(&mut out).unwrap();
    7u8.to_writer(&mut out).unwrap();
    assert_eq!(out, vec![0xEF, 0xBE, 8, 7, 6, 5, 4, 3, 2, 1, 7]);
    let mut reader = out.as_slice();
    assert_eq!(u16::from_reader(&mut reader).unwrap(), 0xBEEF);
    assert_eq!(u64::from_reader(&mut reader).unwrap(), 0x0102_0304_0506_0708);
    assert_eq!(u8::from_reader(&mut reader).unwrap(), 7);
    assert!(u32::from_reader(&mut reader).is_err());
}

#[test]
fn v1_channel_reads_whole_messages_or_nothing() {
    let mut channel = MessageChannel::new(());
    let mut stream = encode(&Message::InputWidth { width: 5 });
    stream.extend(encode(&Message::Ack));
    channel.receive(&stream[..3]);
    assert!(matches!(channel.try_take_message(), Ok(None)));
    assert!(matches!(channel.take_message(), Err(ProtocolError::Io(_))));
    channel.receive(&stream[3..]);
    assert!(matches!(channel.try_take_message(), Ok(Some(Message::InputWidth { width: 5 }))));
    assert!(matches!(channel.take_message(), Ok(Message::Ack)));
    assert!(matches!(channel.try_take_message(), Ok(None)));
}

#[test]
fn v1_channel_keeps_what_follows_a_message() {
    let mut channel = MessageChannel::new(());
    let mut stream = encode(&Message::Data { content: vec![1, 2, 3] });
    stream.extend(encode(&Message::Fail { msg: "long enough message".to_string() }));
    channel.receive(&stream);
    assert!(matches!(channel.take_message(), Ok(Message::Data { content }) if content == vec![1, 2, 3]));
    assert!(matches!(channel.take_message(), Ok(Message::Fail { msg }) if msg == "long enough message"));
}

#[test]
fn v1_channel_bad_variant_keeps_bytes() {
    let mut channel = MessageChannel::new(());
    channel.receive(&[9, 1]);
    assert!(matches!(channel.try_take_message(), Err(ProtocolError::InvalidMessageVariant(9))));
    assert!(matches!(channel.try_take_message(), Err(ProtocolError::InvalidMessageVariant(9))));
}

#[test]
fn v1_channel_replace_drops_pending_bytes() {
    let mut channel = MessageChannel::new(1u32);
    channel.receive(&[18, 1]);
    assert_eq!(channel.replace(2), 1);
    assert_eq!(*channel.connection_mut(), 2);
    channel.receive(&[1]);
    assert!(matches!(channel.take_message(), Ok(Message::Ack)));
}

#[test]
fn v1_error_texts() {
    assert_eq!(ProtocolError::InvalidMessageVariant(0x0A).describe(), "Invalid message variant: 0x0A");
    assert_eq!(ProtocolError::InvalidMessageVariant(255).describe(), "Invalid message variant: 0xFF");
    assert_eq!(ProtocolError::StringOverflow.describe(), "Given string is too large to be sent");
    assert_eq!(ProtocolError::BytearrayOverflow.describe(), "Given bytearray is too large to be sent");
    assert_eq!(
        ProtocolError::PlatformConvert("u32").describe(),
        "Platform is unable to convert u32 to usize"
    );
    assert_eq!(ProtocolError::other("boom").describe(), "boom");
    assert!(matches!(ProtocolError::other("boom"), ProtocolError::Other(s) if s == "boom"));
    let io = std::io::Error::new(ErrorKind::Other, "disk");
    assert_eq!(ProtocolError::from(io).describe(), "IOError: disk");
    let bad = String::from_utf8(vec![b'a', 0xC3]).unwrap_err();
    assert_eq!(
        ProtocolError::from(bad).describe(),
        "Utf8: incomplete utf-8 byte sequence from index 1"
    );
    assert!(matches!(ProtocolError::from("x"), ProtocolError::Other(s) if s == "x"));
    assert!(matches!(ProtocolError::from("y".to_string()), ProtocolError::Other(s) if s == "y"));
}
