use std::io::ErrorKind;

use verilator_simulation_manager::vl_fork_server::error::ProtocolError;
use verilator_simulation_manager::vl_fork_server::fork_table::Activation;
use verilator_simulation_manager::vl_fork_server::fork_table::ForkTable;
use verilator_simulation_manager::vl_fork_server::fork_table::MAX_FORKS;
use verilator_simulation_manager::vl_fork_server::message::FromReader;
use verilator_simulation_manager::vl_fork_server::message::Message;
use verilator_simulation_manager::vl_fork_server::message::MessageVariant;
use verilator_simulation_manager::vl_fork_server::message::ToWriter;
use verilator_simulation_manager::vl_fork_server::message_channel::MessageChannel;
use verilator_simulation_manager::vl_fork_server::naming::buffer_id_available;
use verilator_simulation_manager::vl_fork_server::naming::shared_memory_name;
use verilator_simulation_manager::vl_fork_server::naming::socket_dir_name;
use verilator_simulation_manager::vl_fork_server::naming::socket_dir_name_for;
use verilator_simulation_manager::vl_fork_server::naming::socket_file_name;

fn encode(m: &Message) -> Vec<u8> {
    let mut out = Vec::new();
    m.to_writer(&mut out).unwrap();
    out
}

fn decode(bytes: &[u8]) -> (Result<Message, ProtocolError>, usize) {
    let mut reader = bytes;
    let r = Message::from_reader(&mut reader);
    (r, bytes.len() - reader.len())
}

#[test]
fn wire_bytes() {
    assert_eq!(encode(&Message::Ack), vec![1]);
    assert_eq!(encode(&Message::InputWidth { width: 256 }), vec![18, 0, 1, 0, 0]);
    assert_eq!(encode(&Message::Fail { msg: "hi".to_string() }), vec![0, 2, 0, 0, 0, b'h', b'i']);
    assert_eq!(
        encode(&Message::Fork { input: "a".to_string(), output: "bc".to_string() }),
        vec![16, 1, 0, 0, 0, b'a', 2, 0, 0, 0, b'b', b'c']
    );
    assert_eq!(encode(&Message::Data { content: vec![] }), vec![17, 0, 0, 0, 0]);
    let slice: &[u8] = &[5, 6];
    let mut out = Vec::new();
    slice.to_writer(&mut out).unwrap();
    assert_eq!(out, vec![2, 0, 0, 0, 5, 6]);
}

#[test]
fn roundtrip_leaves_rest() {
    let messages = vec![
        Message::Fail { msg: "ü".to_string() },
        Message::Ack,
        Message::Exit,
        Message::Fork { input: "/in".to_string(), output: "/out".to_string() },
        Message::Data { content: vec![1; 300] },
        Message::InputWidth { width: u32::MAX },
    ];
    for m in &messages {
        let mut bytes = encode(m);
        let len = bytes.len();
        bytes.push(99);
        let (r, consumed) = decode(&bytes);
        assert_eq!(consumed, len);
        let back = r.unwrap();
        assert_eq!(back.variant().name(), m.variant().name());
        assert_eq!(encode(&back), encode(m));
    }
}

#[test]
fn prefixes_are_incomplete() {
    let bytes = encode(&Message::Fork { input: "ab".to_string(), output: "cd".to_string() });
    for n in 0..bytes.len() {
        match decode(&bytes[..n]).0 {
            Err(ProtocolError::Io(e)) => assert_eq!(e.kind(), ErrorKind::UnexpectedEof),
            _ => panic!("prefix {n} did not read as incomplete"),
        }
    }
}

#[test]
fn decode_errors() {
    assert!(matches!(decode(&[200]).0, Err(ProtocolError::InvalidMessageVariant(200))));
    assert!(matches!(decode(&[0, 1, 0, 0, 0, 0xC0]).0, Err(ProtocolError::Utf8(_))));
    assert!(matches!(decode(&[16, 1, 0, 0, 0, b'a', 1, 0, 0, 0, 0xFF]).0, Err(ProtocolError::Utf8(_))));
}

#[test]
fn variants() {
    assert!(matches!(MessageVariant::try_from(17u8), Ok(MessageVariant::Data)));
    assert!(matches!(MessageVariant::try_from(5u8), Err(5)));
    assert!(matches!(Message::Exit.variant(), MessageVariant::Exit));
    assert_eq!(MessageVariant::InputWidth.name(), "InputWidth");
}

#[test]
fn channel_reads_whole_messages_or_nothing() {
    let mut channel = MessageChannel::new(());
    let mut stream = encode(&Message::Fork { input: "i".to_string(), output: "o".to_string() });
    stream.extend(encode(&Message::Exit));
    for b in &stream[..stream.len() - 2] {
        assert!(matches!(channel.try_take_message(), Ok(None)));
        channel.receive(std::slice::from_ref(b));
    }
    channel.receive(&stream[stream.len() - 2..]);
    assert!(matches!(channel.take_message(), Ok(Message::Fork { input, output }) if input == "i" && output == "o"));
    assert!(matches!(channel.take_message(), Ok(Message::Exit)));
}

#[test]
fn error_texts() {
    assert_eq!(
        ProtocolError::UnexpectedMessage(Message::Ack).describe(),
        "Message Ack was not expected"
    );
    assert_eq!(
        ProtocolError::UnexpectedMessage(Message::Data { content: vec![] }).describe(),
        "Message Data was not expected"
    );
    assert_eq!(ProtocolError::InvalidMessageVariant(0x3C).describe(), "Invalid message variant: 0x3C");
    assert_eq!(ProtocolError::other("x").describe(), "x");
    let bad = String::from_utf8(vec![0xFF]).unwrap_err();
    assert_eq!(
        ProtocolError::Utf8(bad).describe(),
        "Utf8: invalid utf-8 sequence of 1 bytes from index 0"
    );
    assert!(matches!(ProtocolError::from("z"), ProtocolError::Other(s) if s == "z"));
}

#[test]
fn table_starts_all_inactive() {
    let table = ForkTable::new(8);
    assert_eq!(table.activation_words(), vec![0u32; 2 * MAX_FORKS].as_slice());
    assert_eq!(Activation::Startable.word(), 2);
    assert_eq!(Activation::Done.word(), 1);
}

#[test]
fn table_refuses_more_than_max_forks() {
    let mut table = ForkTable::new(8);
    for i in 0..MAX_FORKS {
        assert_eq!(table.create_fork().unwrap(), i);
    }
    match table.create_fork() {
        Err(ProtocolError::Other(s)) => assert_eq!(s, "Maximum number of forks (512) reached"),
        _ => panic!("expected an error"),
    }
    assert!(table.next_fork_index().is_err());
}

#[test]
fn table_start_and_finish() {
    let mut table = ForkTable::new(8);
    assert_eq!(table.create_fork().unwrap(), 0);
    assert_eq!(table.create_fork().unwrap(), 1);
    match table.start_fork(1, 10) {
        Err(ProtocolError::Other(s)) => {
            assert_eq!(s, "Invalid input. Size is too large (len=10 where max length is 8)")
        }
        _ => panic!("expected an error"),
    }
    assert!(table.start_fork(1, 5).is_ok());
    assert_eq!(table.activation_words()[2], 2);
    assert_eq!(table.activation_words()[3], 5);
    assert_eq!(table.try_finish(1).unwrap(), false);
    assert_eq!(table.try_finish(0).unwrap(), true);
    match table.try_finish(2) {
        Err(ProtocolError::Other(s)) => assert_eq!(s, "Finish `at` index is out of range"),
        _ => panic!("expected an error"),
    }
    let mut words = table.activation_words().to_vec();
    words[2] = Activation::Done.word();
    table.load_activations(&words);
    assert_eq!(table.try_finish(1).unwrap(), false);
    words[2] = Activation::Active.word();
    table.load_activations(&words);
    assert_eq!(table.try_finish(1).unwrap(), false);
    words[2] = Activation::Inactive.word();
    table.load_activations(&words);
    assert_eq!(table.try_finish(1).unwrap(), true);
}

#[test]
fn file_names() {
    assert_eq!(socket_file_name(0), "sock-0");
    assert_eq!(socket_dir_name_for(0xAB), "vsm-00000000000000AB");
    assert_eq!(socket_dir_name_for(u64::MAX), "vsm-FFFFFFFFFFFFFFFF");
    assert_eq!(socket_file_name(12), "sock-12");
    assert_eq!(shared_memory_name(7, 3), "vfs-7-3\0");
    assert_eq!(shared_memory_name(4_000_000_000, 65_534), "vfs-4000000000-65534\0");
    let dir = socket_dir_name();
    assert_eq!(dir.len(), 20);
    assert!(dir.starts_with("vsm-"));
    assert!(dir[4..].chars().all(|c| c.is_ascii_digit() || ('A'..='F').contains(&c)));
    assert!(buffer_id_available(0));
    assert!(!buffer_id_available(u16::MAX));
}

#[test]
fn table_running_state() {
    let mut table = ForkTable::new(4);
    assert_eq!(table.create_fork().unwrap(), 0);
    assert!(!table.is_running(0));
    table.start_fork(0, 4).unwrap();
    assert!(table.is_running(0));
    assert_eq!(table.activation_words()[1], 4);
}

#[test]
fn shared_memory_names_differ_by_number() {
    assert_ne!(shared_memory_name(7, 1), shared_memory_name(7, 2));
    assert_ne!(shared_memory_name(7, 12), shared_memory_name(71, 2));
    assert_eq!(shared_memory_name(7, 12), "vfs-7-12\0");
    assert_eq!(shared_memory_name(71, 2), "vfs-71-2\0");
}
