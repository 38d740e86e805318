use rand::SeedableRng;
use rand_chacha::ChaCha20Rng;
use verilator_simulation_manager::fuzz_server::FuzzLoop;
use verilator_simulation_manager::fuzz_server::FuzzServer;
use verilator_simulation_manager::fuzzer::FuzzFeedback;
use verilator_simulation_manager::fuzzer::FuzzInput;
use verilator_simulation_manager::fuzzer::FuzzMutator;
use verilator_simulation_manager::vl_fork_server::error::ProtocolError;
use verilator_simulation_manager::vl_fork_server::message::Message;

fn zero_seeded_rng() -> ChaCha20Rng {
    ChaCha20Rng::from_seed([0u8; 32])
}

fn contents(queue: &[FuzzInput]) -> Vec<Vec<u8>> {
    queue.iter().map(|i| i.content().to_vec()).collect()
}

#[test]
fn mutator_queues_each_new_mutation_once() {
    let mut mutator = FuzzMutator::new(4, zero_seeded_rng());
    let mut queue = Vec::new();
    mutator.deterministic_mutate(&mut queue, &[0x00]);
    assert_eq!(contents(&queue), vec![vec![1], vec![2], vec![4], vec![8], vec![0xF0]]);
    mutator.deterministic_mutate(&mut queue, &[0x00]);
    assert_eq!(queue.len(), 5);
    // from [1]: every mutation is new
    mutator.deterministic_mutate(&mut queue, &[0x01]);
    assert_eq!(
        contents(&queue[5..]),
        vec![vec![0], vec![3], vec![5], vec![9], vec![0xF1]]
    );
    // from [3]: [2] and [1] were seen
    let before = queue.len();
    mutator.deterministic_mutate(&mut queue, &[0x03]);
    assert_eq!(contents(&queue[before..]), vec![vec![7], vec![0x0B], vec![0xF3]]);
}

#[test]
fn mutator_skips_duplicates_within_one_call() {
    // width 8: eight bit flips, five nibble flips, one byte flip, all different
    let mut mutator = FuzzMutator::new(8, zero_seeded_rng());
    let mut queue = Vec::new();
    mutator.deterministic_mutate(&mut queue, &[0x00]);
    let got = contents(&queue);
    assert_eq!(got.len(), 8 + 5 + 1);
    let mut unique = got.clone();
    unique.sort();
    unique.dedup();
    assert_eq!(unique.len(), got.len());
    assert_eq!(got[8], vec![0xF0]);
    assert_eq!(got[12], vec![0x0F]);
    assert_eq!(got[13], vec![0xFF]);
}

#[test]
fn random_inputs_have_one_row() {
    let mut mutator = FuzzMutator::new(12, zero_seeded_rng());
    assert_eq!(mutator.width(), 12);
    assert_eq!(mutator.random_input().content().len(), 2);
    let mut zero = FuzzMutator::new(0, zero_seeded_rng());
    assert_eq!(zero.random_input().content().len(), 0);
}

#[test]
fn feedback_keeps_data_and_hashes_it() {
    let feedback = FuzzFeedback::new(vec![1, 2, 3]);
    assert_eq!(feedback.data(), &[1, 2, 3]);
    assert_eq!(feedback.hash(), fxhash::hash64(&[1u8, 2, 3][..]));
    assert_ne!(feedback.hash(), FuzzFeedback::new(vec![1, 2, 4]).hash());
}

#[test]
fn input_copies() {
    let input = FuzzInput::new(vec![4, 5]);
    assert_eq!(input.duplicate().content(), &[4, 5]);
    assert_eq!(input.into_content(), vec![4, 5]);
}

#[test]
fn server_needs_input_width_first() {
    match FuzzServer::new(Message::Ack) {
        Err(ProtocolError::Other(s)) => {
            assert_eq!(s, "Expected input width message from fork server")
        }
        _ => panic!("expected an error"),
    }
    let server = FuzzServer::new(Message::InputWidth { width: 16 }).ok().unwrap();
    assert_eq!(server.width(), 16);
    assert_eq!(server.run_queue_len(), 0);
    assert_eq!(server.mutation_queue_len(), 0);
}

#[test]
fn server_refresh_and_exec() {
    let mut server = FuzzServer::new(Message::InputWidth { width: 4 }).ok().unwrap();
    server.add_slot();
    assert!(!server.has_input(0));
    let refresh = server.refill_if_empty().unwrap();
    assert!(refresh.started_from_random);
    assert_eq!(refresh.queue_len, 1);
    assert!(server.refill_if_empty().is_none());
    match server.take_next(0) {
        Some(Message::Data { content }) => assert_eq!(content.len(), 1),
        _ => panic!("expected a data message"),
    }
    assert!(server.has_input(0));
    assert!(server.take_next(0).is_none());
}

#[test]
fn loop_records_new_coverage() {
    let mut server = FuzzServer::new(Message::InputWidth { width: 4 }).ok().unwrap();
    let mut fuzz = FuzzLoop::new(1, Some(4));
    server.add_slot();
    fuzz.child_started();
    server.refill_if_empty();
    assert!(server.take_next(0).is_some());
    assert_eq!(fuzz.next_offset(), 0);

    let step = fuzz.record_feedback(&mut server, 77);
    assert!(!step.stop);
    assert!(step.branch_report.is_none());
    assert!(fuzz.covers(77));
    assert_eq!(server.mutation_queue_len(), 1);
    assert_eq!(fuzz.num_iters(), 2);

    let step = fuzz.record_feedback(&mut server, 77);
    assert!(!step.stop);
    assert_eq!(server.mutation_queue_len(), 1);

    let refresh = server.refresh_queue();
    assert!(!refresh.started_from_random);
    assert_eq!(server.mutation_queue_len(), 0);
    assert_eq!(refresh.queue_len, server.run_queue_len());
    assert!(refresh.queue_len > 0);

    let step = fuzz.record_feedback(&mut server, 78);
    assert!(step.stop);
}

#[test]
fn loop_reports_every_hundred_branches() {
    let mut server = FuzzServer::new(Message::InputWidth { width: 8 }).ok().unwrap();
    let mut fuzz = FuzzLoop::new(2, None);
    server.add_slot();
    server.add_slot();
    server.refill_if_empty();
    server.take_next(1);
    assert_eq!(fuzz.next_offset(), 1);
    for hash in 0..99u64 {
        let step = fuzz.record_feedback(&mut server, hash);
        assert!(step.branch_report.is_none());
        assert!(!step.stop);
    }
    let step = fuzz.record_feedback(&mut server, 1000);
    assert_eq!(step.branch_report, Some(100));
    assert_eq!(fuzz.next_offset(), 0);
    assert_eq!(fuzz.next_offset(), 1);
}
