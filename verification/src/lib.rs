pub mod fuzz_server;
pub mod fuzzer;
pub mod monitor;
pub mod mutator;
pub mod socket_protocol;
pub mod text;
pub mod vl_fork_server;
pub mod wire;
