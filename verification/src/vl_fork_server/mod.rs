pub mod error;
pub mod message;
pub mod message_channel;
pub mod shared_memory;
pub mod fork_table;
pub mod naming;
