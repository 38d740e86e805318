//! Access modes of the shared-memory buffers through which the server and its forks exchange
//! inputs, outputs and activation states.

use vstd::prelude::*;

verus! {

/// Whether a shared-memory buffer is mapped for reading only, or for reading and writing.
#[derive(Debug, Clone, Copy, PartialEq, Eq, Structural)]
pub enum Access {
    ReadOnly,
    ReadWrite,
}

} // verus!
