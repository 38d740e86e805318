//! The bookkeeping of the fork server: which forks exist, and the activation table that the
//! server shares with its forks to start them and to see when they are done.

use crate::text::decimal;
use crate::text::usize_text;
use crate::vl_fork_server::error::ProtocolError;
use crate::vl_fork_server::error::ProtocolResult;
use vstd::prelude::*;
use vstd::string::StringExecFns;

verus! {

/// How many forks the server can run at once.
pub const MAX_FORKS: usize = 512;

/// Bytes of the activation table: two 32-bit words for each fork.
pub const FORK_ACTIVATION_SIZE: usize = MAX_FORKS * 2 * 4;

/// The state of a fork, as the first of its two words in the activation table holds it.
#[derive(Debug, Clone, Copy, PartialEq, Eq, Structural)]
pub enum Activation {
    Inactive,
    Done,
    Startable,
    Active,
}

impl Activation {
    pub open spec fn spec_word(self) -> u32 {
        match self {
            Activation::Inactive => 0,
            Activation::Done => 1,
            Activation::Startable => 2,
            Activation::Active => 3,
        }
    }

    /// The word that stands for this state in the activation table.
    pub fn word(self) -> (w: u32)
        ensures
            w == self.spec_word(),
    {
        match self {
            Activation::Inactive => 0,
            Activation::Done => 1,
            Activation::Startable => 2,
            Activation::Active => 3,
        }
    }
}

/// Whether a fork whose state word is `word` is still running: it was started and has not yet
/// reported that it is done.
pub open spec fn word_is_running(word: u32) -> bool {
    word == Activation::Startable.spec_word() || word == Activation::Active.spec_word()
}

/// The forks of a fork server: how many there are, the largest input they take, and the
/// activation table, which holds for fork `i` its state at word `2 * i` and the length of its
/// input at word `2 * i + 1`.
pub struct ForkTable {
    activations: Vec<u32>,
    num_forks: usize,
    max_input_size: usize,
}

impl ForkTable {
    /// The table has two words for each possible fork, and no more forks than that.
    pub open spec fn wf(&self) -> bool {
        &&& self.words().len() == 2 * MAX_FORKS
        &&& self.fork_count() <= MAX_FORKS
    }

    /// The activation table.
    pub closed spec fn words(&self) -> Seq<u32> {
        self.activations@
    }

    /// How many forks have been created.
    pub closed spec fn fork_count(&self) -> nat {
        self.num_forks as nat
    }

    /// The largest input a fork takes, in bytes.
    pub closed spec fn input_limit(&self) -> nat {
        self.max_input_size as nat
    }

    /// The state word of fork `at`.
    pub open spec fn status(&self, at: int) -> u32 {
        self.words()[2 * at]
    }

    /// The input length word of fork `at`.
    pub open spec fn input_len(&self, at: int) -> u32 {
        self.words()[2 * at + 1]
    }

    /// A table for forks that take inputs of at most `max_input_size` bytes, with no forks yet,
    /// and every fork inactive with an empty input.
    pub fn new(max_input_size: usize) -> (table: Self)
        ensures
            table.wf(),
            table.words() == Seq::new((2 * MAX_FORKS) as nat, |i: int| 0u32),
            table.fork_count() == 0,
            table.input_limit() == max_input_size,
    {
        let mut activations: Vec<u32> = Vec::with_capacity(2 * MAX_FORKS);
        let mut i: usize = 0;
        while i < MAX_FORKS
            invariant
                i <= MAX_FORKS,
                activations@ == Seq::new((2 * i) as nat, |j: int| 0u32),
            decreases MAX_FORKS - i,
        {
            activations.push(Activation::Inactive.word());
            activations.push(0);
            i = i + 1;
            assert(activations@ =~= Seq::new((2 * i) as nat, |j: int| 0u32));
        }
        ForkTable { activations, num_forks: 0, max_input_size }
    }

    /// The index the next fork would get; an error when the table is full.
    pub fn next_fork_index(&self) -> (r: ProtocolResult<usize>)
        requires
            self.wf(),
        ensures
            self.fork_count() == MAX_FORKS ==> (r matches Err(ProtocolError::Other(s)) && s@
                == "Maximum number of forks (512) reached"@),
            self.fork_count() < MAX_FORKS ==> r == Ok::<usize, ProtocolError>(
                self.fork_count() as usize,
            ),
    {
        if self.num_forks == MAX_FORKS {
            return Err(ProtocolError::Other(String::from_str("Maximum number of forks (512) reached")));
        }
        Ok(self.num_forks)
    }

    /// Creates a fork, returning its index; an error when the table is full.
    pub fn create_fork(&mut self) -> (r: ProtocolResult<usize>)
        requires
            old(self).wf(),
        ensures
            final(self).wf(),
            final(self).words() == old(self).words(),
            final(self).input_limit() == old(self).input_limit(),
            old(self).fork_count() == MAX_FORKS ==> (r matches Err(ProtocolError::Other(s)) && s@
                == "Maximum number of forks (512) reached"@) && final(self).fork_count() == old(
                self,
            ).fork_count(),
            old(self).fork_count() < MAX_FORKS ==> r == Ok::<usize, ProtocolError>(
                old(self).fork_count() as usize,
            ) && final(self).fork_count() == old(self).fork_count() + 1,
    {
        let idx = match self.next_fork_index() {
            Ok(idx) => idx,
            Err(e) => return Err(e),
        };
        self.num_forks = self.num_forks + 1;
        Ok(idx)
    }

    /// Starts fork `at` on an input of `input_len` bytes: records the length, then marks the fork
    /// startable. An error, changing nothing, when the input is larger than the forks take.
    pub fn start_fork(&mut self, at: usize, input_len: usize) -> (r: ProtocolResult<()>)
        requires
            old(self).wf(),
            input_len <= old(self).input_limit() ==> at < old(self).fork_count() && !word_is_running(
                old(self).status(at as int),
            ),
        ensures
            final(self).wf(),
            final(self).fork_count() == old(self).fork_count(),
            final(self).input_limit() == old(self).input_limit(),
            input_len > old(self).input_limit() ==> (r matches Err(ProtocolError::Other(s)) && s@
                == "Invalid input. Size is too large (len="@ + decimal(input_len as nat)
                + " where max length is "@ + decimal(old(self).input_limit()) + ")"@)
                && final(self).words() == old(self).words(),
            input_len <= old(self).input_limit() ==> r is Ok && final(self).words() == old(
                self,
            ).words().update(2 * at + 1, input_len as u32).update(
                2 * at,
                Activation::Startable.spec_word(),
            ),
    {
        if input_len > self.max_input_size {
            let mut text = String::from_str("Invalid input. Size is too large (len=");
            let len_text = usize_text(input_len);
            text.append(len_text.as_str());
            text.append(" where max length is ");
            let max_text = usize_text(self.max_input_size);
            text.append(max_text.as_str());
            text.append(")");
            return Err(ProtocolError::Other(text));
        }
        let len_word = input_len as u32;
        self.activations.set(at * 2 + 1, len_word);
        self.activations.set(at * 2, Activation::Startable.word());
        Ok(())
    }

    /// Whether fork `at` has finished, which its state word shows by being 0 (`Inactive`). An
    /// error when there is no such fork.
    pub fn try_finish(&self, at: usize) -> (r: ProtocolResult<bool>)
        requires
            self.wf(),
        ensures
            at >= self.fork_count() ==> (r matches Err(ProtocolError::Other(s)) && s@
                == "Finish `at` index is out of range"@),
            at < self.fork_count() ==> r == Ok::<bool, ProtocolError>(
                self.status(at as int) == Activation::Inactive.spec_word(),
            ),
    {
        if at >= self.num_forks {
            return Err(ProtocolError::Other(String::from_str("Finish `at` index is out of range")));
        }
        let word = self.activations[at * 2];
        Ok(word == Activation::Inactive.word())
    }

    /// Whether fork `at` is running: started, and not yet done.
    pub fn is_running(&self, at: usize) -> (running: bool)
        requires
            self.wf(),
            at < MAX_FORKS,
        ensures
            running == word_is_running(self.status(at as int)),
    {
        let word = self.activations[at * 2];
        word == Activation::Startable.word() || word == Activation::Active.word()
    }

    /// The activation table, to copy into the memory shared with the forks.
    pub fn activation_words(&self) -> (words: &[u32])
        ensures
            words@ == self.words(),
    {
        self.activations.as_slice()
    }

    /// Takes over the activation table as the forks have left it in shared memory.
    pub fn load_activations(&mut self, words: &[u32])
        requires
            old(self).wf(),
            words@.len() == 2 * MAX_FORKS,
        ensures
            final(self).wf(),
            final(self).words() == words@,
            final(self).fork_count() == old(self).fork_count(),
            final(self).input_limit() == old(self).input_limit(),
    {
        let mut i: usize = 0;
        while i < 2 * MAX_FORKS
            invariant
                i <= 2 * MAX_FORKS,
                words@.len() == 2 * MAX_FORKS,
                self.activations@.len() == 2 * MAX_FORKS,
                self.num_forks == old(self).num_forks,
                self.max_input_size == old(self).max_input_size,
                self.num_forks <= MAX_FORKS,
                forall|j: int| 0 <= j < i ==> self.activations@[j] == words@[j],
            decreases 2 * MAX_FORKS - i,
        {
            self.activations.set(i, words[i]);
            i = i + 1;
        }
        assert(self.activations@ =~= words@);
    }
}

/// A started fork is running, so it is not reported finished until it writes another state into
/// its word of the activation table.
pub proof fn law_started_fork_is_running(
    before: Seq<u32>,
    at: int,
    input_len: u32,
)
    requires
        0 <= at < MAX_FORKS,
        before.len() == 2 * MAX_FORKS,
    ensures
        word_is_running(
            before.update(2 * at + 1, input_len).update(2 * at, Activation::Startable.spec_word())[2
                * at],
        ),
        before.update(2 * at + 1, input_len).update(2 * at, Activation::Startable.spec_word())[2
            * at + 1] == input_len,
{
}

/// The words of the activation table: 0 for `Inactive`, 1 for `Done`, 2 for `Startable` and 3
/// for `Active`. A fork is running exactly when its word is 2 or 3, and it has finished exactly
/// when its word is 0.
pub proof fn law_activation_words(table: ForkTable, at: int)
    requires
        table.wf(),
        0 <= at < MAX_FORKS,
    ensures
        Activation::Inactive.spec_word() == 0u32,
        Activation::Done.spec_word() == 1u32,
        Activation::Startable.spec_word() == 2u32,
        Activation::Active.spec_word() == 3u32,
        word_is_running(table.status(at)) <==> (table.status(at) == 2u32 || table.status(at)
            == 3u32),
        (table.status(at) == Activation::Inactive.spec_word()) <==> (table.status(at) == 0u32),
{
}

} // verus!
