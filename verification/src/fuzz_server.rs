//! The decisions of the fuzzing server: which input each fork runs next, when to refill the queue
//! of inputs, and what to make of a fork's feedback. Running the forks themselves happens outside;
//! these functions take what came back and say what to do next.

use crate::fuzzer::coverage_contents;
use crate::fuzzer::inputs_view;
use crate::fuzzer::lemma_novel_append;
use crate::fuzzer::lemma_novel_from_candidates;
use crate::fuzzer::mutable_row;
use crate::fuzzer::mutation_candidates;
use crate::fuzzer::novel;
use crate::fuzzer::seen_with;
use crate::fuzzer::zero_seeded_rng;
use crate::fuzzer::CoverageSet;
use crate::fuzzer::FuzzInput;
use crate::fuzzer::FuzzMutator;
use crate::mutator::bytes_for_bits;
use crate::vl_fork_server::error::ProtocolError;
use crate::vl_fork_server::error::ProtocolResult;
use crate::vl_fork_server::message::Message;
use crate::vl_fork_server::message::MessageView;
use vstd::prelude::*;
use vstd::string::StringExecFns;

verus! {

/// What a refill of the run queue did: whether it started from a random input (there was nothing
/// to mutate), and how many inputs the run queue holds afterwards.
pub struct Refresh {
    pub started_from_random: bool,
    pub queue_len: usize,
}

/// The state of a fuzzing server as plain values.
pub struct ServerView {
    /// Bits in an input.
    pub width: u32,
    /// Inputs waiting to run; the last one runs next.
    pub run: Seq<Seq<u8>>,
    /// Inputs that found new coverage, waiting to be mutated.
    pub mutation: Seq<Seq<u8>>,
    /// The input each fork runs, by fork index.
    pub slots: Seq<Option<Seq<u8>>>,
    /// Every input the mutator has produced.
    pub seen: Set<Seq<u8>>,
    /// The mutator's random generator.
    pub generator: rand_chacha::ChaCha20Rng,
}

/// Every deterministic mutation of each of `inputs`, in order.
pub open spec fn all_candidates(width: u32, inputs: Seq<Seq<u8>>) -> Seq<Seq<u8>>
    decreases inputs.len(),
{
    if inputs.len() == 0 {
        Seq::empty()
    } else {
        all_candidates(width, inputs.drop_last()) + mutation_candidates(width, inputs.last())
    }
}

/// Whether `after` is what refilling the run queue of `before` gives, as `report` describes it.
/// With nothing to mutate, one random input of the right length is queued. Otherwise every
/// mutation of every input waiting to be mutated is queued, when the mutator has not produced
/// it before, the mutation queue is emptied, and the random generator is left as it was.
pub open spec fn refreshed(before: ServerView, after: ServerView, report: Refresh) -> bool {
    &&& after.width == before.width
    &&& after.slots == before.slots
    &&& after.mutation == Seq::<Seq<u8>>::empty()
    &&& report.queue_len == after.run.len()
    &&& report.started_from_random == (before.mutation.len() == 0)
    &&& before.mutation.len() == 0 ==> {
        &&& after.seen == before.seen
        &&& after.run.len() == before.run.len() + 1
        &&& after.run.take(before.run.len() as int) == before.run
        &&& after.run.last().len() == bytes_for_bits(before.width as int)
    }
    &&& before.mutation.len() > 0 ==> {
        &&& after.generator == before.generator
        &&& after.run == before.run + novel(all_candidates(before.width, before.mutation), before.seen)
        &&& after.seen == seen_with(before.seen, all_candidates(before.width, before.mutation))
    }
}

/// The inputs of the fork slots, as plain values.
pub open spec fn slots_view(slots: Seq<Option<FuzzInput>>) -> Seq<Option<Seq<u8>>> {
    slots.map_values(
        |o: Option<FuzzInput>|
            match o {
                Some(x) => Some(x@),
                None => None,
            },
    )
}

/// Every input has exactly the bytes of one row of `width` bits.
pub open spec fn all_rows(width: u32, inputs: Seq<Seq<u8>>) -> bool {
    forall|j: int| 0 <= j < inputs.len() ==> (#[trigger] inputs[j]).len() == bytes_for_bits(
        width as int,
    )
}

/// The state of the fuzzing server, apart from the forks themselves.
pub struct FuzzServer {
    current_datas: Vec<Option<FuzzInput>>,
    mutator: FuzzMutator,
    run_queue: Vec<FuzzInput>,
    mutation_queue: Vec<FuzzInput>,
}

impl View for FuzzServer {
    type V = ServerView;

    closed spec fn view(&self) -> ServerView {
        ServerView {
            width: self.mutator.spec_width(),
            run: inputs_view(self.run_queue@),
            mutation: inputs_view(self.mutation_queue@),
            slots: slots_view(self.current_datas@),
            seen: self.mutator.seen(),
            generator: self.mutator.generator(),
        }
    }
}

impl ServerView {
    /// Every input the server holds is exactly one row of the input width.
    pub open spec fn wf(self) -> bool {
        &&& all_rows(self.width, self.run)
        &&& all_rows(self.width, self.mutation)
        &&& forall|j: int|
            0 <= j < self.slots.len() && (#[trigger] self.slots[j]) is Some ==> self.slots[j]->0.len()
                == bytes_for_bits(self.width as int)
    }
}

/// An input of one row can be mutated as a row.
proof fn lemma_row_mutable(width: u32, input: Seq<u8>)
    requires
        input.len() == bytes_for_bits(width as int),
    ensures
        mutable_row(width, input),
{
    let n = input.len() as int;
    if width > 0 {
        assert(n % n == 0) by (nonlinear_arith)
            requires
                n > 0,
        ;
    }
}

/// Every mutation of an input of one row is again one row.
proof fn lemma_candidates_are_rows(width: u32, input: Seq<u8>)
    requires
        input.len() == bytes_for_bits(width as int),
    ensures
        all_rows(width, mutation_candidates(width, input)),
{
    crate::fuzzer::lemma_candidates_keep_length(width, input);
}

/// Splitting off the last input of a sequence.
proof fn lemma_all_candidates_step(width: u32, inputs: Seq<Seq<u8>>, j: int)
    requires
        0 <= j < inputs.len(),
    ensures
        all_candidates(width, inputs.take(j + 1)) == all_candidates(width, inputs.take(j))
            + mutation_candidates(width, inputs[j]),
{
    assert(inputs.take(j + 1).drop_last() =~= inputs.take(j));
}

/// The set of a concatenation is the union of the sets of its parts.
proof fn lemma_seen_with_append(seen: Set<Seq<u8>>, a: Seq<Seq<u8>>, b: Seq<Seq<u8>>)
    ensures
        seen_with(seen_with(seen, a), b) == seen_with(seen, a + b),
{
    assert forall|x: Seq<u8>| (a + b).contains(x) <==> (a.contains(x) || b.contains(x)) by {
        if (a + b).contains(x) {
            let k = choose|k: int| 0 <= k < (a + b).len() && (a + b)[k] == x;
            if k < a.len() {
                assert(a[k] == x);
            } else {
                assert(b[k - a.len()] == x);
            }
        }
        if a.contains(x) {
            let k = choose|k: int| 0 <= k < a.len() && a[k] == x;
            assert((a + b)[k] == x);
        }
        if b.contains(x) {
            let k = choose|k: int| 0 <= k < b.len() && b[k] == x;
            assert((a + b)[a.len() + k] == x);
        }
    }
    assert(seen_with(seen_with(seen, a), b) =~= seen_with(seen, a + b));
}

proof fn lemma_rows_append(width: u32, a: Seq<Seq<u8>>, b: Seq<Seq<u8>>)
    requires
        all_rows(width, a),
        all_rows(width, b),
    ensures
        all_rows(width, a + b),
{
    assert forall|j: int| 0 <= j < (a + b).len() implies (#[trigger] (a + b)[j]).len()
        == bytes_for_bits(width as int) by {
        if j < a.len() {
            assert((a + b)[j] == a[j]);
        } else {
            assert((a + b)[j] == b[j - a.len()]);
        }
    }
}

impl FuzzServer {
    /// A server for the forks that the first message of the fork server describes: it must give
    /// the input width. The mutator's random source has the all-zero seed.
    pub fn new(first_message: Message) -> (r: ProtocolResult<FuzzServer>)
        ensures
            first_message@ matches MessageView::InputWidth { width } ==> (r matches Ok(s) && s@.wf()
                && s@.width == width && s@.run == Seq::<Seq<u8>>::empty() && s@.mutation
                == Seq::<Seq<u8>>::empty() && s@.slots == Seq::<Option<Seq<u8>>>::empty()
                && s@.seen == Set::<Seq<u8>>::empty()),
            !(first_message@ is InputWidth) ==> (r matches Err(ProtocolError::Other(t)) && t@
                == "Expected input width message from fork server"@),
    {
        let width = match first_message {
            Message::InputWidth { width } => width,
            _ => {
                return Err(
                    ProtocolError::Other(
                        String::from_str("Expected input width message from fork server"),
                    ),
                );
            },
        };
        let rng = zero_seeded_rng();
        let server = FuzzServer {
            current_datas: Vec::new(),
            mutator: FuzzMutator::new(width, rng),
            run_queue: Vec::new(),
            mutation_queue: Vec::new(),
        };
        assert(server@.run =~= Seq::<Seq<u8>>::empty());
        assert(server@.mutation =~= Seq::<Seq<u8>>::empty());
        assert(server@.slots =~= Seq::<Option<Seq<u8>>>::empty());
        Ok(server)
    }

    pub fn width(&self) -> (w: u32)
        ensures
            w == self@.width,
    {
        self.mutator.width()
    }

    pub fn run_queue_len(&self) -> (n: usize)
        ensures
            n == self@.run.len(),
    {
        self.run_queue.len()
    }

    pub fn mutation_queue_len(&self) -> (n: usize)
        ensures
            n == self@.mutation.len(),
    {
        self.mutation_queue.len()
    }

    /// How many fork slots there are.
    pub fn slot_count(&self) -> (n: usize)
        ensures
            n == self@.slots.len(),
    {
        self.current_datas.len()
    }

    /// Whether fork `idx` has an input.
    pub fn has_input(&self, idx: usize) -> (b: bool)
        ensures
            b == (idx < self@.slots.len() && self@.slots[idx as int] is Some),
    {
        idx < self.current_datas.len() && self.current_datas[idx].is_some()
    }

    /// Adds a slot for a new fork, with no input yet.
    pub fn add_slot(&mut self)
        requires
            old(self)@.wf(),
        ensures
            final(self)@.wf(),
            final(self)@ == (ServerView { slots: old(self)@.slots.push(None), ..old(self)@ }),
    {
        self.current_datas.push(None);
        assert(self@.slots =~= old(self)@.slots.push(None));
    }

    /// Refills the run queue: from a random input when there is nothing to mutate, otherwise with
    /// every new mutation of the inputs waiting to be mutated.
    pub fn refresh_queue(&mut self) -> (report: Refresh)
        requires
            old(self)@.wf(),
        ensures
            final(self)@.wf(),
            refreshed(old(self)@, final(self)@, report),
    {
        let ghost before = self@;
        let started_from_random = self.mutation_queue.len() == 0;
        if started_from_random {
            let input = self.mutator.random_input();
            self.run_queue.push(input);
            assert(self@.run =~= before.run.push(input@));
            assert(self@.run.take(before.run.len() as int) =~= before.run);
        } else {
            let width = self.mutator.width();
            let ghost inputs = before.mutation;
            let mut j: usize = 0;
            assert(inputs.take(0) =~= Seq::<Seq<u8>>::empty());
            assert(before.run + novel(Seq::<Seq<u8>>::empty(), before.seen) =~= before.run);
            assert(seen_with(before.seen, Seq::<Seq<u8>>::empty()) =~= before.seen);
            while j < self.mutation_queue.len()
                invariant
                    j <= inputs.len(),
                    inputs == inputs_view(self.mutation_queue@),
                    width == before.width,
                    self.mutator.spec_width() == width,
                    all_rows(width, inputs),
                    all_rows(width, self@.run),
                    self@.run == before.run + novel(all_candidates(width, inputs.take(j as int)), before.seen),
                    self@.seen == seen_with(before.seen, all_candidates(width, inputs.take(j as int))),
                    self@.slots == before.slots,
                    self@.generator == before.generator,
                decreases inputs.len() - j,
            {
                let ghost run_before = self@.run;
                let ghost seen_before = self@.seen;
                let ghost done = all_candidates(width, inputs.take(j as int));
                let ghost next = mutation_candidates(width, inputs[j as int]);
                proof {
                    assert(inputs[j as int].len() == bytes_for_bits(width as int));
                    lemma_row_mutable(width, inputs[j as int]);
                    lemma_candidates_are_rows(width, inputs[j as int]);
                    lemma_all_candidates_step(width, inputs, j as int);
                    lemma_novel_append(done, next, before.seen);
                    lemma_seen_with_append(before.seen, done, next);
                    lemma_novel_from_candidates(next, seen_before, bytes_for_bits(width as int) as nat);
                }
                self.mutator.deterministic_mutate(&mut self.run_queue, self.mutation_queue[j].content());
                proof {
                    lemma_rows_append(width, run_before, novel(next, seen_before));
                    assert(self@.run =~= before.run + novel(all_candidates(width, inputs.take(j + 1)), before.seen));
                }
                j = j + 1;
            }
            assert(inputs.take(inputs.len() as int) =~= inputs);
            self.mutation_queue.clear();
        }
        let report = Refresh { started_from_random, queue_len: self.run_queue.len() };
        assert(self@.mutation =~= Seq::<Seq<u8>>::empty());
        report
    }

    /// Refills the run queue when it is empty (`None` when it was not, changing nothing).
    pub fn refill_if_empty(&mut self) -> (report: Option<Refresh>)
        requires
            old(self)@.wf(),
        ensures
            final(self)@.wf(),
            old(self)@.run.len() > 0 ==> report is None && final(self)@ == old(self)@,
            old(self)@.run.len() == 0 ==> (report matches Some(r) && refreshed(
                old(self)@,
                final(self)@,
                r,
            )),
    {
        if self.run_queue.len() == 0 {
            Some(self.refresh_queue())
        } else {
            None
        }
    }

    /// Takes the next input off the run queue for fork `idx`: records it as the fork's input and
    /// returns the data message to send it. `None`, changing nothing, when the queue is empty.
    pub fn take_next(&mut self, idx: usize) -> (msg: Option<Message>)
        requires
            old(self)@.wf(),
            idx < old(self)@.slots.len(),
        ensures
            final(self)@.wf(),
            old(self)@.run.len() == 0 ==> msg is None && final(self)@ == old(self)@,
            old(self)@.run.len() > 0 ==> (msg matches Some(m) && m@ == MessageView::Data {
                content: old(self)@.run.last(),
            }) && final(self)@ == (ServerView {
                run: old(self)@.run.drop_last(),
                slots: old(self)@.slots.update(idx as int, Some(old(self)@.run.last())),
                ..old(self)@
            }),
    {
        let ghost before = self@;
        match self.run_queue.pop() {
            None => None,
            Some(data) => {
                self.current_datas.set(idx, Some(data.duplicate()));
                assert(self@.run =~= before.run.drop_last());
                assert(self@.slots =~= before.slots.update(idx as int, Some(data@)));
                Some(Message::Data { content: data.into_content() })
            },
        }
    }

    /// Queues the input of fork `idx` for mutation.
    fn queue_for_mutation(&mut self, idx: usize)
        requires
            old(self)@.wf(),
            idx < old(self)@.slots.len(),
            old(self)@.slots[idx as int] is Some,
        ensures
            final(self)@.wf(),
            final(self)@ == (ServerView {
                mutation: old(self)@.mutation.push(old(self)@.slots[idx as int]->0),
                ..old(self)@
            }),
    {
        let input = match &self.current_datas[idx] {
            Some(x) => x.duplicate(),
            None => {
                assert(false);
                return;
            },
        };
        self.mutation_queue.push(input);
        assert(self@.mutation =~= old(self)@.mutation.push(old(self)@.slots[idx as int]->0));
    }
}

/// What to do after a fork's feedback.
pub struct FeedbackStep {
    /// Whether to stop: the iterations asked for have run.
    pub stop: bool,
    /// The number of branches found, when it has just reached a multiple of 100.
    pub branch_report: Option<u64>,
}

/// The state of the fuzzing loop: how many forks take turns, how many iterations to run (if
/// bounded), how many have run, whose turn it is, and the coverage seen so far.
pub struct FuzzLoop {
    num_children: u16,
    iterations: Option<u64>,
    num_iters: u64,
    fork_offset: u16,
    branches_found: u64,
    seen_covmaps: CoverageSet,
}

impl FuzzLoop {
    pub closed spec fn children(&self) -> u16 {
        self.num_children
    }

    pub closed spec fn limit(&self) -> Option<u64> {
        self.iterations
    }

    pub closed spec fn iters(&self) -> u64 {
        self.num_iters
    }

    /// The fork whose turn it is.
    pub closed spec fn offset(&self) -> u16 {
        self.fork_offset
    }

    pub closed spec fn branches(&self) -> u64 {
        self.branches_found
    }

    /// The coverage hashes seen so far.
    pub closed spec fn coverage(&self) -> Set<u64> {
        coverage_contents(self.seen_covmaps)
    }

    /// The branch count is the number of distinct coverage hashes seen, which is never more than
    /// the iterations run; the turn stays among the forks.
    pub open spec fn wf(&self) -> bool {
        &&& self.coverage().finite()
        &&& self.branches() == self.coverage().len()
        &&& self.branches() <= self.iters()
        &&& (self.children() > 0 ==> self.offset() < self.children())
    }

    /// A loop over `num_children` forks that stops after `iterations` iterations, if given.
    pub fn new(num_children: u16, iterations: Option<u64>) -> (l: Self)
        ensures
            l.wf(),
            l.children() == num_children,
            l.limit() == iterations,
            l.iters() == 0,
            l.offset() == 0,
            l.coverage() == Set::<u64>::empty(),
    {
        FuzzLoop {
            num_children,
            iterations,
            num_iters: 0,
            fork_offset: 0,
            branches_found: 0,
            seen_covmaps: CoverageSet::new(),
        }
    }

    pub fn num_iters(&self) -> (n: u64)
        ensures
            n == self.iters(),
    {
        self.num_iters
    }

    /// Whether `hash` has been seen.
    pub fn covers(&self, hash: u64) -> (b: bool)
        ensures
            b == self.coverage().contains(hash),
    {
        self.seen_covmaps.contains(hash)
    }

    /// Counts an iteration for a fork being started before the loop.
    pub fn child_started(&mut self)
        requires
            old(self).wf(),
            old(self).iters() < u64::MAX,
        ensures
            final(self).wf(),
            final(self).iters() == old(self).iters() + 1,
            final(self).children() == old(self).children(),
            final(self).limit() == old(self).limit(),
            final(self).offset() == old(self).offset(),
            final(self).coverage() == old(self).coverage(),
    {
        self.num_iters = self.num_iters + 1;
    }

    /// Passes the turn to the next fork, returning its index.
    pub fn next_offset(&mut self) -> (at: usize)
        requires
            old(self).wf(),
            old(self).children() > 0,
        ensures
            final(self).wf(),
            at == final(self).offset(),
            final(self).offset() == (old(self).offset() + 1) % (old(self).children() as int),
            final(self).iters() == old(self).iters(),
            final(self).children() == old(self).children(),
            final(self).limit() == old(self).limit(),
            final(self).coverage() == old(self).coverage(),
    {
        self.fork_offset = (self.fork_offset + 1) % self.num_children;
        self.fork_offset as usize
    }

    /// Takes in the coverage hash of the output of the fork whose turn it is. New coverage counts
    /// as a branch found and queues the fork's input for mutation. Either way the iteration
    /// counts, and the loop stops once the iterations asked for have run.
    pub fn record_feedback(&mut self, server: &mut FuzzServer, hash: u64) -> (step: FeedbackStep)
        requires
            old(self).wf(),
            old(server)@.wf(),
            old(self).iters() < u64::MAX,
            !old(self).coverage().contains(hash) ==> old(self).offset() < old(server)@.slots.len()
                && old(server)@.slots[old(self).offset() as int] is Some,
        ensures
            final(self).wf(),
            final(server)@.wf(),
            final(self).coverage() == old(self).coverage().insert(hash),
            final(self).iters() == old(self).iters() + 1,
            final(self).children() == old(self).children(),
            final(self).limit() == old(self).limit(),
            final(self).offset() == old(self).offset(),
            !old(self).coverage().contains(hash) ==> final(self).branches() == old(self).branches()
                + 1 && final(server)@ == (ServerView {
                mutation: old(server)@.mutation.push(
                    old(server)@.slots[old(self).offset() as int]->0,
                ),
                ..old(server)@
            }),
            old(self).coverage().contains(hash) ==> final(self).branches() == old(self).branches()
                && final(server)@ == old(server)@,
            step.branch_report == (if !old(self).coverage().contains(hash) && final(self).branches()
                % 100 == 0 {
                Some(final(self).branches())
            } else {
                None
            }),
            step.stop == (old(self).limit() matches Some(n) && n <= final(self).iters()),
    {
        let at = self.fork_offset as usize;
        let is_new = self.seen_covmaps.insert(hash);
        let mut branch_report = None;
        if is_new {
            self.branches_found = self.branches_found + 1;
            if self.branches_found % 100 == 0 {
                branch_report = Some(self.branches_found);
            }
            server.queue_for_mutation(at);
        }
        self.num_iters = self.num_iters + 1;
        let stop = match self.iterations {
            Some(iterations) => iterations <= self.num_iters,
            None => false,
        };
        FeedbackStep { stop, branch_report }
    }
}

} // verus!
