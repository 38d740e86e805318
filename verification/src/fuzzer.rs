//! Fuzzing inputs, the feedback on them, and the mutator that derives new inputs from old ones,
//! never offering the same input twice.

use crate::mutator::bytes_for_bits;
use crate::mutator::flip_byte;
use crate::mutator::flip_cycle;
use crate::mutator::BitFlip;
use crate::mutator::ByteFlip;
use crate::mutator::FuzzDimensions;
use crate::mutator::Mutator;
use crate::mutator::NibleFlip;
use vstd::prelude::*;
use vstd::slice::slice_to_vec;

verus! {

#[verifier::external_type_specification]
#[verifier::external_body]
pub struct ExChaCha20Rng(rand_chacha::ChaCha20Rng);

/// `rand_chacha::ChaCha20Rng::from_seed([0u8; 32])` (through `rand::SeedableRng`): the generator
/// with the all-zero seed. The generator is opaque, so nothing is stated of it.
#[verifier::external_body]
pub(crate) fn zero_seeded_rng() -> rand_chacha::ChaCha20Rng {
    <rand_chacha::ChaCha20Rng as rand::SeedableRng>::from_seed([0u8; 32])
}

/// `rand::Rng::gen::<u8>()` on the generator: the next random byte, of which nothing is stated.
#[verifier::external_body]
fn random_byte(rng: &mut rand_chacha::ChaCha20Rng) -> u8 {
    rand::Rng::gen::<u8>(rng)
}

/// `fxhash::hash64` of a byte slice. FxHash reads the bytes in the machine's native byte order,
/// so its result depends on the machine, and nothing is stated of it.
#[verifier::external_body]
fn fx_hash_bytes(data: &[u8]) -> u64 {
    fxhash::hash64(data)
}

/// The set of inputs that a mutator has already produced: an `fxhash::FxHashSet` of their
/// contents.
#[verifier::external_body]
pub struct SeenInputs {
    set: fxhash::FxHashSet<Vec<u8>>,
}

/// The contents of a [`SeenInputs`] set.
pub uninterp spec fn seen_contents(s: SeenInputs) -> Set<Seq<u8>>;

impl SeenInputs {
    /// `FxHashSet::default()`: an empty set.
    #[verifier::external_body]
    pub(crate) fn new() -> (s: SeenInputs)
        ensures
            seen_contents(s) == Set::<Seq<u8>>::empty(),
    {
        SeenInputs { set: fxhash::FxHashSet::default() }
    }

    /// `HashSet::insert`: adds `content`; `true` exactly when it was not in the set before.
    #[verifier::external_body]
    pub(crate) fn insert(&mut self, content: Vec<u8>) -> (fresh: bool)
        ensures
            fresh == !seen_contents(*old(self)).contains(content@),
            seen_contents(*final(self)) == seen_contents(*old(self)).insert(content@),
    {
        self.set.insert(content)
    }
}

/// The set of coverage hashes seen so far: an `fxhash::FxHashSet<u64>`.
#[verifier::external_body]
pub struct CoverageSet {
    set: fxhash::FxHashSet<u64>,
}

/// The contents of a [`CoverageSet`].
pub uninterp spec fn coverage_contents(s: CoverageSet) -> Set<u64>;

impl CoverageSet {
    /// `FxHashSet::default()`: an empty set.
    #[verifier::external_body]
    pub(crate) fn new() -> (s: CoverageSet)
        ensures
            coverage_contents(s) == Set::<u64>::empty(),
    {
        CoverageSet { set: fxhash::FxHashSet::default() }
    }

    /// `HashSet::insert`: adds `hash`; `true` exactly when it was not in the set before.
    #[verifier::external_body]
    pub(crate) fn insert(&mut self, hash: u64) -> (fresh: bool)
        ensures
            fresh == !coverage_contents(*old(self)).contains(hash),
            coverage_contents(*final(self)) == coverage_contents(*old(self)).insert(hash),
    {
        self.set.insert(hash)
    }

    /// `HashSet::contains`: whether `hash` is in the set.
    #[verifier::external_body]
    pub(crate) fn contains(&self, hash: u64) -> (found: bool)
        ensures
            found == coverage_contents(*self).contains(hash),
    {
        self.set.contains(&hash)
    }
}

/// An input to run a fork on.
#[derive(Debug, Clone, PartialEq, Eq, Hash)]
pub struct FuzzInput {
    content: Vec<u8>,
}

impl View for FuzzInput {
    type V = Seq<u8>;

    closed spec fn view(&self) -> Seq<u8> {
        self.content@
    }
}

impl FuzzInput {
    pub fn new(content: Vec<u8>) -> (input: Self)
        ensures
            input@ == content@,
    {
        FuzzInput { content }
    }

    pub fn content(&self) -> (content: &[u8])
        ensures
            content@ == self@,
    {
        self.content.as_slice()
    }

    /// A copy of the input.
    pub fn duplicate(&self) -> (copy: Self)
        ensures
            copy@ == self@,
    {
        FuzzInput { content: slice_to_vec(self.content.as_slice()) }
    }

    pub fn into_content(self) -> (content: Vec<u8>)
        ensures
            content@ == self@,
    {
        self.content
    }
}

/// What a fork produced: its output data and a hash of it.
pub struct FuzzFeedback {
    hash: u64,
    data: Vec<u8>,
}

impl FuzzFeedback {
    pub closed spec fn spec_data(&self) -> Seq<u8> {
        self.data@
    }

    pub closed spec fn spec_hash(&self) -> u64 {
        self.hash
    }

    /// The feedback on a fork's output: the output, with its FxHash.
    pub fn new(data: Vec<u8>) -> (feedback: Self)
        ensures
            feedback.spec_data() == data@,
    {
        let hash = fx_hash_bytes(data.as_slice());
        FuzzFeedback { hash, data }
    }

    pub fn hash(&self) -> (h: u64)
        ensures
            h == self.spec_hash(),
    {
        self.hash
    }

    pub fn data(&self) -> (d: &[u8])
        ensures
            d@ == self.spec_data(),
    {
        self.data.as_slice()
    }
}

/// The inputs in a queue, as byte sequences.
pub open spec fn inputs_view(queue: Seq<FuzzInput>) -> Seq<Seq<u8>> {
    queue.map_values(|x: FuzzInput| x@)
}

/// The shape of the inputs the mutator works on: one cycle of `width` bits.
pub open spec fn row_dims(width: u32) -> FuzzDimensions {
    FuzzDimensions { bit_width: width, num_cycles: 1 }
}

/// Every mutation of a family, in index order.
pub open spec fn family_candidates<M: Mutator>(m: M, width: u32, input: Seq<u8>) -> Seq<Seq<u8>> {
    Seq::new(
        m.spec_count(row_dims(width)) as nat,
        |i: int| m.spec_mutate(row_dims(width), i as u32, input),
    )
}

/// Every deterministic mutation of `input`: the bit flips, then the nibble flips, then the byte
/// flips, each in index order.
pub open spec fn mutation_candidates(width: u32, input: Seq<u8>) -> Seq<Seq<u8>> {
    family_candidates(BitFlip, width, input) + family_candidates(NibleFlip, width, input)
        + family_candidates(ByteFlip, width, input)
}

/// The candidates that were neither seen before nor occur earlier among the candidates, in order.
pub open spec fn novel(cands: Seq<Seq<u8>>, seen: Set<Seq<u8>>) -> Seq<Seq<u8>>
    decreases cands.len(),
{
    if cands.len() == 0 {
        Seq::empty()
    } else {
        let earlier = cands.drop_last();
        let c = cands.last();
        if seen.contains(c) || earlier.contains(c) {
            novel(earlier, seen)
        } else {
            novel(earlier, seen).push(c)
        }
    }
}

/// `seen` together with every candidate.
pub open spec fn seen_with(seen: Set<Seq<u8>>, cands: Seq<Seq<u8>>) -> Set<Seq<u8>> {
    seen.union(cands.to_set())
}

/// The novel candidates of a sequence are those of its first part, then those of its second part
/// among what is new after the first part.
pub proof fn lemma_novel_append(a: Seq<Seq<u8>>, b: Seq<Seq<u8>>, seen: Set<Seq<u8>>)
    ensures
        novel(a + b, seen) == novel(a, seen) + novel(b, seen_with(seen, a)),
    decreases b.len(),
{
    if b.len() == 0 {
        assert(a + b =~= a);
        assert(novel(a, seen) + novel(b, seen_with(seen, a)) =~= novel(a, seen));
    } else {
        let ab = a + b;
        assert(ab.drop_last() =~= a + b.drop_last());
        assert(ab.last() == b.last());
        lemma_novel_append(a, b.drop_last(), seen);
        let c = b.last();
        assert((seen.contains(c) || (a + b.drop_last()).contains(c)) == (seen_with(seen, a).contains(
            c,
        ) || b.drop_last().contains(c))) by {
            if (a + b.drop_last()).contains(c) {
                let j = choose|j: int| 0 <= j < (a + b.drop_last()).len() && (a + b.drop_last())[j]
                    == c;
                if j < a.len() {
                    assert(a[j] == c);
                    assert(a.contains(c));
                } else {
                    assert(b.drop_last()[j - a.len()] == c);
                }
            }
            if a.contains(c) {
                let j = choose|j: int| 0 <= j < a.len() && a[j] == c;
                assert((a + b.drop_last())[j] == c);
            }
            if b.drop_last().contains(c) {
                let j = choose|j: int| 0 <= j < b.drop_last().len() && b.drop_last()[j] == c;
                assert((a + b.drop_last())[a.len() + j] == c);
            }
        }
        if !(seen.contains(c) || (a + b.drop_last()).contains(c)) {
            assert(novel(a, seen) + novel(b.drop_last(), seen_with(seen, a)).push(c) =~= (novel(
                a,
                seen,
            ) + novel(b.drop_last(), seen_with(seen, a))).push(c));
        }
    }
}

/// Taking one more candidate adds it to the novel ones exactly when it is new.
pub proof fn lemma_novel_step(cands: Seq<Seq<u8>>, i: int, seen: Set<Seq<u8>>)
    requires
        0 <= i < cands.len(),
    ensures
        novel(cands.take(i + 1), seen) == if seen_with(seen, cands.take(i)).contains(cands[i]) {
            novel(cands.take(i), seen)
        } else {
            novel(cands.take(i), seen).push(cands[i])
        },
        seen_with(seen, cands.take(i + 1)) == seen_with(seen, cands.take(i)).insert(cands[i]),
{
    let next = cands.take(i + 1);
    assert(next.drop_last() =~= cands.take(i));
    assert(next.last() == cands[i]);
    assert(seen_with(seen, cands.take(i + 1)) =~= seen_with(seen, cands.take(i)).insert(cands[i]))
        by {
        assert forall|x: Seq<u8>| cands.take(i + 1).contains(x) <==> (cands.take(i).contains(x)
            || x == cands[i]) by {
            if cands.take(i + 1).contains(x) {
                let j = choose|j: int| 0 <= j < i + 1 && #[trigger] cands.take(i + 1)[j] == x;
                if j < i {
                    assert(cands.take(i)[j] == x);
                }
            }
            if cands.take(i).contains(x) {
                let j = choose|j: int| 0 <= j < i && #[trigger] cands.take(i)[j] == x;
                assert(cands.take(i + 1)[j] == x);
            }
            if x == cands[i] {
                assert(cands.take(i + 1)[i] == x);
            }
        }
    }
}

/// Every novel candidate is one of the candidates.
pub proof fn lemma_novel_from_candidates(cands: Seq<Seq<u8>>, seen: Set<Seq<u8>>, n: nat)
    requires
        forall|j: int| 0 <= j < cands.len() ==> (#[trigger] cands[j]).len() == n,
    ensures
        forall|j: int| 0 <= j < novel(cands, seen).len() ==> (#[trigger] novel(cands, seen)[j]).len()
            == n,
    decreases cands.len(),
{
    if cands.len() > 0 {
        let earlier = cands.drop_last();
        assert forall|j: int| 0 <= j < earlier.len() implies (#[trigger] earlier[j]).len() == n by {
            assert(earlier[j] == cands[j]);
        }
        lemma_novel_from_candidates(earlier, seen, n);
        let c = cands.last();
        assert(c == cands[cands.len() - 1]);
        let prev = novel(earlier, seen);
        if !(seen.contains(c) || earlier.contains(c)) {
            assert forall|j: int| 0 <= j < prev.push(c).len() implies (#[trigger] prev.push(
                c,
            )[j]).len() == n by {
                if j < prev.len() {
                    assert(prev.push(c)[j] == prev[j]);
                }
            }
        }
    }
}

/// A novel sequence holds no candidate twice, and none that was seen before.
pub proof fn law_novel_distinct_and_unseen(cands: Seq<Seq<u8>>, seen: Set<Seq<u8>>)
    ensures
        forall|j: int, k: int|
            0 <= j < k < novel(cands, seen).len() ==> novel(cands, seen)[j] != novel(
                cands,
                seen,
            )[k],
        forall|j: int|
            0 <= j < novel(cands, seen).len() ==> !seen.contains(#[trigger] novel(cands, seen)[j]),
        forall|j: int|
            0 <= j < novel(cands, seen).len() ==> cands.contains(#[trigger] novel(cands, seen)[j]),
    decreases cands.len(),
{
    if cands.len() > 0 {
        let earlier = cands.drop_last();
        law_novel_distinct_and_unseen(earlier, seen);
        let prev = novel(earlier, seen);
        assert forall|j: int| 0 <= j < prev.len() implies cands.contains(#[trigger] prev[j]) by {
            let k = choose|k: int| 0 <= k < earlier.len() && earlier[k] == prev[j];
            assert(cands[k] == prev[j]);
        }
        let c = cands.last();
        if !(seen.contains(c) || earlier.contains(c)) {
            assert(cands[cands.len() - 1] == c);
            assert forall|j: int| 0 <= j < prev.len() implies prev[j] != c by {
                assert(earlier.contains(prev[j]));
            }
        }
    }
}

/// The mutator: the width of inputs, the inputs it has already produced, and its random source.
pub struct FuzzMutator {
    width: u32,
    seen: SeenInputs,
    rng: rand_chacha::ChaCha20Rng,
}

/// Whether `input` can be mutated as a row of `width` bits: it holds at least one row, in whole
/// rows (when the width is 0, no mutation applies and any input will do).
pub open spec fn mutable_row(width: u32, input: Seq<u8>) -> bool {
    width > 0 ==> input.len() >= bytes_for_bits(width as int) && (input.len() as int)
        % bytes_for_bits(width as int) == 0
}

impl FuzzMutator {
    pub closed spec fn spec_width(&self) -> u32 {
        self.width
    }

    /// The mutator's random generator.
    pub closed spec fn generator(&self) -> rand_chacha::ChaCha20Rng {
        self.rng
    }

    /// The inputs the mutator has produced so far.
    pub closed spec fn seen(&self) -> Set<Seq<u8>> {
        seen_contents(self.seen)
    }

    pub fn new(width: u32, rng: rand_chacha::ChaCha20Rng) -> (m: Self)
        ensures
            m.spec_width() == width,
            m.seen() == Set::<Seq<u8>>::empty(),
            m.generator() == rng,
    {
        FuzzMutator { width, seen: SeenInputs::new(), rng }
    }

    pub fn width(&self) -> (w: u32)
        ensures
            w == self.spec_width(),
    {
        self.width
    }

    /// A random input of one row: `width` bits rounded up to whole bytes.
    pub fn random_input(&mut self) -> (input: FuzzInput)
        ensures
            input@.len() == bytes_for_bits(old(self).spec_width() as int),
            final(self).spec_width() == old(self).spec_width(),
            final(self).seen() == old(self).seen(),
    {
        let dims = FuzzDimensions { bit_width: self.width, num_cycles: 1 };
        let size = dims.byte_width() as usize;
        let mut content: Vec<u8> = Vec::with_capacity(size);
        let mut i: usize = 0;
        while i < size
            invariant
                i <= size,
                content@.len() == i,
                size == bytes_for_bits(self.width as int),
                self.width == old(self).width,
                self.seen == old(self).seen,
            decreases size - i,
        {
            content.push(random_byte(&mut self.rng));
            i = i + 1;
        }
        FuzzInput { content }
    }

    /// Adds `input` to the queue when the mutator has not produced it before, and remembers it.
    fn offer(&mut self, queue: &mut Vec<FuzzInput>, input: FuzzInput)
        ensures
            final(self).spec_width() == old(self).spec_width(),
            final(self).generator() == old(self).generator(),
            final(self).seen() == old(self).seen().insert(input@),
            inputs_view(final(queue)@) == if old(self).seen().contains(input@) {
                inputs_view(old(queue)@)
            } else {
                inputs_view(old(queue)@).push(input@)
            },
    {
        if self.seen.insert(slice_to_vec(input.content.as_slice())) {
            queue.push(input);
            assert(inputs_view(queue@) =~= inputs_view(old(queue)@).push(input@));
        }
    }

    /// Queues every bit, nibble and byte flip of `input` that the mutator has not produced
    /// before, in that order, each at most once, and remembers them all.
    pub fn deterministic_mutate(&mut self, queue: &mut Vec<FuzzInput>, input: &[u8])
        requires
            mutable_row(old(self).spec_width(), input@),
        ensures
            final(self).spec_width() == old(self).spec_width(),
            final(self).generator() == old(self).generator(),
            inputs_view(final(queue)@) == inputs_view(old(queue)@) + novel(
                mutation_candidates(old(self).spec_width(), input@),
                old(self).seen(),
            ),
            final(self).seen() == seen_with(
                old(self).seen(),
                mutation_candidates(old(self).spec_width(), input@),
            ),
    {
        let ghost cands = mutation_candidates(self.width, input@);
        let ghost seen0 = self.seen();
        let ghost queue0 = inputs_view(queue@);
        let ghost width = self.width;
        let ghost generator = self.rng;
        let dims = FuzzDimensions { bit_width: self.width, num_cycles: 1 };
        let ghost n_bits = BitFlip.spec_count(dims);
        let ghost n_nibles = NibleFlip.spec_count(dims);
        let ghost n_bytes = ByteFlip.spec_count(dims);
        proof {
            lemma_candidate_at(width, input@);
        }
        assert(cands.len() == n_bits + n_nibles + n_bytes);
        assert(cands.take(0) =~= Seq::<Seq<u8>>::empty());
        assert(novel(cands.take(0), seen0) =~= Seq::<Seq<u8>>::empty());
        assert(seen_with(seen0, cands.take(0)) =~= seen0);
        assert(inputs_view(queue@) =~= queue0 + novel(cands.take(0), seen0));

        let mut bitflip = BitFlip;
        let mut nible_flip = NibleFlip;
        let mut byte_flip = ByteFlip;

        let n = bitflip.num_possible_mutations(dims);
        let mut i: u32 = 0;
        while i < n
            invariant
                i <= n,
                n == n_bits,
                dims == row_dims(width),
                self.spec_width() == width,
                self.generator() == generator,
                mutable_row(width, input@),
                cands == mutation_candidates(width, input@),
                cands.len() == n_bits + n_nibles + n_bytes,
                n_bits == BitFlip.spec_count(row_dims(width)),
                n_bits == width,
                n_nibles == NibleFlip.spec_count(row_dims(width)),
                n_bytes == ByteFlip.spec_count(row_dims(width)),
                inputs_view(queue@) == queue0 + novel(cands.take(i as int), seen0),
                self.seen() == seen_with(seen0, cands.take(i as int)),
            decreases n - i,
        {
            proof {
                lemma_bit_flip_applies(width, i, input@);
                lemma_novel_step(cands, i as int, seen0);
                assert(cands[i as int] == BitFlip.spec_mutate(dims, i, input@));
            }
            let content = bitflip.apply(dims, i, input);
            self.offer(queue, FuzzInput { content });
            i = i + 1;
            assert(inputs_view(queue@) =~= queue0 + novel(cands.take(i as int), seen0));
        }

        let n = nible_flip.num_possible_mutations(dims);
        let mut i: u32 = 0;
        while i < n
            invariant
                i <= n,
                n == n_nibles,
                dims == row_dims(width),
                self.spec_width() == width,
                self.generator() == generator,
                mutable_row(width, input@),
                cands == mutation_candidates(width, input@),
                cands.len() == n_bits + n_nibles + n_bytes,
                n_bits == BitFlip.spec_count(row_dims(width)),
                n_nibles == NibleFlip.spec_count(row_dims(width)),
                n_bytes == ByteFlip.spec_count(row_dims(width)),
                inputs_view(queue@) == queue0 + novel(cands.take(n_bits + i), seen0),
                self.seen() == seen_with(seen0, cands.take(n_bits + i)),
            decreases n - i,
        {
            proof {
                lemma_nible_flip_applies(width, i, input@);
                lemma_novel_step(cands, n_bits + i, seen0);
                assert(cands[n_bits + i] == NibleFlip.spec_mutate(dims, i, input@));
                assert(n_bits + i + 1 == n_bits + (i + 1));
            }
            let content = nible_flip.apply(dims, i, input);
            self.offer(queue, FuzzInput { content });
            i = i + 1;
            assert(inputs_view(queue@) =~= queue0 + novel(cands.take(n_bits + i), seen0));
        }

        let n = byte_flip.num_possible_mutations(dims);
        let mut i: u32 = 0;
        while i < n
            invariant
                i <= n,
                n == n_bytes,
                dims == row_dims(width),
                self.spec_width() == width,
                self.generator() == generator,
                mutable_row(width, input@),
                cands == mutation_candidates(width, input@),
                cands.len() == n_bits + n_nibles + n_bytes,
                n_bits == BitFlip.spec_count(row_dims(width)),
                n_nibles == NibleFlip.spec_count(row_dims(width)),
                n_bytes == ByteFlip.spec_count(row_dims(width)),
                inputs_view(queue@) == queue0 + novel(cands.take(n_bits + n_nibles + i), seen0),
                self.seen() == seen_with(seen0, cands.take(n_bits + n_nibles + i)),
            decreases n - i,
        {
            proof {
                lemma_byte_flip_applies(width, i, input@);
                lemma_novel_step(cands, n_bits + n_nibles + i, seen0);
                assert(cands[n_bits + n_nibles + i] == ByteFlip.spec_mutate(dims, i, input@));
                assert(n_bits + n_nibles + i + 1 == n_bits + n_nibles + (i + 1));
            }
            let content = byte_flip.apply(dims, i, input);
            self.offer(queue, FuzzInput { content });
            i = i + 1;
            assert(inputs_view(queue@) =~= queue0 + novel(
                cands.take(n_bits + n_nibles + i),
                seen0,
            ));
        }
        assert(cands.take(cands.len() as int) =~= cands);
    }
}

proof fn lemma_row_division(idx: u32, positions: int)
    requires
        0 <= idx < positions,
    ensures
        idx as int % positions == idx,
        idx as int / positions == 0,
{
    assert(idx as int % positions == idx) by (nonlinear_arith)
        requires
            0 <= idx < positions,
    ;
    assert(idx as int / positions == 0) by (nonlinear_arith)
        requires
            0 <= idx < positions,
    ;
}

/// Every bit flip of a row applies to an input that holds whole rows.
proof fn lemma_bit_flip_applies(width: u32, idx: u32, input: Seq<u8>)
    requires
        idx < width,
        mutable_row(width, input),
    ensures
        BitFlip.can_apply(row_dims(width), idx, input),
        (input.len() as int) % (row_dims(width).num_cycles as int) == 0,
        row_dims(width).spec_byte_width() > 0,
        BitFlip.count_fits(row_dims(width)),
        idx < BitFlip.spec_count(row_dims(width)),
        BitFlip.spec_mutate(row_dims(width), idx, input).len() == input.len(),
{
    let dims = row_dims(width);
    lemma_row_division(idx, width as int);
    let bw = dims.spec_byte_width();
    let cycle = flip_cycle(idx, width as int);
    assert(cycle * bw == 0) by (nonlinear_arith)
        requires
            cycle == 0,
    ;
    assert(flip_byte(dims, idx, width as int) == idx as int / 8);
}

/// Every nibble flip of a row applies to an input that holds whole rows.
proof fn lemma_nible_flip_applies(width: u32, idx: u32, input: Seq<u8>)
    requires
        idx < NibleFlip.spec_count(row_dims(width)),
        mutable_row(width, input),
    ensures
        NibleFlip.can_apply(row_dims(width), idx, input),
        (input.len() as int) % (row_dims(width).num_cycles as int) == 0,
        row_dims(width).spec_byte_width() > 0,
        NibleFlip.count_fits(row_dims(width)),
        NibleFlip.spec_mutate(row_dims(width), idx, input).len() == input.len(),
{
    let dims = row_dims(width);
    let p = NibleFlip::positions(dims);
    assert(NibleFlip.spec_count(dims) == p);
    lemma_row_division(idx, p);
    let bw = dims.spec_byte_width();
    let cycle = flip_cycle(idx, p);
    assert(cycle * bw == 0) by (nonlinear_arith)
        requires
            cycle == 0,
    ;
    assert(flip_byte(dims, idx, p) == idx as int / 8);
    assert(idx as int + 3 < width);
}

/// Every byte flip of a row applies to an input that holds whole rows.
proof fn lemma_byte_flip_applies(width: u32, idx: u32, input: Seq<u8>)
    requires
        idx < ByteFlip.spec_count(row_dims(width)),
        mutable_row(width, input),
    ensures
        ByteFlip.can_apply(row_dims(width), idx, input),
        (input.len() as int) % (row_dims(width).num_cycles as int) == 0,
        row_dims(width).spec_byte_width() > 0,
        ByteFlip.count_fits(row_dims(width)),
        ByteFlip.spec_mutate(row_dims(width), idx, input).len() == input.len(),
{
    let dims = row_dims(width);
    let p = ByteFlip::positions(dims);
    assert(ByteFlip.spec_count(dims) == p);
    lemma_row_division(idx, p);
    let bw = dims.spec_byte_width();
    let cycle = flip_cycle(idx, p);
    assert(cycle * bw == 0) by (nonlinear_arith)
        requires
            cycle == 0,
    ;
    assert(flip_byte(dims, idx, p) == idx as int / 8);
    assert(idx as int + 7 < width);
}

/// Every mutation of an input that can be mutated as a row keeps its length.
pub proof fn lemma_candidates_keep_length(width: u32, input: Seq<u8>)
    requires
        mutable_row(width, input),
    ensures
        forall|k: int|
            0 <= k < mutation_candidates(width, input).len() ==> (#[trigger] mutation_candidates(
                width,
                input,
            )[k]).len() == input.len(),
{
    lemma_candidate_at(width, input);
    let dims = row_dims(width);
    let n1 = BitFlip.spec_count(dims);
    let n2 = NibleFlip.spec_count(dims);
    let cands = mutation_candidates(width, input);
    assert forall|k: int| 0 <= k < cands.len() implies (#[trigger] cands[k]).len() == input.len() by {
        if k < n1 {
            lemma_bit_flip_applies(width, k as u32, input);
        } else if k < n1 + n2 {
            lemma_nible_flip_applies(width, (k - n1) as u32, input);
            assert(cands[n1 + (k - n1)] == cands[k]);
        } else {
            lemma_byte_flip_applies(width, (k - n1 - n2) as u32, input);
            assert(cands[n1 + n2 + (k - n1 - n2)] == cands[k]);
        }
    }
}

/// Where each family's mutations stand among the candidates.
proof fn lemma_candidate_at(width: u32, input: Seq<u8>)
    ensures
        mutation_candidates(width, input).len() == BitFlip.spec_count(row_dims(width))
            + NibleFlip.spec_count(row_dims(width)) + ByteFlip.spec_count(row_dims(width)),
        BitFlip.spec_count(row_dims(width)) == width,
        forall|k: int|
            0 <= k < BitFlip.spec_count(row_dims(width)) ==> #[trigger] mutation_candidates(
                width,
                input,
            )[k] == BitFlip.spec_mutate(row_dims(width), k as u32, input),
        forall|k: int|
            0 <= k < NibleFlip.spec_count(row_dims(width)) ==> #[trigger] mutation_candidates(
                width,
                input,
            )[BitFlip.spec_count(row_dims(width)) + k] == NibleFlip.spec_mutate(
                row_dims(width),
                k as u32,
                input,
            ),
        forall|k: int|
            0 <= k < ByteFlip.spec_count(row_dims(width)) ==> #[trigger] mutation_candidates(
                width,
                input,
            )[BitFlip.spec_count(row_dims(width)) + NibleFlip.spec_count(row_dims(width)) + k]
                == ByteFlip.spec_mutate(row_dims(width), k as u32, input),
{
    let dims = row_dims(width);
    assert(BitFlip.spec_count(dims) == width);
    assert(NibleFlip.spec_count(dims) == NibleFlip::positions(dims));
    assert(ByteFlip.spec_count(dims) == ByteFlip::positions(dims));
}

} // verus!
