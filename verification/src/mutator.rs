use vstd::prelude::*;
use vstd::slice::slice_to_vec;
use vstd::slice::slice_subrange;

verus! {

/// Shape of a fuzzing input: `num_cycles` rows of `bit_width` signal bits, each row padded to
/// whole bytes.
#[derive(Clone, Copy)]
pub struct FuzzDimensions {
    pub bit_width: u32,
    pub num_cycles: u32,
}

/// Number of bytes needed to hold `bits` bits.
pub open spec fn bytes_for_bits(bits: int) -> int {
    (bits + 7) / 8
}

impl FuzzDimensions {
    /// Bytes in one row (one cycle) of an input.
    pub open spec fn spec_byte_width(self) -> int {
        bytes_for_bits(self.bit_width as int)
    }

    /// Bytes in a whole input of these dimensions.
    pub open spec fn spec_input_len(self) -> int {
        self.spec_byte_width() * self.num_cycles
    }

    /// An input of these dimensions in which every byte is zero.
    pub fn null_input(&self) -> (v: Vec<u8>)
        requires
            self.spec_input_len() <= u32::MAX,
        ensures
            v@ == Seq::new(self.spec_input_len() as nat, |i: int| 0u8),
    {
        let len = (self.byte_width() * self.num_cycles) as usize;
        let v: Vec<u8> = vec![0u8; len];
        assert(v@ =~= Seq::new(self.spec_input_len() as nat, |i: int| 0u8));
        v
    }

    /// Bytes in one row: the bit width rounded up to whole bytes.
    pub fn byte_width(&self) -> (w: u32)
        ensures
            w == self.spec_byte_width(),
    {
        self.bit_width / 8 + if self.bit_width % 8 == 0 {
            0
        } else {
            1
        }
    }
}

/// A family of mutations of a fuzzing input, numbered from 0.
pub trait Mutator: Sized {
    /// Whether counting the mutations for `dims` stays within `u32`.
    spec fn count_fits(&self, dims: FuzzDimensions) -> bool;

    /// How many mutations of the family exist for inputs of shape `dims`.
    spec fn spec_count(&self, dims: FuzzDimensions) -> int;

    /// Whether mutation `idx` can be applied to `bytes`: every byte it touches is in range and no
    /// offset computation overflows.
    spec fn can_apply(&self, dims: FuzzDimensions, idx: u32, bytes: Seq<u8>) -> bool;

    /// The input that mutation `idx` makes of `bytes`.
    spec fn spec_mutate(&self, dims: FuzzDimensions, idx: u32, bytes: Seq<u8>) -> Seq<u8>;

    /// How many mutations of the family exist for inputs of shape `dims`.
    fn num_possible_mutations(&self, dims: FuzzDimensions) -> (n: u32)
        requires
            self.count_fits(dims),
        ensures
            n == self.spec_count(dims),
    ;

    /// Applies mutation `idx` to `bytes`, giving a new input.
    fn inner_apply(&mut self, dims: FuzzDimensions, idx: u32, bytes: &[u8]) -> (out: Vec<u8>)
        requires
            old(self).can_apply(dims, idx, bytes@),
        ensures
            out@ == old(self).spec_mutate(dims, idx, bytes@),
            *final(self) == *old(self),
    ;

    /// Applies mutation `idx` to an input of shape `dims`, which must be a whole number of rows
    /// and cycles, with `idx` one of the family's mutations.
    fn apply(&mut self, dims: FuzzDimensions, idx: u32, bytes: &[u8]) -> (out: Vec<u8>)
        requires
            dims.num_cycles > 0,
            dims.spec_byte_width() > 0,
            (bytes@.len() as int) % (dims.num_cycles as int) == 0,
            (bytes@.len() as int) % dims.spec_byte_width() == 0,
            old(self).count_fits(dims),
            idx < old(self).spec_count(dims),
            old(self).can_apply(dims, idx, bytes@),
        ensures
            out@ == old(self).spec_mutate(dims, idx, bytes@),
            *final(self) == *old(self),
    {
        self.inner_apply(dims, idx, bytes)
    }
}

/// Flips a single signal bit.
pub struct BitFlip;

/// Flips four adjacent signal bits.
pub struct NibleFlip;

/// Flips eight adjacent signal bits.
pub struct ByteFlip;

/// Duplicates one cycle, as long as the input has fewer than `max_cycles` cycles.
pub struct CloneCycle {
    pub max_cycles: u32,
}

/// Removes one cycle.
pub struct RemoveCycle;

/// Number of start positions of a window of `window` bits within a row of `bit_width` bits, as
/// the flips count them (`max(bit_width, window - 1) - (window - 1)`).
pub open spec fn row_positions(bit_width: u32, window: int) -> int {
    if bit_width >= window - 1 {
        bit_width - (window - 1)
    } else {
        0
    }
}

/// For mutation `idx` of a flip whose rows have `positions` start positions: the signal (bit
/// position within the row) it starts at.
pub open spec fn flip_signal(idx: u32, positions: int) -> int {
    idx as int % positions
}

/// The cycle (row) that mutation `idx` touches.
pub open spec fn flip_cycle(idx: u32, positions: int) -> int {
    idx as int / positions
}

/// The first byte that mutation `idx` touches.
pub open spec fn flip_byte(dims: FuzzDimensions, idx: u32, positions: int) -> int {
    flip_cycle(idx, positions) * dims.spec_byte_width() + flip_signal(idx, positions) / 8
}

/// The bit offset within the first byte at which mutation `idx` starts.
pub open spec fn flip_shift(idx: u32, positions: int) -> int {
    flip_signal(idx, positions) % 8
}

/// The bytes of a 16-bit mask shifted right by `shift`, most significant first.
pub open spec fn mask_bytes(mask: u16, shift: int) -> (u8, u8) {
    let w = mask >> (shift as u32);
    ((w >> 8u32) as u8, (w & 0xffu16) as u8)
}

/// XORs a window mask into `bytes`: the high mask byte into byte `at`, then the low mask byte
/// into byte `at + 1` when the window crosses into it (into `at` itself otherwise, where the low
/// byte is zero).
pub open spec fn xor_window(bytes: Seq<u8>, at: int, spill: bool, masks: (u8, u8)) -> Seq<u8> {
    let first = bytes.update(at, bytes[at] ^ masks.0);
    let second_at = if spill {
        at + 1
    } else {
        at
    };
    first.update(second_at, first[second_at] ^ masks.1)
}

/// Whether a window flip with `positions` start positions per row can apply mutation `idx` to
/// `bytes`: the row has a start position, and the touched bytes (the next one too when the
/// window spills into it) lie within `bytes` and are numbered within `u32`.
pub open spec fn window_flip_applicable(
    dims: FuzzDimensions,
    idx: u32,
    bytes: Seq<u8>,
    positions: int,
    spills: bool,
) -> bool {
    let at = flip_byte(dims, idx, positions);
    let last = if spills {
        at + 1
    } else {
        at
    };
    &&& positions > 0
    &&& last <= u32::MAX
    &&& last < bytes.len()
}

impl BitFlip {
    pub open spec fn touched_byte(dims: FuzzDimensions, idx: u32) -> int {
        flip_byte(dims, idx, dims.bit_width as int)
    }

    pub open spec fn bit_mask(dims: FuzzDimensions, idx: u32) -> u8 {
        1u8 << (flip_shift(idx, dims.bit_width as int) as u32)
    }
}

impl Mutator for BitFlip {
    open spec fn count_fits(&self, dims: FuzzDimensions) -> bool {
        dims.bit_width * dims.num_cycles <= u32::MAX
    }

    open spec fn spec_count(&self, dims: FuzzDimensions) -> int {
        dims.bit_width * dims.num_cycles
    }

    open spec fn can_apply(&self, dims: FuzzDimensions, idx: u32, bytes: Seq<u8>) -> bool {
        window_flip_applicable(dims, idx, bytes, dims.bit_width as int, false)
    }

    open spec fn spec_mutate(&self, dims: FuzzDimensions, idx: u32, bytes: Seq<u8>) -> Seq<u8> {
        let at = BitFlip::touched_byte(dims, idx);
        bytes.update(at, bytes[at] ^ BitFlip::bit_mask(dims, idx))
    }

    fn num_possible_mutations(&self, dims: FuzzDimensions) -> (n: u32) {
        dims.bit_width * dims.num_cycles
    }

    fn inner_apply(&mut self, dims: FuzzDimensions, idx: u32, bytes: &[u8]) -> (out: Vec<u8>) {
        let signal = idx % dims.bit_width;
        let cycle = idx / dims.bit_width;
        let byte_width = dims.byte_width();
        proof {
            lemma_offset_fits(cycle as int, byte_width as int, signal as int / 8);
        }
        let byte_offset = cycle * byte_width + signal / 8;
        let bit_offset = signal % 8;

        let mut out = slice_to_vec(bytes);
        let at = byte_offset as usize;
        out.set(at, out[at] ^ (1u8 << bit_offset));
        out
    }
}

/// `a * b + c` fits in `u32` when its value does, so computing it in `u32` cannot overflow.
proof fn lemma_offset_fits(a: int, b: int, c: int)
    requires
        0 <= a,
        0 <= b,
        0 <= c,
        a * b + c <= u32::MAX,
    ensures
        a * b <= u32::MAX,
{
}

/// Computes the first byte, the bit offset and the mask bytes of a window flip.
fn window_flip_target(dims: FuzzDimensions, idx: u32, positions: u32, mask: u16) -> (r: (
    u32,
    u32,
    u8,
    u8,
))
    requires
        positions > 0,
        flip_byte(dims, idx, positions as int) <= u32::MAX,
    ensures
        r.0 == flip_byte(dims, idx, positions as int),
        r.1 == flip_shift(idx, positions as int),
        (r.2, r.3) == mask_bytes(mask, r.1 as int),
{
    let signal = idx % positions;
    let cycle = idx / positions;
    let byte_width = dims.byte_width();
    proof {
        lemma_offset_fits(cycle as int, byte_width as int, signal as int / 8);
    }
    let byte_offset = cycle * byte_width + signal / 8;
    let bit_offset = signal % 8;
    let w: u16 = mask >> bit_offset;
    let b0 = (w >> 8u32) as u8;
    let b1 = (w & 0xffu16) as u8;
    (byte_offset, bit_offset, b0, b1)
}

/// XORs the two mask bytes into a copy of `bytes` at `at` and at `at + spill`.
fn apply_window(bytes: &[u8], at: u32, spill: bool, b0: u8, b1: u8) -> (out: Vec<u8>)
    requires
        (if spill {
            at + 1
        } else {
            at as int
        }) < bytes@.len(),
    ensures
        out@ == xor_window(bytes@, at as int, spill, (b0, b1)),
{
    let mut out = slice_to_vec(bytes);
    let len = out.len();
    let first = at as usize;
    out.set(first, out[first] ^ b0);
    let second = if spill {
        assert(first + 1 < len);
        first + 1
    } else {
        first
    };
    out.set(second, out[second] ^ b1);
    out
}

impl NibleFlip {
    pub open spec fn positions(dims: FuzzDimensions) -> int {
        row_positions(dims.bit_width, 4)
    }

    pub open spec fn spills(dims: FuzzDimensions, idx: u32) -> bool {
        flip_shift(idx, NibleFlip::positions(dims)) > 4
    }
}

impl Mutator for NibleFlip {
    open spec fn count_fits(&self, dims: FuzzDimensions) -> bool {
        NibleFlip::positions(dims) * dims.num_cycles <= u32::MAX
    }

    open spec fn spec_count(&self, dims: FuzzDimensions) -> int {
        NibleFlip::positions(dims) * dims.num_cycles
    }

    open spec fn can_apply(&self, dims: FuzzDimensions, idx: u32, bytes: Seq<u8>) -> bool {
        window_flip_applicable(
            dims,
            idx,
            bytes,
            NibleFlip::positions(dims),
            NibleFlip::spills(dims, idx),
        )
    }

    open spec fn spec_mutate(&self, dims: FuzzDimensions, idx: u32, bytes: Seq<u8>) -> Seq<u8> {
        let positions = NibleFlip::positions(dims);
        xor_window(
            bytes,
            flip_byte(dims, idx, positions),
            NibleFlip::spills(dims, idx),
            mask_bytes(0xf000u16, flip_shift(idx, positions)),
        )
    }

    fn num_possible_mutations(&self, dims: FuzzDimensions) -> (n: u32) {
        let row_nible_positions = if dims.bit_width >= 3 {
            dims.bit_width
        } else {
            3
        } - 3;
        row_nible_positions * dims.num_cycles
    }

    fn inner_apply(&mut self, dims: FuzzDimensions, idx: u32, bytes: &[u8]) -> (out: Vec<u8>) {
        let row_nible_positions = if dims.bit_width >= 3 {
            dims.bit_width
        } else {
            3
        } - 3;
        let (byte_offset, bit_offset, b0, b1) = window_flip_target(
            dims,
            idx,
            row_nible_positions,
            0b1111_0000_0000_0000u16,
        );
        apply_window(bytes, byte_offset, bit_offset > 4, b0, b1)
    }
}

impl ByteFlip {
    pub open spec fn positions(dims: FuzzDimensions) -> int {
        row_positions(dims.bit_width, 8)
    }

    pub open spec fn spills(dims: FuzzDimensions, idx: u32) -> bool {
        flip_shift(idx, ByteFlip::positions(dims)) > 0
    }
}

impl Mutator for ByteFlip {
    open spec fn count_fits(&self, dims: FuzzDimensions) -> bool {
        ByteFlip::positions(dims) * dims.num_cycles <= u32::MAX
    }

    open spec fn spec_count(&self, dims: FuzzDimensions) -> int {
        ByteFlip::positions(dims) * dims.num_cycles
    }

    open spec fn can_apply(&self, dims: FuzzDimensions, idx: u32, bytes: Seq<u8>) -> bool {
        window_flip_applicable(
            dims,
            idx,
            bytes,
            ByteFlip::positions(dims),
            ByteFlip::spills(dims, idx),
        )
    }

    open spec fn spec_mutate(&self, dims: FuzzDimensions, idx: u32, bytes: Seq<u8>) -> Seq<u8> {
        let positions = ByteFlip::positions(dims);
        xor_window(
            bytes,
            flip_byte(dims, idx, positions),
            ByteFlip::spills(dims, idx),
            mask_bytes(0xff00u16, flip_shift(idx, positions)),
        )
    }

    fn num_possible_mutations(&self, dims: FuzzDimensions) -> (n: u32) {
        let row_byte_positions = if dims.bit_width >= 7 {
            dims.bit_width
        } else {
            7
        } - 7;
        row_byte_positions * dims.num_cycles
    }

    fn inner_apply(&mut self, dims: FuzzDimensions, idx: u32, bytes: &[u8]) -> (out: Vec<u8>) {
        let row_byte_positions = if dims.bit_width >= 7 {
            dims.bit_width
        } else {
            7
        } - 7;
        let (byte_offset, bit_offset, b0, b1) = window_flip_target(
            dims,
            idx,
            row_byte_positions,
            0b1111_1111_0000_0000u16,
        );
        apply_window(bytes, byte_offset, bit_offset > 0, b0, b1)
    }
}

/// The byte range `[start, end)` of cycle `idx - 1`, the cycle that the cycle mutations act on.
pub open spec fn cycle_range(dims: FuzzDimensions, idx: u32) -> (int, int) {
    let start = dims.spec_byte_width() * (idx - 1);
    (start, start + dims.spec_byte_width())
}

/// Whether a cycle mutation `idx` can act on `bytes`: `idx` names a cycle (from 1) that lies
/// within `bytes`, and its byte range fits in `u32`.
pub open spec fn cycle_applicable(dims: FuzzDimensions, idx: u32, bytes: Seq<u8>) -> bool {
    &&& idx >= 1
    &&& cycle_range(dims, idx).1 <= u32::MAX
    &&& cycle_range(dims, idx).1 <= bytes.len()
}

/// Computes the byte range of cycle `idx - 1`.
fn cycle_bounds(dims: FuzzDimensions, idx: u32) -> (r: (usize, usize))
    requires
        idx >= 1,
        cycle_range(dims, idx).1 <= u32::MAX,
    ensures
        r.0 == cycle_range(dims, idx).0,
        r.1 == cycle_range(dims, idx).1,
{
    let byte_width = dims.byte_width();
    proof {
        lemma_offset_fits(byte_width as int, (idx - 1) as int, byte_width as int);
    }
    let start = byte_width * (idx - 1);
    let end = start + byte_width;
    (start as usize, end as usize)
}

impl Mutator for CloneCycle {
    open spec fn count_fits(&self, dims: FuzzDimensions) -> bool {
        true
    }

    open spec fn spec_count(&self, dims: FuzzDimensions) -> int {
        if dims.num_cycles >= self.max_cycles {
            0
        } else {
            dims.num_cycles as int
        }
    }

    open spec fn can_apply(&self, dims: FuzzDimensions, idx: u32, bytes: Seq<u8>) -> bool {
        &&& cycle_applicable(dims, idx, bytes)
        &&& bytes.len() + dims.spec_byte_width() <= usize::MAX
    }

    open spec fn spec_mutate(&self, dims: FuzzDimensions, idx: u32, bytes: Seq<u8>) -> Seq<u8> {
        let (start, end) = cycle_range(dims, idx);
        bytes.subrange(0, end) + bytes.subrange(start, bytes.len() as int)
    }

    fn num_possible_mutations(&self, dims: FuzzDimensions) -> (n: u32) {
        if dims.num_cycles >= self.max_cycles {
            return 0;
        }
        dims.num_cycles
    }

    fn inner_apply(&mut self, dims: FuzzDimensions, idx: u32, bytes: &[u8]) -> (out: Vec<u8>) {
        let (start, end) = cycle_bounds(dims, idx);
        let mut out: Vec<u8> = Vec::with_capacity(bytes.len() + dims.byte_width() as usize);
        out.extend_from_slice(slice_subrange(bytes, 0, end));
        out.extend_from_slice(slice_subrange(bytes, start, bytes.len()));
        out
    }
}

impl Mutator for RemoveCycle {
    open spec fn count_fits(&self, dims: FuzzDimensions) -> bool {
        true
    }

    open spec fn spec_count(&self, dims: FuzzDimensions) -> int {
        if dims.num_cycles >= 1 {
            dims.num_cycles as int
        } else {
            1
        }
    }

    open spec fn can_apply(&self, dims: FuzzDimensions, idx: u32, bytes: Seq<u8>) -> bool {
        cycle_applicable(dims, idx, bytes)
    }

    open spec fn spec_mutate(&self, dims: FuzzDimensions, idx: u32, bytes: Seq<u8>) -> Seq<u8> {
        let (start, end) = cycle_range(dims, idx);
        bytes.subrange(0, start) + bytes.subrange(end, bytes.len() as int)
    }

    fn num_possible_mutations(&self, dims: FuzzDimensions) -> (n: u32) {
        if dims.num_cycles >= 1 {
            dims.num_cycles
        } else {
            1
        }
    }

    fn inner_apply(&mut self, dims: FuzzDimensions, idx: u32, bytes: &[u8]) -> (out: Vec<u8>) {
        let (start, end) = cycle_bounds(dims, idx);
        let mut out: Vec<u8> = Vec::with_capacity(bytes.len() - dims.byte_width() as usize);
        out.extend_from_slice(slice_subrange(bytes, 0, start));
        out.extend_from_slice(slice_subrange(bytes, end, bytes.len()));
        out
    }
}


proof fn lemma_xor_twice(x: u8, m: u8)
    ensures
        (x ^ m) ^ m == x,
{
    assert((x ^ m) ^ m == x) by (bit_vector);
}

proof fn lemma_xor_window_twice(bytes: Seq<u8>, at: int, spill: bool, masks: (u8, u8))
    requires
        0 <= at,
        (if spill {
            at + 1
        } else {
            at
        }) < bytes.len(),
    ensures
        xor_window(xor_window(bytes, at, spill, masks), at, spill, masks) == bytes,
        xor_window(bytes, at, spill, masks).len() == bytes.len(),
{
    let once = xor_window(bytes, at, spill, masks);
    let twice = xor_window(once, at, spill, masks);
    let (m0, m1) = masks;
    if spill {
        lemma_xor_twice(bytes[at], m0);
        lemma_xor_twice(bytes[at + 1], m1);
    } else {
        let x = bytes[at];
        assert((((x ^ m0) ^ m1) ^ m0) ^ m1 == x) by (bit_vector);
    }
    assert(twice =~= bytes);
}

/// The mask bytes of a nibble window: the high byte is never zero, and the low byte is zero
/// unless the window spills past the first byte (offset above 4).
proof fn lemma_nibble_masks(shift: u32)
    requires
        shift < 8,
    ensures
        mask_bytes(0xf000u16, shift as int).0 != 0,
        shift <= 4 ==> mask_bytes(0xf000u16, shift as int).1 == 0,
{
    assert(((0xf000u16 >> shift) >> 8u32) as u8 != 0) by (bit_vector)
        requires
            shift < 8,
    ;
    assert(shift <= 4 ==> ((0xf000u16 >> shift) & 0xffu16) as u8 == 0) by (bit_vector)
        requires
            shift < 8,
    ;
}

/// The mask bytes of a byte window: the high byte is never zero, and the low byte is zero
/// when the window starts on a byte boundary.
proof fn lemma_byte_masks(shift: u32)
    requires
        shift < 8,
    ensures
        mask_bytes(0xff00u16, shift as int).0 != 0,
        shift == 0 ==> mask_bytes(0xff00u16, shift as int).1 == 0,
{
    assert(((0xff00u16 >> shift) >> 8u32) as u8 != 0) by (bit_vector)
        requires
            shift < 8,
    ;
    assert(shift == 0 ==> ((0xff00u16 >> shift) & 0xffu16) as u8 == 0) by (bit_vector);
}

/// A window XOR whose high mask byte is nonzero, and whose low mask byte is zero when it does not
/// spill, changes the input.
proof fn lemma_xor_window_changes(bytes: Seq<u8>, at: int, spill: bool, masks: (u8, u8))
    requires
        0 <= at,
        (if spill {
            at + 1
        } else {
            at
        }) < bytes.len(),
        masks.0 != 0,
        !spill ==> masks.1 == 0,
    ensures
        xor_window(bytes, at, spill, masks) != bytes,
{
    let x = bytes[at];
    let (m0, m1) = masks;
    let out = xor_window(bytes, at, spill, masks);
    if spill {
        assert(m0 != 0 ==> x ^ m0 != x) by (bit_vector);
        assert(out[at] != bytes[at]);
    } else {
        assert(m0 != 0 && m1 == 0 ==> (x ^ m0) ^ m1 != x) by (bit_vector);
        assert(out[at] != bytes[at]);
    }
}

/// Flipping the same bit twice gives back the input; the flip keeps the input's length and
/// always changes it.
pub proof fn law_bit_flip_involution(dims: FuzzDimensions, idx: u32, bytes: Seq<u8>)
    requires
        BitFlip.can_apply(dims, idx, bytes),
    ensures
        BitFlip.spec_mutate(dims, idx, bytes).len() == bytes.len(),
        BitFlip.spec_mutate(dims, idx, bytes) != bytes,
        BitFlip.can_apply(dims, idx, BitFlip.spec_mutate(dims, idx, bytes)),
        BitFlip.spec_mutate(dims, idx, BitFlip.spec_mutate(dims, idx, bytes)) == bytes,
{
    let at = BitFlip::touched_byte(dims, idx);
    let m = BitFlip::bit_mask(dims, idx);
    let k = flip_shift(idx, dims.bit_width as int) as u32;
    let x = bytes[at];
    assert(k < 8 ==> x ^ (1u8 << k) != x) by (bit_vector);
    lemma_xor_twice(x, m);
    let once = BitFlip.spec_mutate(dims, idx, bytes);
    assert(once[at] != bytes[at]);
    assert(BitFlip.spec_mutate(dims, idx, once) =~= bytes);
}

/// Flipping the same nibble twice gives back the input; the flip keeps the input's length and
/// always changes it.
pub proof fn law_nible_flip_involution(dims: FuzzDimensions, idx: u32, bytes: Seq<u8>)
    requires
        NibleFlip.can_apply(dims, idx, bytes),
    ensures
        NibleFlip.spec_mutate(dims, idx, bytes).len() == bytes.len(),
        NibleFlip.spec_mutate(dims, idx, bytes) != bytes,
        NibleFlip.can_apply(dims, idx, NibleFlip.spec_mutate(dims, idx, bytes)),
        NibleFlip.spec_mutate(dims, idx, NibleFlip.spec_mutate(dims, idx, bytes)) == bytes,
{
    let positions = NibleFlip::positions(dims);
    let at = flip_byte(dims, idx, positions);
    let shift = flip_shift(idx, positions);
    let spill = NibleFlip::spills(dims, idx);
    let masks = mask_bytes(0xf000u16, shift);
    lemma_xor_window_twice(bytes, at, spill, masks);
    lemma_nibble_masks(shift as u32);
    lemma_xor_window_changes(bytes, at, spill, masks);
}

/// Flipping the same byte window twice gives back the input; the flip keeps the input's length
/// and always changes it.
pub proof fn law_byte_flip_involution(dims: FuzzDimensions, idx: u32, bytes: Seq<u8>)
    requires
        ByteFlip.can_apply(dims, idx, bytes),
    ensures
        ByteFlip.spec_mutate(dims, idx, bytes).len() == bytes.len(),
        ByteFlip.spec_mutate(dims, idx, bytes) != bytes,
        ByteFlip.can_apply(dims, idx, ByteFlip.spec_mutate(dims, idx, bytes)),
        ByteFlip.spec_mutate(dims, idx, ByteFlip.spec_mutate(dims, idx, bytes)) == bytes,
{
    let positions = ByteFlip::positions(dims);
    let at = flip_byte(dims, idx, positions);
    let shift = flip_shift(idx, positions);
    let spill = ByteFlip::spills(dims, idx);
    let masks = mask_bytes(0xff00u16, shift);
    lemma_xor_window_twice(bytes, at, spill, masks);
    lemma_byte_masks(shift as u32);
    lemma_xor_window_changes(bytes, at, spill, masks);
}

/// Cloning cycle `idx - 1` adds one row of bytes, and removing cycle `idx - 1` from the result
/// gives back the input.
pub proof fn law_remove_undoes_clone(
    clone: CloneCycle,
    dims: FuzzDimensions,
    idx: u32,
    bytes: Seq<u8>,
)
    requires
        clone.can_apply(dims, idx, bytes),
    ensures
        clone.spec_mutate(dims, idx, bytes).len() == bytes.len() + dims.spec_byte_width(),
        RemoveCycle.can_apply(dims, idx, clone.spec_mutate(dims, idx, bytes)),
        RemoveCycle.spec_mutate(dims, idx, clone.spec_mutate(dims, idx, bytes)) == bytes,
{
    let (start, end) = cycle_range(dims, idx);
    let cloned = clone.spec_mutate(dims, idx, bytes);
    assert(cloned.subrange(0, start) =~= bytes.subrange(0, start));
    assert(cloned.subrange(end, cloned.len() as int) =~= bytes.subrange(start, bytes.len() as int));
    assert(RemoveCycle.spec_mutate(dims, idx, cloned) =~= bytes);
}

/// Removing a cycle takes away exactly one row of bytes.
pub proof fn law_remove_shortens(dims: FuzzDimensions, idx: u32, bytes: Seq<u8>)
    requires
        RemoveCycle.can_apply(dims, idx, bytes),
    ensures
        RemoveCycle.spec_mutate(dims, idx, bytes).len() == bytes.len() - dims.spec_byte_width(),
{
}

/// Bit `b` of byte `x`, counting from the most significant bit (0) to the least (7).
pub open spec fn msb_bit(x: u8, b: u8) -> bool {
    (x >> ((7 - b) as u8)) & 1u8 == 1u8
}

/// XOR with a mask changes exactly the bits that are set in the mask.
proof fn lemma_xor_changes_mask_bits(x: u8, m: u8, b: u8)
    requires
        b < 8,
    ensures
        (msb_bit(x ^ m, b) != msb_bit(x, b)) == msb_bit(m, b),
{
    let sh: u8 = (7 - b) as u8;
    assert(((((x ^ m) >> sh) & 1u8 == 1u8) != ((x >> sh) & 1u8 == 1u8)) == ((m >> sh) & 1u8
        == 1u8)) by (bit_vector);
}

/// The bytes of a byte window starting `k` bits into a byte: the first mask byte covers bits `k`
/// to 7, the second bits 0 to `k - 1`.
proof fn lemma_byte_window_bits(k: u32, b: u8)
    requires
        k < 8,
        b < 8,
    ensures
        msb_bit(mask_bytes(0xff00u16, k as int).0, b) == (b >= k),
        msb_bit(mask_bytes(0xff00u16, k as int).1, b) == (b < k),
{
    let sh: u8 = (7 - b) as u8;
    assert(((((0xff00u16 >> k) >> 8u32) as u8 >> sh) & 1u8 == 1u8) == (b as u32 >= k))
        by (bit_vector)
        requires
            k < 8,
            b < 8,
            sh == 7 - b,
    ;
    assert(((((0xff00u16 >> k) & 0xffu16) as u8 >> sh) & 1u8 == 1u8) == ((b as u32) < k))
        by (bit_vector)
        requires
            k < 8,
            b < 8,
            sh == 7 - b,
    ;
}

/// Byte flip `idx` flips exactly eight adjacent bits: counting the bits of the input from the
/// most significant bit of its first byte, those from the byte flip's signal in its cycle's row
/// on, and all eight lie within that row's signals.
pub proof fn law_byte_flip_window(dims: FuzzDimensions, idx: u32, bytes: Seq<u8>)
    requires
        ByteFlip.can_apply(dims, idx, bytes),
    ensures
        flip_signal(idx, ByteFlip::positions(dims)) + 8 <= dims.bit_width,
        ByteFlip.spec_mutate(dims, idx, bytes).len() == bytes.len(),
        forall|j: int, b: u8|
            0 <= j < bytes.len() && b < 8 ==> ((#[trigger] msb_bit(
                ByteFlip.spec_mutate(dims, idx, bytes)[j],
                b,
            ) != msb_bit(bytes[j], b)) <==> (flip_cycle(idx, ByteFlip::positions(dims))
                * dims.spec_byte_width() * 8 + flip_signal(idx, ByteFlip::positions(dims)) <= j * 8
                + b < flip_cycle(idx, ByteFlip::positions(dims)) * dims.spec_byte_width() * 8
                + flip_signal(idx, ByteFlip::positions(dims)) + 8)),
{
    let p = ByteFlip::positions(dims);
    let c = flip_cycle(idx, p);
    let sig = flip_signal(idx, p);
    let bw = dims.spec_byte_width();
    let at = flip_byte(dims, idx, p);
    let k = flip_shift(idx, p);
    let spill = ByteFlip::spills(dims, idx);
    let masks = mask_bytes(0xff00u16, k);
    let out = ByteFlip.spec_mutate(dims, idx, bytes);
    assert(0 <= sig < p) by (nonlinear_arith)
        requires
            p > 0,
            sig == idx as int % p,
    ;
    assert(c >= 0) by (nonlinear_arith)
        requires
            p > 0,
            c == idx as int / p,
    ;
    assert(c * bw >= 0) by (nonlinear_arith)
        requires
            c >= 0,
            bw >= 0,
    ;
    let start = c * bw * 8 + sig;
    assert(start == at * 8 + k);
    assert(out == xor_window(bytes, at, spill, masks));
    lemma_byte_masks(k as u32);
    assert forall|j: int, b: u8| 0 <= j < bytes.len() && b < 8 implies ((#[trigger] msb_bit(
        out[j],
        b,
    ) != msb_bit(bytes[j], b)) <==> (start <= j * 8 + b < start + 8)) by {
        lemma_byte_window_bits(k as u32, b);
        if j == at {
            if spill {
                lemma_xor_changes_mask_bits(bytes[j], masks.0, b);
            } else {
                assert(masks.1 == 0);
                let (x, m0) = (bytes[j], masks.0);
                assert(x ^ m0 ^ 0u8 == x ^ m0) by (bit_vector);
                lemma_xor_changes_mask_bits(bytes[j], masks.0, b);
            }
        } else if j == at + 1 && spill {
            lemma_xor_changes_mask_bits(bytes[j], masks.1, b);
        } else {
            assert(out[j] == bytes[j]);
        }
    }
}

} // verus!
