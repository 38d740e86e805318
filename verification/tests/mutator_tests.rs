use verilator_simulation_manager::mutator::BitFlip;
use verilator_simulation_manager::mutator::ByteFlip;
use verilator_simulation_manager::mutator::CloneCycle;
use verilator_simulation_manager::mutator::FuzzDimensions;
use verilator_simulation_manager::mutator::Mutator;
use verilator_simulation_manager::mutator::NibleFlip;
use verilator_simulation_manager::mutator::RemoveCycle;

fn dims(bit_width: u32, num_cycles: u32) -> FuzzDimensions {
    FuzzDimensions { bit_width, num_cycles }
}

#[test]
fn byte_width_rounds_up_to_whole_bytes() {
    assert_eq!(dims(0, 1).byte_width(), 0);
    assert_eq!(dims(1, 1).byte_width(), 1);
    assert_eq!(dims(8, 1).byte_width(), 1);
    assert_eq!(dims(9, 1).byte_width(), 2);
    assert_eq!(dims(16, 1).byte_width(), 2);
    assert_eq!(dims(17, 1).byte_width(), 3);
}

#[test]
fn null_input_is_all_zero_rows() {
    assert_eq!(dims(12, 3).null_input(), vec![0u8; 6]);
    assert_eq!(dims(0, 5).null_input(), Vec::<u8>::new());
    assert_eq!(dims(8, 0).null_input(), Vec::<u8>::new());
}

#[test]
fn mutation_counts() {
    assert_eq!(BitFlip.num_possible_mutations(dims(12, 3)), 36);
    assert_eq!(NibleFlip.num_possible_mutations(dims(16, 1)), 13);
    assert_eq!(NibleFlip.num_possible_mutations(dims(2, 4)), 0);
    assert_eq!(ByteFlip.num_possible_mutations(dims(16, 2)), 18);
    assert_eq!(ByteFlip.num_possible_mutations(dims(7, 2)), 0);
    assert_eq!(CloneCycle { max_cycles: 3 }.num_possible_mutations(dims(8, 2)), 2);
    assert_eq!(CloneCycle { max_cycles: 2 }.num_possible_mutations(dims(8, 2)), 0);
    assert_eq!(RemoveCycle.num_possible_mutations(dims(8, 0)), 1);
    assert_eq!(RemoveCycle.num_possible_mutations(dims(8, 4)), 4);
}

#[test]
fn bit_flip_flips_one_bit_of_its_cycle() {
    let d = dims(12, 3);
    let zeros = d.null_input();
    assert_eq!(BitFlip.apply(d, 0, &zeros), vec![1, 0, 0, 0, 0, 0]);
    // cycle 1, signal 1: byte 2, bit 1
    assert_eq!(BitFlip.apply(d, 13, &zeros), vec![0, 0, 2, 0, 0, 0]);
    // cycle 2, signal 11: byte 5, bit 3
    assert_eq!(BitFlip.apply(d, 35, &zeros), vec![0, 0, 0, 0, 0, 8]);
}

#[test]
fn nible_flip_flips_four_bits() {
    let d = dims(16, 1);
    assert_eq!(NibleFlip.apply(d, 0, &[0, 0]), vec![0xF0, 0x00]);
    assert_eq!(NibleFlip.apply(d, 4, &[0, 0]), vec![0x0F, 0x00]);
    // offset 6 spills into the next byte
    assert_eq!(NibleFlip.apply(d, 6, &[0, 0]), vec![0x03, 0xC0]);
    assert_eq!(NibleFlip.apply(d, 12, &[0, 0]), vec![0x00, 0x0F]);
}

#[test]
fn byte_flip_flips_eight_bits() {
    let d = dims(16, 1);
    assert_eq!(ByteFlip.apply(d, 0, &[0, 0]), vec![0xFF, 0x00]);
    assert_eq!(ByteFlip.apply(d, 3, &[0, 0]), vec![0x1F, 0xE0]);
    assert_eq!(ByteFlip.apply(d, 8, &[0x0F, 0x0F]), vec![0x0F, 0xF0]);
}

#[test]
fn byte_flip_stays_within_its_cycle_row() {
    let d = dims(12, 2);
    assert_eq!(ByteFlip.num_possible_mutations(d), 10);
    assert_eq!(ByteFlip.apply(d, 7, &[0, 0, 0, 0]), vec![0x00, 0x00, 0x3F, 0xC0]);
    assert_eq!(ByteFlip.apply(d, 4, &[0, 0, 0, 0]), vec![0x0F, 0xF0, 0x00, 0x00]);
}

#[test]
fn flips_undo_themselves() {
    let d = dims(16, 2);
    let input = vec![0x12, 0x34, 0x56, 0x78];
    for idx in 0..BitFlip.num_possible_mutations(d) {
        let once = BitFlip.apply(d, idx, &input);
        assert_ne!(once, input);
        assert_eq!(BitFlip.apply(d, idx, &once), input);
    }
    for idx in 0..NibleFlip.num_possible_mutations(d) {
        let once = NibleFlip.apply(d, idx, &input);
        assert_ne!(once, input);
        assert_eq!(NibleFlip.apply(d, idx, &once), input);
    }
    for idx in 0..ByteFlip.num_possible_mutations(d) {
        let once = ByteFlip.apply(d, idx, &input);
        assert_ne!(once, input);
        assert_eq!(ByteFlip.apply(d, idx, &once), input);
    }
}

#[test]
fn clone_cycle_duplicates_the_cycle_before_idx() {
    let d = dims(8, 2);
    let mut clone = CloneCycle { max_cycles: 4 };
    assert_eq!(clone.apply(d, 1, &[1, 2]), vec![1, 1, 2]);
    assert_eq!(clone.apply(d, 2, &[1, 2]), vec![1, 2, 2]);
    let d16 = dims(16, 2);
    assert_eq!(clone.inner_apply(d16, 2, &[1, 2, 3, 4]), vec![1, 2, 3, 4, 3, 4]);
}

#[test]
fn remove_cycle_drops_the_cycle_before_idx() {
    let d = dims(8, 3);
    assert_eq!(RemoveCycle.apply(d, 1, &[1, 2, 3]), vec![2, 3]);
    assert_eq!(RemoveCycle.apply(d, 3, &[1, 2, 3]), vec![1, 2]);
}

#[test]
fn remove_undoes_clone() {
    let d = dims(16, 3);
    let input = vec![1, 2, 3, 4, 5, 6];
    let mut clone = CloneCycle { max_cycles: 8 };
    for idx in 1..=3 {
        let cloned = clone.inner_apply(d, idx, &input);
        assert_eq!(cloned.len(), input.len() + 2);
        assert_eq!(RemoveCycle.inner_apply(d, idx, &cloned), input);
    }
}
