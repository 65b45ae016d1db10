use evm_circuit::evm_circuit::{bytecode_bytes, row_range, Error, EvmCircuit};
use evm_circuit::harness::power_of_randomness_columns;
use evm_circuit::sizing::{log2_ceil, min_size_exponent};
use evm_circuit::table::{FixedRow, FixedTableTag};
use evm_circuit::witness::{Block, Bytecode, ExecStep, ExecutionState, Transaction};

fn circuit(heights: Vec<usize>) -> EvmCircuit {
    EvmCircuit::configure(heights, vec![(1, 0x01), (1, 0x02), (2, 0x56)])
}

fn tx(states: &[usize]) -> Transaction {
    Transaction {
        steps: states
            .iter()
            .map(|s| ExecStep {
                execution_state: ExecutionState(*s),
            })
            .collect(),
    }
}

fn block(txs: Vec<Transaction>) -> Block {
    Block {
        txs,
        bytecodes: vec![],
    }
}

#[test]
fn empty_trace_needs_one_row_and_k_7() {
    let c = circuit(vec![1, 2, 1]);
    let b = block(vec![]);
    assert_eq!(c.get_num_rows_required(&b), 1);
    assert_eq!(c.minimum_size_exponent(&vec![], &b), 7);
    let (gates, lookups) = c.get_active_rows(&b);
    assert_eq!(gates, vec![0]);
    assert_eq!(lookups, vec![0]);
}

#[test]
fn three_steps_of_heights_1_2_1() {
    let c = circuit(vec![1, 2, 0, 3]);
    let b = block(vec![tx(&[0, 1, 0])]);
    assert_eq!(c.get_num_rows_required(&b), 5);
    let (gates, lookups) = c.get_active_rows(&b);
    assert_eq!(gates, vec![0, 1, 2, 3, 4]);
    assert_eq!(lookups, vec![0, 1, 2, 3, 4]);
}

#[test]
fn rows_sum_heights_over_all_transactions() {
    let c = circuit(vec![1, 2, 0, 3]);
    let b = block(vec![tx(&[3, 2, 1]), tx(&[]), tx(&[0, 3])]);
    assert_eq!(c.get_num_rows_required(&b), 1 + 3 + 0 + 2 + 1 + 3);
}

#[test]
fn repeated_calls_agree() {
    let c = circuit(vec![1, 2, 0, 3]);
    let b = block(vec![tx(&[3, 2, 1]), tx(&[0])]);
    assert_eq!(c.get_num_rows_required(&b), c.get_num_rows_required(&b));
    assert_eq!(c.get_active_rows(&b), c.get_active_rows(&b));
}

#[test]
fn active_rows_fit_in_sized_circuit() {
    let c = circuit(vec![7, 40]);
    let b = block(vec![tx(&[1, 1, 0]), tx(&[1])]);
    let rows = c.get_num_rows_required(&b);
    assert_eq!(rows, 128);
    let k = c.minimum_size_exponent(&vec![FixedTableTag::Range5], &b);
    assert_eq!(k, 8);
    let (gates, _) = c.get_active_rows(&b);
    assert_eq!(gates.len(), rows);
    assert!(gates.iter().all(|r| *r + 64 < (1usize << k)));
}

#[test]
fn empty_tag_list_gives_only_the_zero_row() {
    let c = circuit(vec![1]);
    let rows = c.load_fixed_table(1, vec![]).unwrap();
    assert_eq!(rows, vec![FixedRow(0, 0, 0, 0)]);
}

#[test]
fn two_tables_of_5_and_16_rows_give_22() {
    let c = circuit(vec![1]);
    let rows = c
        .load_fixed_table(1000, vec![FixedTableTag::Range5, FixedTableTag::Range16])
        .unwrap();
    assert_eq!(rows.len(), 22);
    assert_eq!(rows[0], FixedRow(0, 0, 0, 0));
    assert_eq!(rows[1], FixedRow(1, 0, 0, 0));
    assert_eq!(rows[5], FixedRow(1, 4, 0, 0));
    assert_eq!(rows[6], FixedRow(2, 0, 0, 0));
    assert_eq!(rows[21], FixedRow(2, 15, 0, 0));
}

#[test]
fn fixed_table_exactly_fits() {
    let c = circuit(vec![1]);
    assert!(c
        .load_fixed_table(22, vec![FixedTableTag::Range5, FixedTableTag::Range16])
        .is_ok());
}

#[test]
fn fixed_table_too_large_fails() {
    let c = circuit(vec![1]);
    assert_eq!(
        c.load_fixed_table(21, vec![FixedTableTag::Range5, FixedTableTag::Range16]),
        Err(Error::NotEnoughRowsAvailable)
    );
    assert_eq!(
        c.load_fixed_table(0, vec![]),
        Err(Error::NotEnoughRowsAvailable)
    );
}

#[test]
fn fixed_table_rows_in_list_order_with_duplicates() {
    let c = circuit(vec![1]);
    let tags = vec![
        FixedTableTag::ResponsibleOpcode,
        FixedTableTag::Zero,
        FixedTableTag::ResponsibleOpcode,
    ];
    assert_eq!(c.fixed_table_rows(&tags), 7);
    let rows = c.load_fixed_table(100, tags).unwrap();
    assert_eq!(
        rows,
        vec![
            FixedRow(0, 0, 0, 0),
            FixedRow(12, 1, 1, 0),
            FixedRow(12, 1, 2, 0),
            FixedRow(12, 2, 0x56, 0),
            FixedRow(0, 0, 0, 0),
            FixedRow(12, 1, 1, 0),
            FixedRow(12, 1, 2, 0),
            FixedRow(12, 2, 0x56, 0),
        ]
    );
}

#[test]
fn table_rows_of_each_kind() {
    let pairs = vec![(3u64, 0x60u64)];
    assert_eq!(
        FixedTableTag::SignByte.row(&pairs, 200),
        FixedRow(8, 200, 255, 0)
    );
    assert_eq!(FixedTableTag::SignByte.row(&pairs, 127), FixedRow(8, 127, 0, 0));
    assert_eq!(
        FixedTableTag::BitwiseAnd.row(&pairs, 0x1234),
        FixedRow(9, 0x12, 0x34, 0x10)
    );
    assert_eq!(
        FixedTableTag::BitwiseOr.row(&pairs, 0x1234),
        FixedRow(10, 0x12, 0x34, 0x36)
    );
    assert_eq!(
        FixedTableTag::BitwiseXor.row(&pairs, 0x1234),
        FixedRow(11, 0x12, 0x34, 0x26)
    );
    assert_eq!(FixedTableTag::Pow2.row(&pairs, 3), FixedRow(13, 3, 8, 0));
    assert_eq!(
        FixedTableTag::Pow2.row(&pairs, 127),
        FixedRow(13, 127, 1u128 << 127, 0)
    );
    assert_eq!(FixedTableTag::Pow2.row(&pairs, 130), FixedRow(13, 130, 0, 4));
    assert_eq!(
        FixedTableTag::ResponsibleOpcode.row(&pairs, 0),
        FixedRow(12, 3, 0x60, 0)
    );
    assert_eq!(FixedTableTag::Range1024.row(&pairs, 1023), FixedRow(7, 1023, 0, 0));
}

#[test]
fn table_sizes() {
    let pairs = vec![(3u64, 0x60u64)];
    assert_eq!(FixedTableTag::Zero.build(&pairs).len(), 1);
    assert_eq!(FixedTableTag::Range512.build(&pairs).len(), 512);
    assert_eq!(FixedTableTag::BitwiseAnd.build(&pairs).len(), 65536);
    assert_eq!(FixedTableTag::Pow2.build(&pairs).len(), 256);
    assert_eq!(FixedTableTag::ResponsibleOpcode.build(&pairs).len(), 1);
    assert_eq!(FixedTableTag::all().len(), 14);
    assert_eq!(FixedTableTag::without_bitwise().len(), 11);
}

#[test]
fn byte_table_has_256_rows() {
    let c = circuit(vec![1]);
    let v = c.load_byte_table(256).unwrap();
    assert_eq!(v.len(), 256);
    for (i, value) in v.iter().enumerate() {
        assert_eq!(*value, i as u64);
    }
    assert_eq!(c.load_byte_table(255), Err(Error::NotEnoughRowsAvailable));
}

#[test]
fn log2_ceil_values() {
    assert_eq!(log2_ceil(0), 0);
    assert_eq!(log2_ceil(1), 0);
    assert_eq!(log2_ceil(2), 1);
    assert_eq!(log2_ceil(64), 6);
    assert_eq!(log2_ceil(65), 7);
    assert_eq!(log2_ceil(128), 7);
    assert_eq!(log2_ceil(129), 8);
    assert_eq!(log2_ceil(usize::MAX), 64);
}

#[test]
fn size_exponent_takes_the_largest_budget() {
    assert_eq!(min_size_exponent(0, 0, 1), 7);
    assert_eq!(min_size_exponent(0, 0, 0), 6);
    assert_eq!(min_size_exponent(1000, 10, 1), 11);
    assert_eq!(min_size_exponent(10, 1000, 1), 11);
    assert_eq!(min_size_exponent(10, 10, 1000), 11);
}

#[test]
fn size_exponent_never_decreases() {
    let mut last = 0;
    for n in [0usize, 1, 63, 64, 65, 100, 192, 193, 5000] {
        let k = min_size_exponent(n, 3, 1);
        assert!(k >= last);
        last = k;
    }
}

#[test]
fn minimum_size_exponent_counts_bytecode() {
    let c = circuit(vec![1]);
    let mut b = block(vec![tx(&[0])]);
    b.bytecodes = vec![
        Bytecode { bytes: vec![0; 100] },
        Bytecode { bytes: vec![1; 100] },
    ];
    assert_eq!(bytecode_bytes(&b.bytecodes), 200);
    assert_eq!(c.minimum_size_exponent(&vec![], &b), 9);
}

#[test]
fn layout_places_steps_contiguously() {
    let c = circuit(vec![1, 2, 0, 3]);
    let b = block(vec![tx(&[0, 1]), tx(&[2, 3])]);
    let l = c.assign_block(16, &b).unwrap();
    assert_eq!(l.step_offsets, vec![0, 1, 3, 3]);
    assert_eq!(l.steps_end, 6);
    assert_eq!(l.padding_end, 16);
    let e = c.assign_block_exact(16, &b).unwrap();
    assert_eq!(e.step_offsets, vec![0, 1, 3, 3]);
    assert_eq!(e.padding_end, 6);
}

#[test]
fn layout_keeps_a_guard_row() {
    let c = circuit(vec![1, 2, 0, 3]);
    let b = block(vec![tx(&[0, 1]), tx(&[2, 3])]);
    assert!(c.assign_block(7, &b).is_ok());
    assert_eq!(c.assign_block(6, &b).unwrap_err(), Error::NotEnoughRowsAvailable);
    assert_eq!(
        c.assign_block_exact(0, &block(vec![])).unwrap_err(),
        Error::NotEnoughRowsAvailable
    );
}

#[test]
fn step_rows_checked_against_height() {
    let c = circuit(vec![1, 2]);
    assert_eq!(c.check_step_rows(ExecutionState(1), 2), Ok(()));
    assert_eq!(
        c.check_step_rows(ExecutionState(1), 1),
        Err(Error::StepHeightMismatch)
    );
    assert_eq!(c.get_step_height(ExecutionState(0)), 1);
}

#[test]
fn randomness_columns_cover_usable_rows() {
    let cols = power_of_randomness_columns(&vec![3u64, 9, 27], 7);
    assert_eq!(cols.len(), 3);
    assert_eq!(cols[0], vec![3u64; 64]);
    assert_eq!(cols[2], vec![27u64; 64]);
}

#[test]
fn row_range_counts_up() {
    assert_eq!(row_range(4), vec![0, 1, 2, 3]);
    assert!(row_range(0).is_empty());
}
