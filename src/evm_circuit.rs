//! The EVM circuit's row budget, active rows and table layouts.

use crate::witness::{
    flatten_steps, lemma_flatten_steps_append, lemma_steps_height_append,
    lemma_steps_height_nonneg, steps_height, Block, Bytecode, ExecStep, ExecutionState,
};
use crate::table::{
    lemma_tables_rows_len, tables_len, tables_rows, zero_row, FixedRow, FixedTableTag,
};
use crate::sizing::{lemma_size_exponent_fits, lemma_size_exponent_monotonic, min_size_exponent, size_exponent, SIZE_MARGIN};
use vstd::arithmetic::power2::pow2;
use crate::witness::{bytecode_len, lemma_bytecode_len_append, lemma_bytecode_len_nonneg};
use vstd::prelude::*;

verus! {

/// Why a layout could not be made.
#[derive(Clone, Copy, Debug, PartialEq, Eq, Structural)]
pub enum Error {
    /// The rows to write do not fit in the allocated column height.
    NotEnoughRowsAvailable,
    /// A step encoder consumed a number of rows other than its state's height.
    StepHeightMismatch,
}

/// Where the steps of a block go: step `i` (all transactions' steps in order)
/// starts at `step_offsets[i]`; the steps end at `steps_end`; padding fills the
/// rows from `steps_end` up to `padding_end`.
#[derive(Clone, Debug)]
pub struct BlockLayout {
    pub step_offsets: Vec<usize>,
    pub steps_end: usize,
    pub padding_end: usize,
}

/// Number of rows in the byte table.
pub const BYTE_TABLE_ROWS: usize = 256;

/// The circuit's configuration as the row logic sees it: the height of each
/// execution state, and the opcodes each state is responsible for.
#[derive(Clone, Debug)]
pub struct EvmCircuit {
    step_heights: Vec<usize>,
    responsible_opcodes: Vec<(u64, u64)>,
}

impl EvmCircuit {
    /// Height of each execution state, indexed by the state.
    pub closed spec fn heights(self) -> Seq<usize> {
        self.step_heights@
    }

    /// The (state, opcode) pairs of the opcode table.
    pub closed spec fn opcode_pairs(self) -> Seq<(u64, u64)> {
        self.responsible_opcodes@
    }

    /// Rows taken by one step of state `s`.
    pub open spec fn height_of(self, s: ExecutionState) -> int {
        self.heights()[s.0 as int] as int
    }

    /// `s` is one of the configured execution states.
    pub open spec fn knows_state(self, s: ExecutionState) -> bool {
        s.0 < self.heights().len()
    }

    /// Every step of `block` is in a configured execution state.
    pub open spec fn knows_block(self, block: Block) -> bool {
        forall|i: int|
            0 <= i < block.steps().len() ==> self.knows_state(#[trigger] block.steps()[i].execution_state)
    }

    /// Rows the trace of `block` needs: one guard row plus the height of every step.
    pub open spec fn rows_for_trace(self, block: Block) -> int {
        1 + steps_height(self.heights(), block.steps())
    }

    /// Builds the configuration from the height of each execution state (indexed
    /// by `ExecutionState`) and the `(state, opcode)` pairs of the opcode table.
    pub fn configure(step_heights: Vec<usize>, responsible_opcodes: Vec<(u64, u64)>) -> (r: Self)
        ensures
            r.heights() == step_heights@,
            r.opcode_pairs() == responsible_opcodes@,
    {
        EvmCircuit { step_heights, responsible_opcodes }
    }

    /// Number of configured execution states.
    pub fn num_states(&self) -> (r: usize)
        ensures
            r == self.heights().len(),
    {
        self.step_heights.len()
    }

    /// The (state, opcode) pairs of the opcode table.
    pub fn responsible_opcodes(&self) -> (r: &Vec<(u64, u64)>)
        ensures
            r@ == self.opcode_pairs(),
    {
        &self.responsible_opcodes
    }

    /// Height of one execution state.
    pub fn get_step_height(&self, execution_state: ExecutionState) -> (r: usize)
        requires
            self.knows_state(execution_state),
        ensures
            r == self.height_of(execution_state),
    {
        self.step_heights[execution_state.0]
    }

    /// Number of rows the block's trace occupies, guard row included.
    pub fn get_num_rows_required(&self, block: &Block) -> (r: usize)
        requires
            self.knows_block(*block),
            self.rows_for_trace(*block) <= usize::MAX,
        ensures
            r == self.rows_for_trace(*block),
    {
        let ghost h = self.heights();
        let ghost all = block.txs@;
        let mut num_rows: usize = 1;
        let mut i: usize = 0;
        while i < block.txs.len()
            invariant
                i <= all.len(),
                all == block.txs@,
                h == self.heights(),
                self.knows_block(*block),
                self.rows_for_trace(*block) <= usize::MAX,
                num_rows == 1 + steps_height(h, flatten_steps(all.take(i as int))),
            decreases all.len() - i,
        {
            let steps = &block.txs[i].steps;
            let ghost done = flatten_steps(all.take(i as int));
            proof {
                assert(all.take(i as int + 1).drop_last() =~= all.take(i as int));
                assert(flatten_steps(all.take(i as int + 1)) == done + steps@);
                assert(all =~= all.take(i as int + 1) + all.skip(i as int + 1));
                lemma_flatten_steps_append(all.take(i as int + 1), all.skip(i as int + 1));
                lemma_steps_height_append(h, done + steps@, flatten_steps(all.skip(i as int + 1)));
                lemma_steps_height_nonneg(h, flatten_steps(all.skip(i as int + 1)));
            }
            let mut j: usize = 0;
            while j < steps.len()
                invariant
                    i < all.len(),
                    j <= steps@.len(),
                    steps@ == all[i as int].steps@,
                    h == self.heights(),
                    done == flatten_steps(all.take(i as int)),
                    block.steps() == done + steps@ + flatten_steps(all.skip(i as int + 1)),
                    self.knows_block(*block),
                    self.rows_for_trace(*block) <= usize::MAX,
                    steps_height(h, done + steps@) <= steps_height(h, block.steps()),
                    num_rows == 1 + steps_height(h, done + steps@.take(j as int)),
                decreases steps@.len() - j,
            {
                let step = steps[j];
                proof {
                    let k = done.len() + j;
                    assert(block.steps()[k] == step);
                    assert((done + steps@.take(j as int + 1)).drop_last() =~= done + steps@.take(
                        j as int,
                    ));
                    assert(done + steps@ =~= (done + steps@.take(j as int + 1)) + steps@.skip(
                        j as int + 1,
                    ));
                    lemma_steps_height_append(
                        h,
                        done + steps@.take(j as int + 1),
                        steps@.skip(j as int + 1),
                    );
                    lemma_steps_height_nonneg(h, steps@.skip(j as int + 1));
                }
                num_rows = num_rows + self.get_step_height(step.execution_state);
                j = j + 1;
            }
            proof {
                assert(steps@.take(j as int) =~= steps@);
            }
            i = i + 1;
        }
        proof {
            assert(all.take(i as int) =~= all);
        }
        num_rows
    }

    /// The rows of the fixed table for `fixed_table_tags`, from offset 0: the
    /// all-zero row, then each tag's table in list order. Fails, writing nothing,
    /// when they do not fit in `num_rows` rows.
    pub fn load_fixed_table(&self, num_rows: usize, fixed_table_tags: Vec<FixedTableTag>) -> (r:
        Result<Vec<FixedRow>, Error>)
        ensures
            r.is_ok() <==> 1 + tables_len(fixed_table_tags@, self.opcode_pairs().len()) <= num_rows,
            r matches Ok(rows) ==> rows@ == seq![zero_row()] + tables_rows(
                fixed_table_tags@,
                self.opcode_pairs(),
            ) && rows@.len() == 1 + tables_len(fixed_table_tags@, self.opcode_pairs().len()),
            r matches Err(e) ==> e == Error::NotEnoughRowsAvailable,
    {
        let ghost n_pairs = self.opcode_pairs().len();
        if num_rows == 0 {
            return Err(Error::NotEnoughRowsAvailable);
        }
        let mut total: usize = 1;
        let mut i: usize = 0;
        while i < fixed_table_tags.len()
            invariant
                i <= fixed_table_tags@.len(),
                n_pairs == self.responsible_opcodes@.len(),
                total == 1 + tables_len(fixed_table_tags@.take(i as int), n_pairs),
                total <= num_rows,
            decreases fixed_table_tags@.len() - i,
        {
            let len = fixed_table_tags[i].row_count(self.responsible_opcodes.len());
            proof {
                assert(fixed_table_tags@.take(i as int + 1).drop_last() =~= fixed_table_tags@.take(i as int));
                assert(fixed_table_tags@.take(i as int + 1).last() == fixed_table_tags@[i as int]);
                assert(tables_len(fixed_table_tags@.take(i as int + 1), n_pairs) == total - 1 + len);
                lemma_tables_len_prefix(fixed_table_tags@, i as int + 1, n_pairs);
            }
            if len > num_rows - total {
                return Err(Error::NotEnoughRowsAvailable);
            }
            total = total + len;
            i = i + 1;
        }
        proof {
            assert(fixed_table_tags@.take(i as int) =~= fixed_table_tags@);
        }
        let mut rows: Vec<FixedRow> = Vec::new();
        rows.push(FixedRow(0, 0, 0, 0));
        let mut i: usize = 0;
        while i < fixed_table_tags.len()
            invariant
                i <= fixed_table_tags@.len(),
                rows@ == seq![zero_row()] + tables_rows(fixed_table_tags@.take(i as int), self.opcode_pairs()),
            decreases fixed_table_tags@.len() - i,
        {
            let mut table = fixed_table_tags[i].build(&self.responsible_opcodes);
            rows.append(&mut table);
            proof {
                assert(fixed_table_tags@.take(i as int + 1).drop_last() =~= fixed_table_tags@.take(i as int));
                assert(seq![zero_row()] + tables_rows(fixed_table_tags@.take(i as int + 1), self.opcode_pairs())
                    =~= rows@);
            }
            i = i + 1;
        }
        proof {
            assert(fixed_table_tags@.take(i as int) =~= fixed_table_tags@);
            lemma_tables_rows_len(fixed_table_tags@, self.opcode_pairs());
        }
        Ok(rows)
    }

    /// The byte table: value `i` at offset `i` for `i` in `0..256`. Fails when
    /// `num_rows` is below 256.
    pub fn load_byte_table(&self, num_rows: usize) -> (r: Result<Vec<u64>, Error>)
        ensures
            r.is_ok() <==> BYTE_TABLE_ROWS <= num_rows,
            r matches Ok(v) ==> v@.len() == BYTE_TABLE_ROWS && forall|i: int|
                0 <= i < BYTE_TABLE_ROWS ==> v@[i] == i,
            r matches Err(e) ==> e == Error::NotEnoughRowsAvailable,
    {
        if num_rows < BYTE_TABLE_ROWS {
            return Err(Error::NotEnoughRowsAvailable);
        }
        let mut v: Vec<u64> = Vec::new();
        let mut offset: usize = 0;
        while offset < BYTE_TABLE_ROWS
            invariant
                offset <= BYTE_TABLE_ROWS,
                v@.len() == offset,
                forall|i: int| 0 <= i < offset ==> v@[i] == i,
            decreases BYTE_TABLE_ROWS - offset,
        {
            v.push(offset as u64);
            offset = offset + 1;
        }
        Ok(v)
    }

    /// Total number of rows of the tables of `fixed_table_tags`.
    pub fn fixed_table_rows(&self, fixed_table_tags: &Vec<FixedTableTag>) -> (r: usize)
        requires
            tables_len(fixed_table_tags@, self.opcode_pairs().len()) <= usize::MAX,
        ensures
            r == tables_len(fixed_table_tags@, self.opcode_pairs().len()),
    {
        let ghost n_pairs = self.opcode_pairs().len();
        let mut total: usize = 0;
        let mut i: usize = 0;
        while i < fixed_table_tags.len()
            invariant
                i <= fixed_table_tags@.len(),
                n_pairs == self.responsible_opcodes@.len(),
                tables_len(fixed_table_tags@, n_pairs) <= usize::MAX,
                total == tables_len(fixed_table_tags@.take(i as int), n_pairs),
            decreases fixed_table_tags@.len() - i,
        {
            proof {
                assert(fixed_table_tags@.take(i as int + 1).drop_last() =~= fixed_table_tags@.take(
                    i as int,
                ));
                lemma_tables_len_prefix(fixed_table_tags@, i as int + 1, n_pairs);
            }
            total = total + fixed_table_tags[i].row_count(self.responsible_opcodes.len());
            i = i + 1;
        }
        proof {
            assert(fixed_table_tags@.take(i as int) =~= fixed_table_tags@);
        }
        total
    }

    /// The size exponent of a circuit that holds the tables of
    /// `fixed_table_tags`, the block's bytecodes and the block's trace, each
    /// with the margin.
    pub fn minimum_size_exponent(&self, fixed_table_tags: &Vec<FixedTableTag>, block: &Block) -> (k:
        u32)
        requires
            self.knows_block(*block),
            SIZE_MARGIN + tables_len(fixed_table_tags@, self.opcode_pairs().len()) <= usize::MAX,
            SIZE_MARGIN + bytecode_len(block.bytecodes@) <= usize::MAX,
            SIZE_MARGIN + self.rows_for_trace(*block) <= usize::MAX,
        ensures
            k == size_exponent(
                tables_len(fixed_table_tags@, self.opcode_pairs().len()),
                bytecode_len(block.bytecodes@) as nat,
                self.rows_for_trace(*block) as nat,
            ),
    {
        let fixed_rows = self.fixed_table_rows(fixed_table_tags);
        let bytecode_rows = bytecode_bytes(&block.bytecodes);
        let trace_rows = self.get_num_rows_required(block);
        min_size_exponent(fixed_rows, bytecode_rows, trace_rows)
    }

    /// Offset of step `i` of `block`: the rows of the steps before it.
    pub open spec fn step_offset(self, block: Block, i: int) -> int {
        steps_height(self.heights(), block.steps().take(i))
    }

    /// Lays the steps of `block` out from row 0, one after another, in a
    /// region of `num_rows` rows; the padding runs to the end of the region.
    /// Fails when the trace with its guard row does not fit.
    pub fn assign_block(&self, num_rows: usize, block: &Block) -> (r: Result<BlockLayout, Error>)
        requires
            self.knows_block(*block),
        ensures
            r.is_ok() <==> self.rows_for_trace(*block) <= num_rows,
            r matches Ok(l) ==> self.is_layout_of(*block, l) && l.padding_end == num_rows,
            r matches Err(e) ==> e == Error::NotEnoughRowsAvailable,
    {
        self.layout_steps(num_rows, block, false)
    }

    /// As `assign_block`, with no padding after the last step.
    pub fn assign_block_exact(&self, num_rows: usize, block: &Block) -> (r: Result<BlockLayout, Error>)
        requires
            self.knows_block(*block),
        ensures
            r.is_ok() <==> self.rows_for_trace(*block) <= num_rows,
            r matches Ok(l) ==> self.is_layout_of(*block, l) && l.padding_end == l.steps_end,
            r matches Err(e) ==> e == Error::NotEnoughRowsAvailable,
    {
        self.layout_steps(num_rows, block, true)
    }

    /// `l` places every step of `block` at its offset, and ends the steps where
    /// the trace rows end.
    pub open spec fn is_layout_of(self, block: Block, l: BlockLayout) -> bool {
        &&& l.step_offsets@.len() == block.steps().len()
        &&& forall|i: int|
            0 <= i < block.steps().len() ==> #[trigger] l.step_offsets@[i] == self.step_offset(
                block,
                i,
            )
        &&& l.steps_end == steps_height(self.heights(), block.steps())
        &&& l.steps_end + 1 == self.rows_for_trace(block)
    }

    fn layout_steps(&self, num_rows: usize, block: &Block, exact: bool) -> (r: Result<
        BlockLayout,
        Error,
    >)
        requires
            self.knows_block(*block),
        ensures
            r.is_ok() <==> self.rows_for_trace(*block) <= num_rows,
            r matches Ok(l) ==> self.is_layout_of(*block, l) && l.padding_end == (if exact {
                l.steps_end
            } else {
                num_rows
            }),
            r matches Err(e) ==> e == Error::NotEnoughRowsAvailable,
    {
        let ghost h = self.heights();
        let ghost all = block.txs@;
        let ghost flat = block.steps();
        proof {
            lemma_steps_height_nonneg(h, flat);
        }
        if num_rows == 0 {
            return Err(Error::NotEnoughRowsAvailable);
        }
        let mut offsets: Vec<usize> = Vec::new();
        let mut offset: usize = 0;
        let mut i: usize = 0;
        while i < block.txs.len()
            invariant
                i <= all.len(),
                all == block.txs@,
                flat == block.steps(),
                h == self.heights(),
                self.knows_block(*block),
                num_rows >= 1,
                offset < num_rows,
                offset == steps_height(h, flatten_steps(all.take(i as int))),
                offsets@.len() == flatten_steps(all.take(i as int)).len(),
                flatten_steps(all.take(i as int)).len() <= flat.len(),
                forall|k: int|
                    0 <= k < offsets@.len() ==> #[trigger] offsets@[k] == self.step_offset(
                        *block,
                        k,
                    ),
            decreases all.len() - i,
        {
            let steps = &block.txs[i].steps;
            let ghost done = flatten_steps(all.take(i as int));
            proof {
                assert(all.take(i as int + 1).drop_last() =~= all.take(i as int));
                assert(flatten_steps(all.take(i as int + 1)) == done + steps@);
                assert(all =~= all.take(i as int + 1) + all.skip(i as int + 1));
                lemma_flatten_steps_append(all.take(i as int + 1), all.skip(i as int + 1));
                lemma_steps_height_append(h, done + steps@, flatten_steps(all.skip(i as int + 1)));
                lemma_steps_height_nonneg(h, flatten_steps(all.skip(i as int + 1)));
            }
            let mut j: usize = 0;
            while j < steps.len()
                invariant
                    i < all.len(),
                    j <= steps@.len(),
                    steps@ == all[i as int].steps@,
                    h == self.heights(),
                    flat == block.steps(),
                    done == flatten_steps(all.take(i as int)),
                    flat == done + steps@ + flatten_steps(all.skip(i as int + 1)),
                    self.knows_block(*block),
                    num_rows >= 1,
                    offset < num_rows,
                    offset == steps_height(h, done + steps@.take(j as int)),
                    offsets@.len() == done.len() + j,
                    forall|k: int|
                        0 <= k < offsets@.len() ==> #[trigger] offsets@[k] == self.step_offset(
                            *block,
                            k,
                        ),
                decreases steps@.len() - j,
            {
                let step = steps[j];
                let ghost k = done.len() + j;
                proof {
                    assert(flat[k] == step);
                    assert(flat.take(k) =~= done + steps@.take(j as int));
                    assert((done + steps@.take(j as int + 1)).drop_last() =~= done + steps@.take(
                        j as int,
                    ));
                    assert(flat.take(k + 1) =~= done + steps@.take(j as int + 1));
                    assert(flat =~= flat.take(k + 1) + flat.skip(k + 1));
                    lemma_steps_height_append(h, flat.take(k + 1), flat.skip(k + 1));
                    lemma_steps_height_nonneg(h, flat.skip(k + 1));
                }
                offsets.push(offset);
                let height = self.get_step_height(step.execution_state);
                if height >= num_rows - offset {
                    return Err(Error::NotEnoughRowsAvailable);
                }
                offset = offset + height;
                j = j + 1;
            }
            proof {
                assert(steps@.take(j as int) =~= steps@);
                assert(flatten_steps(all.take(i as int + 1)).len() <= flat.len());
            }
            i = i + 1;
        }
        proof {
            assert(all.take(i as int) =~= all);
        }
        let padding_end = if exact { offset } else { num_rows };
        Ok(BlockLayout { step_offsets: offsets, steps_end: offset, padding_end })
    }

    /// Checks the rows a step encoder consumed against the height of the step's
    /// state.
    pub fn check_step_rows(&self, execution_state: ExecutionState, rows_consumed: usize) -> (r:
        Result<(), Error>)
        requires
            self.knows_state(execution_state),
        ensures
            r.is_ok() <==> rows_consumed == self.height_of(execution_state),
            r matches Err(e) ==> e == Error::StepHeightMismatch,
    {
        if rows_consumed == self.get_step_height(execution_state) {
            Ok(())
        } else {
            Err(Error::StepHeightMismatch)
        }
    }

    /// The active rows of `block`: `0..rows_for_trace(block)`.
    pub open spec fn active_row_ids(self, block: Block) -> Seq<usize> {
        Seq::new(self.rows_for_trace(block) as nat, |i: int| i as usize)
    }

    /// Rows on which gates and lookups are checked: `0..rows_for_trace` for both.
    pub fn get_active_rows(&self, block: &Block) -> (r: (Vec<usize>, Vec<usize>))
        requires
            self.knows_block(*block),
            self.rows_for_trace(*block) <= usize::MAX,
        ensures
            r.0@ == self.active_row_ids(*block),
            r.1@ == self.active_row_ids(*block),
    {
        let max_offset = self.get_num_rows_required(block);
        // some gates are enabled on all rows
        let gates_row_ids = row_range(max_offset);
        // lookups are enabled at step rows and byte lookup rows
        let lookup_row_ids = row_range(max_offset);
        proof {
            assert(gates_row_ids@ =~= self.active_row_ids(*block));
            assert(lookup_row_ids@ =~= self.active_row_ids(*block));
        }
        (gates_row_ids, lookup_row_ids)
    }
}

/// The active rows of a block are exactly `0..rows_for_trace(block)`, and all
/// of them, with the margin, lie inside a circuit whose size exponent was
/// chosen for that block, whatever the fixed table's size.
pub proof fn lemma_active_rows_within_circuit(c: EvmCircuit, block: Block, fixed_rows: nat)
    requires
        c.rows_for_trace(block) <= usize::MAX,
    ensures
        c.active_row_ids(block).len() == c.rows_for_trace(block),
        forall|i: int|
            0 <= i < c.active_row_ids(block).len() ==> #[trigger] c.active_row_ids(block)[i] == i
                && c.active_row_ids(block)[i] + SIZE_MARGIN < pow2(
                size_exponent(
                    fixed_rows,
                    bytecode_len(block.bytecodes@) as nat,
                    c.rows_for_trace(block) as nat,
                ),
            ),
{
    lemma_steps_height_nonneg(c.heights(), block.steps());
    lemma_bytecode_len_nonneg(block.bytecodes@);
    lemma_size_exponent_fits(
        fixed_rows,
        bytecode_len(block.bytecodes@) as nat,
        c.rows_for_trace(block) as nat,
    );
}

/// The size exponent that `minimum_size_exponent` returns never decreases when
/// the trace grows by more steps, the bytecodes grow, or the fixed table grows.
pub proof fn lemma_minimum_size_exponent_monotonic(
    c: EvmCircuit,
    fixed_rows1: nat,
    fixed_rows2: nat,
    block1: Block,
    block2: Block,
    extra_steps: Seq<ExecStep>,
)
    requires
        fixed_rows1 <= fixed_rows2,
        block2.steps() == block1.steps() + extra_steps,
        bytecode_len(block1.bytecodes@) <= bytecode_len(block2.bytecodes@),
    ensures
        c.rows_for_trace(block1) <= c.rows_for_trace(block2),
        size_exponent(
            fixed_rows1,
            bytecode_len(block1.bytecodes@) as nat,
            c.rows_for_trace(block1) as nat,
        ) <= size_exponent(
            fixed_rows2,
            bytecode_len(block2.bytecodes@) as nat,
            c.rows_for_trace(block2) as nat,
        ),
{
    lemma_steps_height_append(c.heights(), block1.steps(), extra_steps);
    lemma_steps_height_nonneg(c.heights(), block1.steps());
    lemma_steps_height_nonneg(c.heights(), extra_steps);
    lemma_bytecode_len_nonneg(block1.bytecodes@);
    lemma_size_exponent_monotonic(
        fixed_rows1,
        bytecode_len(block1.bytecodes@) as nat,
        c.rows_for_trace(block1) as nat,
        fixed_rows2,
        bytecode_len(block2.bytecodes@) as nat,
        c.rows_for_trace(block2) as nat,
    );
}

proof fn lemma_tables_len_prefix(tags: Seq<FixedTableTag>, i: int, n_pairs: nat)
    requires
        0 <= i <= tags.len(),
    ensures
        tables_len(tags.take(i), n_pairs) <= tables_len(tags, n_pairs),
    decreases tags.len(),
{
    if i < tags.len() {
        assert(tags.drop_last().take(i) =~= tags.take(i));
        lemma_tables_len_prefix(tags.drop_last(), i, n_pairs);
    } else {
        assert(tags.take(i) =~= tags);
    }
}

/// Total number of bytes of `bytecodes`.
pub fn bytecode_bytes(bytecodes: &Vec<Bytecode>) -> (r: usize)
    requires
        bytecode_len(bytecodes@) <= usize::MAX,
    ensures
        r == bytecode_len(bytecodes@),
{
    let mut total: usize = 0;
    let mut i: usize = 0;
    while i < bytecodes.len()
        invariant
            i <= bytecodes@.len(),
            bytecode_len(bytecodes@) <= usize::MAX,
            total == bytecode_len(bytecodes@.take(i as int)),
        decreases bytecodes@.len() - i,
    {
        proof {
            let s = bytecodes@;
            assert(s.take(i as int + 1).drop_last() =~= s.take(i as int));
            assert(s =~= s.take(i as int + 1) + s.skip(i as int + 1));
            lemma_bytecode_len_append(s.take(i as int + 1), s.skip(i as int + 1));
            lemma_bytecode_len_nonneg(s.skip(i as int + 1));
        }
        total = total + bytecodes[i].bytes.len();
        i = i + 1;
    }
    proof {
        assert(bytecodes@.take(i as int) =~= bytecodes@);
    }
    total
}

/// The row indices `0..n` in order.
pub fn row_range(n: usize) -> (r: Vec<usize>)
    ensures
        r@.len() == n,
        forall|i: int| 0 <= i < n ==> r@[i] == i,
{
    let mut r: Vec<usize> = Vec::new();
    let mut i: usize = 0;
    while i < n
        invariant
            i <= n,
            r@.len() == i,
            forall|k: int| 0 <= k < i ==> r@[k] == k,
        decreases n - i,
    {
        r.push(i);
        i = i + 1;
    }
    r
}

} // verus!
