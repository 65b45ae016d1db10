//! The execution trace handed to the circuit: a block of transactions, each an
//! ordered list of steps.

use vstd::prelude::*;

verus! {

/// Which operation a step performs, as an index into the circuit's table of
/// execution states.
#[derive(Clone, Copy, Debug, PartialEq, Eq, Structural)]
pub struct ExecutionState(pub usize);

/// One step of the trace.
#[derive(Clone, Copy, Debug, PartialEq, Eq, Structural)]
pub struct ExecStep {
    pub execution_state: ExecutionState,
}

/// The steps of one transaction, in execution order.
#[derive(Clone, Debug)]
pub struct Transaction {
    pub steps: Vec<ExecStep>,
}

/// Contract code whose bytes share the circuit's column space.
#[derive(Clone, Debug)]
pub struct Bytecode {
    pub bytes: Vec<u8>,
}

/// A block: its transactions in order, and the bytecodes they run.
#[derive(Clone, Debug)]
pub struct Block {
    pub txs: Vec<Transaction>,
    pub bytecodes: Vec<Bytecode>,
}

/// All steps of a list of transactions, in order.
pub open spec fn flatten_steps(txs: Seq<Transaction>) -> Seq<ExecStep>
    decreases txs.len(),
{
    if txs.len() == 0 {
        seq![]
    } else {
        flatten_steps(txs.drop_last()) + txs.last().steps@
    }
}

/// Sum of the heights of a list of steps, by the table `heights`.
pub open spec fn steps_height(heights: Seq<usize>, steps: Seq<ExecStep>) -> int
    decreases steps.len(),
{
    if steps.len() == 0 {
        0
    } else {
        steps_height(heights, steps.drop_last()) + heights[
        steps.last().execution_state.0 as int] as int
    }
}

/// Total number of bytecode bytes.
pub open spec fn bytecode_len(bytecodes: Seq<Bytecode>) -> int
    decreases bytecodes.len(),
{
    if bytecodes.len() == 0 {
        0
    } else {
        bytecode_len(bytecodes.drop_last()) + bytecodes.last().bytes@.len()
    }
}

impl Block {
    /// Every step of the block, transactions in order.
    pub open spec fn steps(self) -> Seq<ExecStep> {
        flatten_steps(self.txs@)
    }
}

/// Flattening distributes over concatenation.
pub proof fn lemma_flatten_steps_append(a: Seq<Transaction>, b: Seq<Transaction>)
    ensures
        flatten_steps(a + b) == flatten_steps(a) + flatten_steps(b),
    decreases b.len(),
{
    if b.len() == 0 {
        assert(a + b =~= a);
        assert(flatten_steps(a) + flatten_steps(b) =~= flatten_steps(a));
    } else {
        lemma_flatten_steps_append(a, b.drop_last());
        assert((a + b).drop_last() =~= a + b.drop_last());
        assert((a + b).last() == b.last());
    }
}

/// The height of two step lists in a row is the sum of their heights.
pub proof fn lemma_steps_height_append(heights: Seq<usize>, a: Seq<ExecStep>, b: Seq<ExecStep>)
    ensures
        steps_height(heights, a + b) == steps_height(heights, a) + steps_height(heights, b),
    decreases b.len(),
{
    if b.len() == 0 {
        assert(a + b =~= a);
    } else {
        lemma_steps_height_append(heights, a, b.drop_last());
        assert((a + b).drop_last() =~= a + b.drop_last());
        assert((a + b).last() == b.last());
    }
}

/// A list of steps never has negative height.
pub proof fn lemma_steps_height_nonneg(heights: Seq<usize>, a: Seq<ExecStep>)
    ensures
        steps_height(heights, a) >= 0,
    decreases a.len(),
{
    if a.len() > 0 {
        lemma_steps_height_nonneg(heights, a.drop_last());
    }
}

/// The byte count of two bytecode lists in a row is the sum of their counts.
pub proof fn lemma_bytecode_len_append(a: Seq<Bytecode>, b: Seq<Bytecode>)
    ensures
        bytecode_len(a + b) == bytecode_len(a) + bytecode_len(b),
    decreases b.len(),
{
    if b.len() == 0 {
        assert(a + b =~= a);
    } else {
        lemma_bytecode_len_append(a, b.drop_last());
        assert((a + b).drop_last() =~= a + b.drop_last());
        assert((a + b).last() == b.last());
    }
}

/// A byte count is never negative.
pub proof fn lemma_bytecode_len_nonneg(a: Seq<Bytecode>)
    ensures
        bytecode_len(a) >= 0,
    decreases a.len(),
{
    if a.len() > 0 {
        lemma_bytecode_len_nonneg(a.drop_last());
    }
}

} // verus!
