//! Row budgeting and table layout for the EVM execution circuit.

use vstd::prelude::*;

pub mod evm_circuit;
pub mod harness;
pub mod sizing;
pub mod table;
pub mod witness;

verus! {

} // verus!
