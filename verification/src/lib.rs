//! Compiler from a tab-delimited description of a multi-register,
//! state-addressed automaton to a two-dimensional run-length-encoded
//! pattern holding a ROM and its address decoder.

use vstd::prelude::*;

pub mod arm_cmd;
pub mod fieline;
pub mod header;
pub mod helpers;
pub mod register_cmd;
pub mod rie;
pub mod rie_line;
pub mod rle;
pub mod tm_cmd;

verus! {

/// Bit length of `n`: the position of the highest set bit plus one,
/// zero for zero.
pub open spec fn spec_bit_len(n: nat) -> nat
    decreases n,
{
    if n == 0 {
        0
    } else {
        1 + spec_bit_len(n / 2)
    }
}

} // verus!
