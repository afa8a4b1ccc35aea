//! Exact propagation of stat-growth probability distributions for
//! level-up and promotion sequences, with probabilities kept as
//! exact rationals rather than floating point.

pub mod analysis;
pub mod interface;
pub mod manager;
pub mod plotter;
pub mod progression;
pub mod rational;
pub mod repl;
pub mod sit;
pub mod weapon;

use vstd::prelude::*;

verus! {

} // verus!
