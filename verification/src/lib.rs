//! Four-parent crossbreeding: which four plants of a pool are most likely to
//! give a child with a wanted mix of genes.
//!
//! A plant has six loci with one of five genes at each. Four parents give a
//! child that holds, at each locus, one of the genes with the highest score
//! there; `G`, `Y` and `H` score 6 for each parent that holds them, `W` and
//! `X` score 8. The search takes every four plants of a pool and keeps the
//! crossing with the fewest possible children among those that can give a
//! child with the wanted gene counts.

pub mod genome;
pub mod locus;
pub mod offspring;
pub mod search;
pub mod solver;

pub use crate::solver::solve;
