//! The zero-knowledge arguments: the Bayer-Groth shuffle argument and its
//! sub-arguments.

pub mod hadamard;
pub mod multi_exponentiation;
pub mod product;
pub mod shuffle;
pub mod zero_argument;
pub mod single_value_product;
