//! What callers can count on, said of the functions themselves: what an answer is for, given the
//! operands and nothing else.

pub mod attention;
pub mod conversion;
pub mod counts;
pub mod linear;
pub mod memory;
pub mod ranges;
pub mod ranks;
pub mod rows;
pub mod runs;
pub mod sampling;
pub mod schemes;
pub mod tables;
pub mod terms;
