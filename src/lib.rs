//! Owned text values handed into and out of functions, borrowed for
//! measurement, and viewed through sub-ranges.
pub mod arrays;
pub mod strings;

pub use arrays::sub_range;
pub use strings::{calc_len, calculate_length, first_word, give_ownership};
