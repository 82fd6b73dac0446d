//! Audits where compilers store the saved-arguments record of each function.
//!
//! Given the decoded debug information of one function, the library resolves
//! the function's frame base to a single `register + offset` pair, records the
//! instruction ranges over which that pair holds and those over which it does
//! not, and reports the frame offset of the saved-arguments variable.

pub mod classify;
pub mod entry;
pub mod expr;
pub mod frame_base;
pub mod range;
pub mod scan;
