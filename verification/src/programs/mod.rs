//! Programs over signatures that are made at run time.

pub mod cot;
