pub mod chain_of_thought;
pub mod react;
pub mod rlm;
