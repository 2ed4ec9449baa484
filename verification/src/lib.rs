use vstd::prelude::*;

pub mod chat;
pub mod json;
pub mod json_laws;
pub mod modules;
pub mod names;
pub mod optimizer;
pub mod predictors;
pub mod programs;
pub mod providers;
pub mod random;
pub mod text;
pub mod text_laws;
pub mod trace;

verus! {

} // verus!
