//! The p-machine: the virtual machine that runs SCI0 scripts, with its registers,
//! execution contexts, object instances, lists and vocabularies.

pub mod calls;
pub mod context;
pub mod engine;
pub mod heap;
pub mod interpret;
pub mod kernel;
pub mod machine;
pub mod object;
pub mod register;
pub mod run;
pub mod vocab;
