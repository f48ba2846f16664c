//! The meaning of programs: an evaluator for the language, a machine
//! for the intermediate representation, the proof that code
//! generation takes one to the other, and an executable runner.

pub mod correct;
pub mod eval;
pub mod interp;
pub mod laws;
pub mod machine;
