//! Static-feature weight scheduling for a coverage-guided fuzzer.

pub mod double;
pub mod text;
pub mod table;
pub mod json;
pub mod feature_sched;
pub mod clock;
pub mod libfun;
pub mod rng;
