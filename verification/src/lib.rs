//! Construction and inspection of diagrams in a graphical calculus for
//! quantum operations: spiders of a few fixed colors carry an exact phase
//! and connect, through stable handles, to boundary vertices that mark the
//! input and the output of each logical wire.

pub mod builders;
pub mod export;
pub mod graph;
pub mod phase;
pub mod storage;
pub mod vertex;
