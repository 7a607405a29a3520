//! A LaTeX build-retry helper: classifies typesetting-driver diagnostics,
//! derives the target artifact from the document name, and decides, cycle by
//! cycle, whether a missing package must be installed before the next attempt.

pub mod cycle;
pub mod msg;
pub mod output;
pub mod target;
