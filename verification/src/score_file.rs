//! Scorer files.
use crate::diagnostic::ChannelLiquidityDiagnostic;
use vstd::prelude::*;

verus! {

/// A scorer file: what to call it, its size, and an entry for each channel in it.
#[derive(Debug)]
pub struct ScoreFile {
    pub label: String,
    pub file_size_bytes: u64,
    pub diagnostics: Vec<ChannelLiquidityDiagnostic>,
}

} // verus!
