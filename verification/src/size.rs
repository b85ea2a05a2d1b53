//! File sizes for people to read.
use humansize::{format_size, BINARY};
use vstd::prelude::*;

verus! {

/// A number of bytes as `humansize` writes it in units of 1024.
pub uninterp spec fn human_size(bytes: u64) -> Seq<char>;

/// Calls `humansize::format_size` with its `BINARY` options. The text that comes back depends on
/// the number alone, and is what `human_size` names.
#[verifier::external_body]
pub(crate) fn format_binary_size(bytes: u64) -> (r: String)
    ensures
        r@ == human_size(bytes),
{
    format_size(bytes, BINARY)
}

} // verus!
