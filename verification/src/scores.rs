//! The binary form of scorer files.
use crate::decode::{Content, DecodeFailure};
use crate::diagnostic::ChannelLiquidityDiagnostic;
use lightning::io::Cursor;
use lightning::ln::msgs::DecodeError;
use lightning::routing::scoring::ChannelLiquidities;
use lightning::util::ser::{Readable, Writeable};
use vstd::prelude::*;
use vstd::string::StringExecFns;

verus! {

/// The scores of channels, as `lightning` keeps them.
#[verifier::external_type_specification]
#[verifier::external_body]
pub struct ExChannelLiquidities(ChannelLiquidities);

/// The entries that scores hold, by short-channel-id.
pub uninterp spec fn scores_in(scores: ChannelLiquidities) -> Map<u64, ChannelLiquidityDiagnostic>;

/// The entries that bytes encode, by short-channel-id.
pub uninterp spec fn decoded_scores(bytes: Seq<u8>) -> Result<
    Map<u64, ChannelLiquidityDiagnostic>,
    DecodeError,
>;

/// Whether bytes encode just these entries.
pub open spec fn decode_to(bytes: Seq<u8>, entries: Map<u64, ChannelLiquidityDiagnostic>) -> bool {
    decoded_scores(bytes) matches Ok(decoded) && decoded == entries
}

/// Calls `Readable::read` of `lightning::routing::scoring::ChannelLiquidities`. Whether it
/// succeeds, with which entries, and with which error, depends on the bytes alone, and is what
/// `decoded_scores` names.
#[verifier::external_body]
fn read_scores(bytes: &Vec<u8>) -> (r: Result<ChannelLiquidities, DecodeError>)
    ensures
        match r {
            Ok(scores) => decode_to(bytes@, scores_in(scores)),
            Err(e) => decoded_scores(bytes@) matches Err(cause) && cause == e,
        },
{
    ChannelLiquidities::read(&mut Cursor::new(bytes))
}

/// Calls `Writeable::encode` of `lightning::routing::scoring::ChannelLiquidities`. The bytes
/// decode to the same entries. Nothing is said of the order in which they stand.
#[verifier::external_body]
fn write_scores(scores: &ChannelLiquidities) -> (r: Vec<u8>)
    ensures
        decode_to(r@, scores_in(*scores)),
{
    scores.encode()
}

/// A scorer file that was read.
pub struct LoadedScores {
    pub label: String,
    pub file_size_bytes: u64,
    pub liquidities: ChannelLiquidities,
}

/// Reads the bytes of a scorer file.
pub fn read_score_file(path: &str, bytes: &Vec<u8>, label: String) -> (r: Result<
    LoadedScores,
    DecodeFailure,
>)
    ensures
        match decoded_scores(bytes@) {
            Ok(entries) => {
                &&& r matches Ok(file)
                &&& file.label == label
                &&& file.file_size_bytes == bytes@.len()
                &&& scores_in(file.liquidities) == entries
            },
            Err(cause) => {
                &&& r matches Err(failure)
                &&& failure.is(Content::ChannelLiquidities, path@, cause)
            },
        },
{
    match read_scores(bytes) {
        Ok(liquidities) => Ok(
            LoadedScores { label, file_size_bytes: bytes.len() as u64, liquidities },
        ),
        Err(cause) => Err(
            DecodeFailure {
                content: Content::ChannelLiquidities,
                path: String::from_str(path),
                cause,
            },
        ),
    }
}

/// Writes scores as the bytes of a scorer file. Such a file reads back with the same entries.
pub fn encode_scores(scores: &ChannelLiquidities) -> (r: Vec<u8>)
    ensures
        decode_to(r@, scores_in(*scores)),
{
    write_scores(scores)
}

} // verus!
