//! Files that are no encoding of what they should hold.
use crate::text;
use lightning::ln::msgs::DecodeError;
use vstd::prelude::*;
use vstd::string::StringExecFns;

verus! {

/// Why bytes do not decode.
#[verifier::external_type_specification]
#[verifier::external_body]
pub struct ExDecodeError(DecodeError);

/// A reason against an encoding in the words of `lightning`.
pub uninterp spec fn decode_error_words(e: DecodeError) -> Seq<char>;

/// Calls the `Debug` of `lightning::ln::msgs::DecodeError`. The text depends on the error alone,
/// and is what `decode_error_words` names.
#[verifier::external_body]
fn decode_error_text(e: &DecodeError) -> (r: String)
    ensures
        r@ == decode_error_words(*e),
{
    format!("{:?}", e)
}

/// What a file should hold.
#[derive(Clone, Copy, Debug, PartialEq, Eq, Structural)]
pub enum Content {
    NetworkGraph,
    ChannelLiquidities,
}

impl Content {
    /// The name of the content.
    pub open spec fn name(self) -> Seq<char> {
        match self {
            Content::NetworkGraph => "NetworkGraph"@,
            Content::ChannelLiquidities => "ChannelLiquidities"@,
        }
    }

    /// Names the content.
    pub fn as_str(self) -> (r: &'static str)
        ensures
            r@ == self.name(),
    {
        match self {
            Content::NetworkGraph => "NetworkGraph",
            Content::ChannelLiquidities => "ChannelLiquidities",
        }
    }
}

/// A file that does not hold what it should.
#[derive(Debug)]
pub struct DecodeFailure {
    pub content: Content,
    pub path: String,
    pub cause: DecodeError,
}

impl DecodeFailure {
    /// The message: what should be where, and the cause in its own words.
    pub open spec fn message(self) -> Seq<char> {
        "decode "@ + self.content.name() + " from "@ + self.path@ + ": "@ + decode_error_words(
            self.cause,
        )
    }

    /// Writes the message.
    pub fn to_string(&self) -> (r: String)
        ensures
            r@ == self.message(),
    {
        let mut out = String::from_str("decode ");
        out.append(self.content.as_str());
        out.append(" from ");
        out.append(self.path.as_str());
        out.append(": ");
        let cause = decode_error_text(&self.cause);
        out.append(cause.as_str());
        out
    }

    /// Whether the failure is this one.
    pub open spec fn is(self, content: Content, path: Seq<char>, cause: DecodeError) -> bool {
        self.content == content && self.path@ == path && self.cause == cause
    }
}

/// The message on a file says what it should hold, which one it is, and why it does not.
pub proof fn messages_name_content_file_and_cause(failure: DecodeFailure)
    ensures
        failure.message().take("decode "@.len() as int) == "decode "@,
        failure.message().skip(failure.message().len() - decode_error_words(failure.cause).len()) == decode_error_words(failure.cause),
        text::holds(failure.message(), "decode "@ + failure.content.name() + " from "@),
        text::holds(failure.message(), " from "@ + failure.path@ + ": "@),
{
    let pieces = seq!["decode "@, failure.content.name(), " from "@, failure.path@, ": "@, decode_error_words(failure.cause)];
    assert(failure.message() =~= text::joined(pieces)) by {
        reveal_with_fuel(text::joined, 7);
    }
    assert(failure.message().take("decode "@.len() as int) =~= "decode "@);
    assert(failure.message().skip(failure.message().len() - decode_error_words(failure.cause).len()) =~= decode_error_words(failure.cause));
    text::lemma_joined_holds(pieces, 0);
    text::lemma_joined_holds(pieces, 2);
}

/// A failure carries what the file should hold, its path and the cause.
pub proof fn failures_tell_of_their_file(
    failure: DecodeFailure,
    content: Content,
    path: Seq<char>,
    cause: DecodeError,
)
    requires
        failure.is(content, path, cause),
    ensures
        failure.content == content,
        failure.path@ == path,
        failure.cause == cause,
        content == Content::NetworkGraph ==> failure.content.name() == "NetworkGraph"@,
        content == Content::ChannelLiquidities ==> failure.content.name() == "ChannelLiquidities"@,
{
}

} // verus!
