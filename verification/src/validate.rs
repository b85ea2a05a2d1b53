//! Saying that scorer files are in order.
use crate::score_file::ScoreFile;
use crate::size;
use crate::text;
use vstd::prelude::*;
use vstd::string::StringExecFns;

verus! {

/// There is no file to validate.
#[derive(Clone, Copy, Debug)]
pub struct NothingToValidate;

impl NothingToValidate {
    /// Writes the message.
    pub fn to_string(&self) -> (r: String)
        ensures
            r@ == "validate requires at least one file"@,
    {
        String::from_str("validate requires at least one file")
    }
}

/// Refuses to validate no file at all.
pub fn check_validate_request(file_count: usize) -> (r: Result<(), NothingToValidate>)
    ensures
        r is Err <==> file_count == 0,
{
    if file_count == 0 {
        Err(NothingToValidate)
    } else {
        Ok(())
    }
}

/// The line that says that a file is in order.
pub open spec fn validated_line(path: Seq<char>, file: ScoreFile) -> Seq<char> {
    "ok: "@ + path + " ("@ + text::decimal(file.diagnostics@.len()) + " entries, "@
        + size::human_size(file.file_size_bytes) + ")"@
}

/// Says that a file is in order.
pub fn render_validated_line(path: &str, file: &ScoreFile) -> (r: String)
    ensures
        r@ == validated_line(path@, *file),
{
    let mut out = String::from_str("ok: ");
    out.append(path);
    out.append(" (");
    text::push_decimal(&mut out, file.diagnostics.len() as u64);
    out.append(" entries, ");
    let size = size::format_binary_size(file.file_size_bytes);
    out.append(size.as_str());
    out.append(")");
    out
}

/// The line on a file says which one is in order, how many entries it has, and how large it is.
pub proof fn the_line_tells_of_the_file(path: Seq<char>, file: ScoreFile)
    ensures
        validated_line(path, file).take("ok: "@.len() as int) == "ok: "@,
        validated_line(path, file).skip(validated_line(path, file).len() - ")"@.len()) == ")"@,
        text::holds(validated_line(path, file), "ok: "@ + path + " ("@),
        text::holds(validated_line(path, file), " ("@ + text::decimal(file.diagnostics@.len()) + " entries, "@),
        text::holds(validated_line(path, file), " entries, "@ + size::human_size(file.file_size_bytes) + ")"@),
{
    let pieces = seq!["ok: "@, path, " ("@, text::decimal(file.diagnostics@.len()), " entries, "@, size::human_size(file.file_size_bytes), ")"@];
    assert(validated_line(path, file) =~= text::joined(pieces)) by {
        reveal_with_fuel(text::joined, 8);
    }
    assert(validated_line(path, file).take("ok: "@.len() as int) =~= "ok: "@);
    assert(validated_line(path, file).skip(validated_line(path, file).len() - ")"@.len()) =~= ")"@);
    text::lemma_joined_holds(pieces, 0);
    text::lemma_joined_holds(pieces, 2);
    text::lemma_joined_holds(pieces, 4);
}

} // verus!
