//! What a scorer file is called in reports.
use vstd::prelude::*;
use vstd::string::StringExecFns;

verus! {

/// The label of a file that was given none: the last part of its path, where the path has one
/// that is text.
pub open spec fn fallback_label(file_name: Option<&str>) -> Seq<char> {
    match file_name {
        Some(name) => name@,
        None => "scorer.bin"@,
    }
}

/// The label of a file: the one that it was given, else its fallback.
pub open spec fn file_label(file_name: Option<&str>, label: Option<String>) -> Seq<char> {
    match label {
        Some(given) => given@,
        None => fallback_label(file_name),
    }
}

/// The label of a file that was given none.
pub fn default_label(file_name: Option<&str>) -> (r: String)
    ensures
        r@ == fallback_label(file_name),
{
    match file_name {
        Some(name) => String::from_str(name),
        None => String::from_str("scorer.bin"),
    }
}

/// The label of a file.
pub fn label_for(file_name: Option<&str>, label: Option<String>) -> (r: String)
    ensures
        r@ == file_label(file_name, label),
{
    match label {
        Some(given) => given,
        None => default_label(file_name),
    }
}

/// A given label counts before the name of the file, and that before the fallback.
pub proof fn labels_come_before_names(file_name: Option<&str>, label: Option<String>)
    ensures
        label matches Some(given) ==> file_label(file_name, label) == given@,
        label is None ==> file_label(file_name, label) == fallback_label(file_name),
        file_name matches Some(name) ==> fallback_label(file_name) == name@,
        file_name is None ==> fallback_label(file_name) == "scorer.bin"@,
{
}

} // verus!
