//! Bolt11 invoices.
use crate::node;
use crate::text;
use lightning_invoice::{Bolt11Invoice, ParseOrSemanticError};
use vstd::prelude::*;
use vstd::string::{StrSliceExecFns, StringExecFns};

verus! {

/// An invoice that was read.
#[verifier::external_type_specification]
#[verifier::external_body]
pub struct ExBolt11Invoice(Bolt11Invoice);

/// Why a text is no invoice.
#[verifier::external_type_specification]
#[verifier::external_body]
pub struct ExParseOrSemanticError(ParseOrSemanticError);

/// What `lightning_invoice` makes of a text.
pub uninterp spec fn parsed_invoice(s: Seq<char>) -> Result<Bolt11Invoice, ParseOrSemanticError>;

/// The public key of the payee of an invoice in hexadecimal digits.
pub uninterp spec fn invoice_payee(invoice: Bolt11Invoice) -> Seq<char>;

/// A reason against an invoice in the words of `lightning_invoice`.
pub uninterp spec fn invoice_error_words(e: ParseOrSemanticError) -> Seq<char>;

/// Calls `FromStr::from_str` of `lightning_invoice::Bolt11Invoice`. What comes back depends on
/// the text alone, and is what `parsed_invoice` names.
#[verifier::external_body]
fn invoice_from_str(s: &str) -> (r: Result<Bolt11Invoice, ParseOrSemanticError>)
    ensures
        r == parsed_invoice(s@),
{
    <Bolt11Invoice as std::str::FromStr>::from_str(s)
}

/// Calls `lightning_invoice::Bolt11Invoice::recover_payee_pub_key` and writes the key by its
/// `Display`. The key depends on the invoice alone; `invoice_payee` names it. It is written as
/// two hexadecimal digits for each of its 33 bytes.
#[verifier::external_body]
pub(crate) fn payee_text(invoice: &Bolt11Invoice) -> (r: String)
    ensures
        r@ == invoice_payee(*invoice),
        node::is_node_text(r@),
{
    invoice.recover_payee_pub_key().to_string()
}

/// Calls the `Debug` of `lightning_invoice::ParseOrSemanticError`. The text depends on the error
/// alone, and is what `invoice_error_words` names.
#[verifier::external_body]
fn invoice_error_text(e: &ParseOrSemanticError) -> (r: String)
    ensures
        r@ == invoice_error_words(*e),
{
    format!("{:?}", e)
}

/// A text that is no invoice.
#[derive(Debug)]
pub struct InvoiceError {
    pub cause: ParseOrSemanticError,
}

impl InvoiceError {
    /// The message: the cause in its own words.
    pub open spec fn message(self) -> Seq<char> {
        "parse bolt11 invoice: "@ + invoice_error_words(self.cause)
    }

    /// Writes the message.
    pub fn to_string(&self) -> (r: String)
        ensures
            r@ == self.message(),
    {
        let mut out = String::from_str("parse bolt11 invoice: ");
        let cause = invoice_error_text(&self.cause);
        out.append(cause.as_str());
        out
    }
}

/// Whether a text starts with another one.
pub open spec fn starts_with(s: Seq<char>, prefix: Seq<char>) -> bool {
    prefix.len() <= s.len() && s.take(prefix.len() as int) == prefix
}

/// The invoice in a text: without white space at either end, and without the scheme of a URI in
/// front, in lower case or in upper case.
pub open spec fn bare_invoice(s: Seq<char>) -> Seq<char> {
    let t = text::trimmed(s);
    if starts_with(t, "lightning:"@) || starts_with(t, "LIGHTNING:"@) {
        t.skip(10)
    } else {
        t
    }
}

fn begins_with(chars: &Vec<char>, from: usize, to: usize, prefix: &str) -> (r: bool)
    requires
        from <= to <= chars@.len(),
    ensures
        r == starts_with(chars@.subrange(from as int, to as int), prefix@),
{
    let ghost s = chars@.subrange(from as int, to as int);
    let wanted = text::chars_of(prefix);
    if wanted.len() > to - from {
        return false;
    }
    let mut i: usize = 0;
    while i < wanted.len()
        invariant
            from <= to <= chars@.len(),
            s == chars@.subrange(from as int, to as int),
            wanted@ == prefix@,
            i <= wanted@.len() <= s.len(),
            s.take(i as int) == prefix@.take(i as int),
        decreases wanted@.len() - i,
    {
        if chars[from + i] != wanted[i] {
            assert(s.take(wanted@.len() as int)[i as int] != prefix@[i as int]);
            return false;
        }
        assert(s.take(i + 1) =~= s.take(i as int).push(s[i as int]));
        assert(prefix@.take(i + 1) =~= prefix@.take(i as int).push(prefix@[i as int]));
        i = i + 1;
    }
    assert(prefix@.take(prefix@.len() as int) =~= prefix@);
    true
}

/// Takes the invoice out of a text.
pub fn bare_invoice_text(s: &str) -> (r: String)
    ensures
        r@ == bare_invoice(s@),
{
    let chars = text::chars_of(s);
    let (lo, hi) = text::trimmed_range(&chars, 0, chars.len());
    proof {
        assert(chars@.subrange(0, chars@.len() as int) =~= s@);
        reveal_strlit("lightning:");
        reveal_strlit("LIGHTNING:");
    }
    let ghost t = text::trimmed(s@);
    if begins_with(&chars, lo, hi, "lightning:") || begins_with(&chars, lo, hi, "LIGHTNING:") {
        assert(t.skip(10) =~= s@.subrange(lo + 10, hi as int));
        String::from_str(s.substring_char(lo + 10, hi))
    } else {
        String::from_str(s.substring_char(lo, hi))
    }
}

/// Reads a Bolt11 invoice, with or without the scheme of a URI in front.
pub fn parse_bolt11(s: &str) -> (r: Result<Bolt11Invoice, InvoiceError>)
    ensures
        match parsed_invoice(bare_invoice(s@)) {
            Ok(invoice) => r == Ok::<Bolt11Invoice, InvoiceError>(invoice),
            Err(cause) => r == Err::<Bolt11Invoice, InvoiceError>(InvoiceError { cause }),
        },
{
    let bare = bare_invoice_text(s);
    match invoice_from_str(bare.as_str()) {
        Ok(invoice) => Ok(invoice),
        Err(cause) => Err(InvoiceError { cause }),
    }
}

/// The scheme of a URI and white space around it make no difference to an invoice that starts
/// with neither.
pub proof fn the_uri_scheme_makes_no_difference(s: Seq<char>, before: Seq<char>, after: Seq<char>)
    requires
        text::trimmed(s) == s,
        !starts_with(s, "lightning:"@),
        !starts_with(s, "LIGHTNING:"@),
        forall|i: int| 0 <= i < before.len() ==> text::is_white_space(#[trigger] before[i]),
        forall|i: int| 0 <= i < after.len() ==> text::is_white_space(#[trigger] after[i]),
    ensures
        bare_invoice(before + s + after) == s,
        bare_invoice(before + ("lightning:"@ + s) + after) == s,
        bare_invoice(before + ("LIGHTNING:"@ + s) + after) == s,
{
    reveal_strlit("lightning:");
    reveal_strlit("LIGHTNING:");
    if s.len() == 0 {
        text::lemma_trimmed_blank(before + s + after);
        assert(s =~= seq![]);
    } else {
        text::lemma_trimmed_ends(s);
        text::lemma_trimmed_around(before, s, after);
    }
    let lower = "lightning:"@ + s;
    let upper = "LIGHTNING:"@ + s;
    assert(lower.last() == if s.len() == 0 {
        ':'
    } else {
        s.last()
    });
    assert(upper.last() == lower.last());
    text::lemma_trimmed_around(before, lower, after);
    text::lemma_trimmed_around(before, upper, after);
    assert(lower.take(10) =~= "lightning:"@);
    assert(upper.take(10) =~= "LIGHTNING:"@);
    assert(lower.skip(10) =~= s);
    assert(upper.skip(10) =~= s);
}

/// What is taken off a text is white space at the ends, and then one scheme, in lower case or in
/// upper case, where the text has one in front.
pub proof fn only_space_and_one_scheme_are_taken_off(s: Seq<char>)
    ensures
        starts_with(text::trimmed(s), "lightning:"@) ==> "lightning:"@ + bare_invoice(s)
            == text::trimmed(s),
        starts_with(text::trimmed(s), "LIGHTNING:"@) ==> "LIGHTNING:"@ + bare_invoice(s)
            == text::trimmed(s),
        !starts_with(text::trimmed(s), "lightning:"@) && !starts_with(
            text::trimmed(s),
            "LIGHTNING:"@,
        ) ==> bare_invoice(s) == text::trimmed(s),
{
    reveal_strlit("lightning:");
    reveal_strlit("LIGHTNING:");
    let t = text::trimmed(s);
    if starts_with(t, "lightning:"@) {
        assert("lightning:"@ + t.skip(10) =~= t);
    }
    if starts_with(t, "LIGHTNING:"@) {
        assert("LIGHTNING:"@ + t.skip(10) =~= t);
    }
}

/// A text starts with another one if and only if something makes that one longer to it.
pub proof fn starting_with_is_being_continued(s: Seq<char>, prefix: Seq<char>, rest: Seq<char>)
    ensures
        starts_with(prefix + rest, prefix),
        starts_with(s, prefix) ==> s == prefix + s.skip(prefix.len() as int),
{
    assert((prefix + rest).take(prefix.len() as int) =~= prefix);
    if starts_with(s, prefix) {
        assert(s =~= s.take(prefix.len() as int) + s.skip(prefix.len() as int));
    }
}

/// The message on an invoice gives the cause in its own words.
pub proof fn messages_give_the_cause(e: InvoiceError)
    ensures
        e.message() == text::joined(
            seq!["parse bolt11 invoice: "@, invoice_error_words(e.cause)],
        ),
{
    reveal_with_fuel(text::joined, 3);
    assert(e.message() =~= text::joined(
        seq!["parse bolt11 invoice: "@, invoice_error_words(e.cause)],
    ));
}

} // verus!
