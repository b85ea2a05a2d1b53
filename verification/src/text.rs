//! Characters and strings: decimal numbers, columns, white space.
use vstd::prelude::*;
use vstd::string::{StrSliceExecFns, StringExecFns};

verus! {

/// The character of a decimal digit.
pub open spec fn digit_char(d: nat) -> char {
    ('0' as nat + d) as char
}

/// A number in decimal, without leading zeros.
pub open spec fn decimal(n: nat) -> Seq<char>
    decreases n,
{
    if n < 10 {
        seq![digit_char(n)]
    } else {
        decimal(n / 10).push(digit_char(n % 10))
    }
}

/// A text moved to the right edge of a column of `width` characters. A longer text keeps its
/// length.
pub open spec fn right_aligned(s: Seq<char>, width: nat) -> Seq<char> {
    if s.len() < width {
        Seq::new((width - s.len()) as nat, |i: int| ' ') + s
    } else {
        s
    }
}

/// The characters with the Unicode property White_Space.
pub open spec fn is_white_space(c: char) -> bool {
    ||| '\u{9}' <= c <= '\u{d}'
    ||| c == '\u{20}'
    ||| c == '\u{85}'
    ||| c == '\u{a0}'
    ||| c == '\u{1680}'
    ||| '\u{2000}' <= c <= '\u{200a}'
    ||| c == '\u{2028}'
    ||| c == '\u{2029}'
    ||| c == '\u{202f}'
    ||| c == '\u{205f}'
    ||| c == '\u{3000}'
}

/// A text without the white space at its end.
pub open spec fn trimmed_end(s: Seq<char>) -> Seq<char>
    decreases s.len(),
{
    if s.len() > 0 && is_white_space(s.last()) {
        trimmed_end(s.drop_last())
    } else {
        s
    }
}

/// A text without the white space at either end.
pub open spec fn trimmed(s: Seq<char>) -> Seq<char>
    decreases s.len(),
{
    if s.len() > 0 && is_white_space(s.first()) {
        trimmed(s.drop_first())
    } else {
        trimmed_end(s)
    }
}

/// A text that trimming leaves alone has no white space at its ends.
pub proof fn lemma_trimmed_ends(s: Seq<char>)
    requires
        s.len() > 0,
        trimmed(s) == s,
    ensures
        !is_white_space(s.first()),
        !is_white_space(s.last()),
{
    lemma_trimming_shortens(s);
    lemma_trimming_shortens(s.drop_first());
    lemma_trimming_shortens(s.drop_last());
}

proof fn lemma_trimming_shortens(s: Seq<char>)
    ensures
        trimmed_end(s).len() <= s.len(),
        trimmed(s).len() <= s.len(),
    decreases s.len(),
{
    if s.len() > 0 {
        lemma_trimming_shortens(s.drop_last());
        lemma_trimming_shortens(s.drop_first());
    }
}

proof fn lemma_trimmed_end_around(s: Seq<char>, after: Seq<char>)
    requires
        s.len() > 0,
        !is_white_space(s.last()),
        forall|i: int| 0 <= i < after.len() ==> is_white_space(#[trigger] after[i]),
    ensures
        trimmed_end(s + after) == s,
    decreases after.len(),
{
    if after.len() > 0 {
        assert(is_white_space(after[after.len() - 1]));
        assert((s + after).drop_last() =~= s + after.drop_last());
        lemma_trimmed_end_around(s, after.drop_last());
    } else {
        assert(s + after =~= s);
    }
}

/// Trimming leaves nothing of white space.
pub proof fn lemma_trimmed_blank(s: Seq<char>)
    requires
        forall|i: int| 0 <= i < s.len() ==> is_white_space(#[trigger] s[i]),
    ensures
        trimmed(s) == Seq::<char>::empty(),
    decreases s.len(),
{
    if s.len() > 0 {
        assert(is_white_space(s[0]));
        lemma_trimmed_blank(s.drop_first());
    } else {
        assert(s =~= Seq::<char>::empty());
    }
}

/// Trimming takes away white space around a text that has none at its ends.
pub proof fn lemma_trimmed_around(before: Seq<char>, s: Seq<char>, after: Seq<char>)
    requires
        s.len() > 0,
        !is_white_space(s.first()),
        !is_white_space(s.last()),
        forall|i: int| 0 <= i < before.len() ==> is_white_space(#[trigger] before[i]),
        forall|i: int| 0 <= i < after.len() ==> is_white_space(#[trigger] after[i]),
    ensures
        trimmed(before + s + after) == s,
    decreases before.len(),
{
    let whole = before + s + after;
    if before.len() > 0 {
        assert(is_white_space(before[0]));
        assert(whole.drop_first() =~= before.drop_first() + s + after);
        lemma_trimmed_around(before.drop_first(), s, after);
    } else {
        assert(whole =~= s + after);
        lemma_trimmed_end_around(s, after);
    }
}

/// The characters of a string.
pub(crate) fn chars_of(s: &str) -> (r: Vec<char>)
    ensures
        r@ == s@,
{
    let mut out: Vec<char> = Vec::new();
    for c in it: s.chars()
        invariant
            out@ == it.seq().take(it.index() as int),
            it.seq() == s@,
    {
        out.push(c);
    }
    out
}

fn digit_text(d: u64) -> (r: &'static str)
    requires
        d < 10,
    ensures
        r@ == seq![digit_char(d as nat)],
{
    proof {
        reveal_strlit("0");
        reveal_strlit("1");
        reveal_strlit("2");
        reveal_strlit("3");
        reveal_strlit("4");
        reveal_strlit("5");
        reveal_strlit("6");
        reveal_strlit("7");
        reveal_strlit("8");
        reveal_strlit("9");
    }
    match d {
        0 => "0",
        1 => "1",
        2 => "2",
        3 => "3",
        4 => "4",
        5 => "5",
        6 => "6",
        7 => "7",
        8 => "8",
        _ => "9",
    }
}

/// Appends a number in decimal.
pub(crate) fn push_decimal(out: &mut String, n: u64)
    ensures
        final(out)@ == old(out)@ + decimal(n as nat),
    decreases n,
{
    let ghost before = out@;
    if n >= 10 {
        push_decimal(out, n / 10);
    }
    out.append(digit_text(n % 10));
    assert(out@ =~= before + decimal(n as nat));
}

/// A number in decimal.
pub fn decimal_text(n: u64) -> (r: String)
    ensures
        r@ == decimal(n as nat),
{
    let mut out = String::new();
    push_decimal(&mut out, n);
    assert(out@ =~= decimal(n as nat));
    out
}

/// Appends a text at the right edge of a column.
pub(crate) fn push_right_aligned(out: &mut String, text: &str, width: usize)
    ensures
        final(out)@ == old(out)@ + right_aligned(text@, width as nat),
{
    let ghost before = out@;
    let len: usize = text.unicode_len();
    let mut i: usize = len;
    while i < width
        invariant
            len == text@.len(),
            len <= i,
            i <= width || i == len,
            out@ == before + Seq::new((i - len) as nat, |k: int| ' '),
        decreases width - i,
    {
        out.append(" ");
        i = i + 1;
        proof {
            reveal_strlit(" ");
            assert(out@ =~= before + Seq::new((i - len) as nat, |k: int| ' '));
        }
    }
    out.append(text);
    assert(out@ =~= before + right_aligned(text@, width as nat));
}

/// Appends a number in decimal at the right edge of a column.
pub(crate) fn push_aligned_decimal(out: &mut String, n: u64, width: usize)
    ensures
        final(out)@ == old(out)@ + right_aligned(decimal(n as nat), width as nat),
{
    let text = decimal_text(n);
    push_right_aligned(out, text.as_str(), width);
}

/// Whether a character is white space.
pub fn white_space(c: char) -> (r: bool)
    ensures
        r == is_white_space(c),
{
    ('\u{9}' <= c && c <= '\u{d}') || c == '\u{20}' || c == '\u{85}' || c == '\u{a0}' || c
        == '\u{1680}' || ('\u{2000}' <= c && c <= '\u{200a}') || c == '\u{2028}' || c == '\u{2029}'
        || c == '\u{202f}' || c == '\u{205f}' || c == '\u{3000}'
}

/// Where the text between two positions starts and ends once it is trimmed.
pub(crate) fn trimmed_range(chars: &Vec<char>, start: usize, end: usize) -> (r: (usize, usize))
    requires
        start <= end <= chars@.len(),
    ensures
        start <= r.0 <= r.1 <= end,
        chars@.subrange(r.0 as int, r.1 as int) == trimmed(chars@.subrange(start as int, end as int)),
{
    let ghost whole = trimmed(chars@.subrange(start as int, end as int));
    let mut lo: usize = start;
    while lo < end && white_space(chars[lo])
        invariant
            start <= lo <= end <= chars@.len(),
            trimmed(chars@.subrange(lo as int, end as int)) == whole,
        decreases end - lo,
    {
        assert(chars@.subrange(lo as int, end as int).drop_first() =~= chars@.subrange(
            lo + 1,
            end as int,
        ));
        lo = lo + 1;
    }
    let mut hi: usize = end;
    assert(trimmed_end(chars@.subrange(lo as int, hi as int)) == whole);
    while hi > lo && white_space(chars[hi - 1])
        invariant
            lo <= hi <= end <= chars@.len(),
            trimmed_end(chars@.subrange(lo as int, hi as int)) == whole,
        decreases hi - lo,
    {
        assert(chars@.subrange(lo as int, hi as int).drop_last() =~= chars@.subrange(
            lo as int,
            hi - 1,
        ));
        hi = hi - 1;
    }
    (lo, hi)
}

/// Texts one behind the other.
pub open spec fn joined(pieces: Seq<Seq<char>>) -> Seq<char>
    decreases pieces.len(),
{
    if pieces.len() == 0 {
        seq![]
    } else {
        joined(pieces.drop_last()) + pieces.last()
    }
}

/// Whether a text stands at a position of another one.
pub open spec fn stands_at(s: Seq<char>, part: Seq<char>, i: int) -> bool {
    0 <= i && i + part.len() <= s.len() && s.subrange(i, i + part.len()) == part
}

/// Whether a text stands somewhere in another one.
pub open spec fn holds(s: Seq<char>, part: Seq<char>) -> bool {
    exists|i: int| #[trigger] stands_at(s, part, i)
}

/// What a text holds, a longer one that starts or ends with it holds too.
pub proof fn lemma_holds_longer(before: Seq<char>, s: Seq<char>, after: Seq<char>, part: Seq<char>)
    requires
        holds(s, part),
    ensures
        holds(before + s + after, part),
{
    let i = choose|i: int| #[trigger] stands_at(s, part, i);
    let whole = before + s + after;
    let at = before.len() + i;
    assert(whole.subrange(at, at + part.len()) =~= s.subrange(i, i + part.len()));
    assert(stands_at(whole, part, at));
}

/// One more text goes behind those that are joined.
pub proof fn lemma_joined_next(pieces: Seq<Seq<char>>, k: int)
    requires
        0 <= k < pieces.len(),
    ensures
        joined(pieces.take(k + 1)) == joined(pieces.take(k)) + pieces[k],
{
    assert(pieces.take(k + 1).drop_last() =~= pieces.take(k));
}

/// Joined texts hold any three neighbours.
pub proof fn lemma_joined_holds(pieces: Seq<Seq<char>>, k: int)
    requires
        0 <= k,
        k + 2 < pieces.len(),
    ensures
        holds(joined(pieces), pieces[k] + pieces[k + 1] + pieces[k + 2]),
    decreases pieces.len(),
{
    let part = pieces[k] + pieces[k + 1] + pieces[k + 2];
    let init = pieces.drop_last();
    if k + 3 < pieces.len() {
        lemma_joined_holds(init, k);
        lemma_holds_longer(seq![], joined(init), pieces.last(), part);
        assert(seq![] + joined(init) + pieces.last() =~= joined(pieces));
    } else {
        let two = init.drop_last();
        let one = two.drop_last();
        assert(joined(two) == joined(one) + pieces[k]);
        assert(joined(init) == joined(two) + pieces[k + 1]);
        assert(joined(pieces) == joined(init) + pieces[k + 2]);
        assert(joined(pieces) =~= joined(one) + part);
        let at = joined(one).len() as int;
        assert(joined(pieces).subrange(at, at + part.len()) =~= part);
        assert(stands_at(joined(pieces), part, at));
    }
}

/// A text at the right edge of a column fills the column, or more if it is longer. The text ends
/// it, and nothing but spaces stands before.
pub proof fn columns_are_filled_from_the_right(s: Seq<char>, width: nat)
    ensures
        right_aligned(s, width).len() == if s.len() < width {
            width
        } else {
            s.len()
        },
        right_aligned(s, width).skip(right_aligned(s, width).len() - s.len()) == s,
        forall|i: int|
            0 <= i < right_aligned(s, width).len() - s.len() ==> #[trigger] right_aligned(
                s,
                width,
            )[i] == ' ',
{
    let r = right_aligned(s, width);
    assert(r.skip(r.len() - s.len()) =~= s);
}

proof fn lemma_trimmed_end_parts(s: Seq<char>)
    ensures
        trimmed_end(s).len() <= s.len(),
        s.take(trimmed_end(s).len() as int) == trimmed_end(s),
        forall|i: int|
            trimmed_end(s).len() <= i < s.len() ==> is_white_space(#[trigger] s[i]),
        trimmed_end(s).len() > 0 ==> !is_white_space(trimmed_end(s).last()),
    decreases s.len(),
{
    if s.len() > 0 && is_white_space(s.last()) {
        lemma_trimmed_end_parts(s.drop_last());
        let t = trimmed_end(s);
        assert(s.take(t.len() as int) =~= s.drop_last().take(t.len() as int));
        assert forall|i: int| t.len() <= i < s.len() implies is_white_space(#[trigger] s[i]) by {
            if i < s.len() - 1 {
                assert(is_white_space(s.drop_last()[i]));
            }
        }
    } else {
        assert(s.take(s.len() as int) =~= s);
    }
}

/// Trimming takes away the white space at both ends and nothing else.
pub proof fn trimming_takes_only_white_space(s: Seq<char>)
    ensures
        exists|lo: int, hi: int|
            {
                &&& 0 <= lo <= hi <= s.len()
                &&& trimmed(s) == #[trigger] s.subrange(lo, hi)
                &&& forall|i: int| 0 <= i < lo ==> is_white_space(#[trigger] s[i])
                &&& forall|i: int| hi <= i < s.len() ==> is_white_space(#[trigger] s[i])
            },
        trimmed(s).len() > 0 ==> !is_white_space(trimmed(s).first()) && !is_white_space(
            trimmed(s).last(),
        ),
    decreases s.len(),
{
    if s.len() > 0 && is_white_space(s.first()) {
        let rest = s.drop_first();
        trimming_takes_only_white_space(rest);
        let (lo, hi) = choose|lo: int, hi: int|
            {
                &&& 0 <= lo <= hi <= rest.len()
                &&& trimmed(rest) == #[trigger] rest.subrange(lo, hi)
                &&& forall|i: int| 0 <= i < lo ==> is_white_space(#[trigger] rest[i])
                &&& forall|i: int| hi <= i < rest.len() ==> is_white_space(#[trigger] rest[i])
            };
        assert(rest.subrange(lo, hi) =~= s.subrange(lo + 1, hi + 1));
        assert forall|i: int| 0 <= i < lo + 1 implies is_white_space(#[trigger] s[i]) by {
            if i > 0 {
                assert(is_white_space(rest[i - 1]));
            }
        }
        assert forall|i: int| hi + 1 <= i < s.len() implies is_white_space(#[trigger] s[i]) by {
            assert(is_white_space(rest[i - 1]));
        }
    } else {
        lemma_trimmed_end_parts(s);
        let t = trimmed_end(s);
        assert(t =~= s.subrange(0, t.len() as int));
        if t.len() > 0 {
            assert(t.first() == s.first());
        }
    }
}

/// Joined texts hold any stretch of them.
pub proof fn lemma_joined_holds_stretch(pieces: Seq<Seq<char>>, from: int, to: int)
    requires
        0 <= from <= to <= pieces.len(),
    ensures
        holds(joined(pieces), joined(pieces.subrange(from, to))),
    decreases pieces.len(),
{
    let part = joined(pieces.subrange(from, to));
    if to < pieces.len() {
        let init = pieces.drop_last();
        lemma_joined_holds_stretch(init, from, to);
        assert(init.subrange(from, to) =~= pieces.subrange(from, to));
        lemma_holds_longer(seq![], joined(init), pieces.last(), part);
        assert(seq![] + joined(init) + pieces.last() =~= joined(pieces));
    } else {
        lemma_joined_split(pieces, from);
        assert(pieces.subrange(from, to) =~= pieces.skip(from));
        let at = joined(pieces.take(from)).len() as int;
        assert(joined(pieces).subrange(at, at + part.len()) =~= part);
        assert(stands_at(joined(pieces), part, at));
    }
}

proof fn lemma_joined_split(pieces: Seq<Seq<char>>, k: int)
    requires
        0 <= k <= pieces.len(),
    ensures
        joined(pieces) == joined(pieces.take(k)) + joined(pieces.skip(k)),
    decreases pieces.len(),
{
    if k == pieces.len() {
        assert(pieces.take(k) =~= pieces);
        assert(pieces.skip(k) =~= seq![]);
        assert(joined(pieces.skip(k)) =~= seq![]);
        assert(joined(pieces) =~= joined(pieces.take(k)) + joined(pieces.skip(k)));
    } else {
        let init = pieces.drop_last();
        lemma_joined_split(init, k);
        assert(init.take(k) =~= pieces.take(k));
        assert(pieces.skip(k).drop_last() =~= init.skip(k));
        assert(pieces.skip(k).last() == pieces.last());
        assert(joined(pieces) =~= joined(pieces.take(k)) + joined(pieces.skip(k)));
    }
}

/// Joined texts hold any five neighbours.
pub proof fn lemma_joined_holds_five(pieces: Seq<Seq<char>>, k: int)
    requires
        0 <= k,
        k + 4 < pieces.len(),
    ensures
        holds(
            joined(pieces),
            pieces[k] + pieces[k + 1] + pieces[k + 2] + pieces[k + 3] + pieces[k + 4],
        ),
{
    lemma_joined_holds_stretch(pieces, k, k + 5);
    let few = seq![pieces[k], pieces[k + 1], pieces[k + 2], pieces[k + 3], pieces[k + 4]];
    assert(pieces.subrange(k, k + 5) =~= few);
    assert(joined(few) =~= pieces[k] + pieces[k + 1] + pieces[k + 2] + pieces[k + 3] + pieces[k + 4]) by {
        reveal_with_fuel(joined, 6);
    }
}

/// Joined texts hold any seven neighbours.
pub proof fn lemma_joined_holds_seven(pieces: Seq<Seq<char>>, k: int)
    requires
        0 <= k,
        k + 6 < pieces.len(),
    ensures
        holds(
            joined(pieces),
            pieces[k] + pieces[k + 1] + pieces[k + 2] + pieces[k + 3] + pieces[k + 4] + pieces[k + 5] + pieces[k + 6],
        ),
{
    lemma_joined_holds_stretch(pieces, k, k + 7);
    let few = seq![pieces[k], pieces[k + 1], pieces[k + 2], pieces[k + 3], pieces[k + 4], pieces[k + 5], pieces[k + 6]];
    assert(pieces.subrange(k, k + 7) =~= few);
    assert(joined(few) =~= pieces[k] + pieces[k + 1] + pieces[k + 2] + pieces[k + 3] + pieces[k + 4] + pieces[k + 5] + pieces[k + 6]) by {
        reveal_with_fuel(joined, 8);
    }
}

} // verus!
