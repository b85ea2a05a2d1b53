//! Lists of short-channel-ids: decimal numbers between commas and white space, with comments.
use crate::text;
use std::collections::BTreeSet;
use vstd::prelude::*;
use vstd::string::{StrSliceExecFns, StringExecFns};

verus! {

/// Why a token is no short-channel-id.
#[derive(Clone, Copy, Debug, PartialEq, Eq, Structural)]
pub enum NumberError {
    /// It holds something else than decimal digits behind an optional plus sign, or no digit.
    InvalidDigit,
    /// It is too large.
    PosOverflow,
}

/// A token of a list that is no short-channel-id.
#[derive(Debug)]
pub struct ScidListError {
    pub token: String,
    pub path: String,
    pub line: usize,
    pub cause: NumberError,
}

impl NumberError {
    /// The cause in words.
    pub open spec fn words(self) -> Seq<char> {
        match self {
            NumberError::InvalidDigit => "invalid digit found in string"@,
            NumberError::PosOverflow => "number too large to fit in target type"@,
        }
    }

    /// Puts the cause into words.
    pub fn as_str(self) -> (r: &'static str)
        ensures
            r@ == self.words(),
    {
        match self {
            NumberError::InvalidDigit => "invalid digit found in string",
            NumberError::PosOverflow => "number too large to fit in target type",
        }
    }
}

impl ScidListError {
    /// The message: the token and where it stands.
    pub open spec fn message(self) -> Seq<char> {
        "parse scid '"@ + self.token@ + "' in "@ + self.path@ + ":"@ + text::decimal(
            self.line as nat,
        )
    }

    /// Writes the message.
    pub fn to_string(&self) -> (r: String)
        ensures
            r@ == self.message(),
    {
        let mut out = String::from_str("parse scid '");
        out.append(self.token.as_str());
        out.append("' in ");
        out.append(self.path.as_str());
        out.append(":");
        text::push_decimal(&mut out, self.line as u64);
        out
    }
}

/// A token of a list, with the number of the line that it stands on. Lines count from 1.
pub struct ListedToken {
    pub text: Seq<char>,
    pub line: nat,
}

/// The characters that end a stretch of text.
#[derive(Clone, Copy, Debug, PartialEq, Eq, Structural)]
pub enum Stop {
    /// The end of a line.
    LineFeed,
    /// The start of a comment.
    Hash,
    /// A comma or ASCII white space.
    Separator,
    /// Anything but a decimal digit.
    NonDigit,
}

impl Stop {
    /// Whether a character ends the stretch.
    pub open spec fn at(self, c: char) -> bool {
        match self {
            Stop::LineFeed => c == '\n',
            Stop::Hash => c == '#',
            Stop::Separator => c == ',' || c == ' ' || c == '\t' || c == '\n' || c == '\u{c}' || c
                == '\r',
            Stop::NonDigit => !('0' <= c <= '9'),
        }
    }

    fn holds(self, c: char) -> (r: bool)
        ensures
            r == self.at(c),
    {
        match self {
            Stop::LineFeed => c == '\n',
            Stop::Hash => c == '#',
            Stop::Separator => c == ',' || c == ' ' || c == '\t' || c == '\n' || c == '\u{c}' || c
                == '\r',
            Stop::NonDigit => c < '0' || '9' < c,
        }
    }
}

/// The length of the stretch that a text starts with.
pub open spec fn stretch(s: Seq<char>, stop: Stop) -> nat
    decreases s.len(),
{
    if s.len() == 0 || stop.at(s[0]) {
        0
    } else {
        1 + stretch(s.drop_first(), stop)
    }
}

/// The value of decimal digits.
pub open spec fn digits_value(digits: Seq<char>) -> nat
    decreases digits.len(),
{
    if digits.len() == 0 {
        0
    } else {
        10 * digits_value(digits.drop_last()) + (digits.last() as nat - '0' as nat) as nat
    }
}

/// A text without a plus sign in front.
pub open spec fn unsigned(s: Seq<char>) -> Seq<char> {
    if s.len() > 0 && s[0] == '+' {
        s.drop_first()
    } else {
        s
    }
}

/// The number that a token stands for: decimal digits behind an optional plus sign.
pub open spec fn number(token: Seq<char>) -> Result<u64, NumberError> {
    let s = unsigned(token);
    let n = stretch(s, Stop::NonDigit);
    if digits_value(s.take(n as int)) > u64::MAX {
        Err(NumberError::PosOverflow)
    } else if s.len() == 0 || n < s.len() {
        Err(NumberError::InvalidDigit)
    } else {
        Ok(digits_value(s) as u64)
    }
}

/// The tokens of a text: what stands between separators.
pub open spec fn tokens(s: Seq<char>) -> Seq<Seq<char>>
    decreases s.len(),
{
    if s.len() == 0 {
        seq![]
    } else {
        let n = stretch(s, Stop::Separator);
        if n == 0 {
            tokens(s.drop_first())
        } else if n <= s.len() {
            seq![s.take(n as int)] + tokens(s.skip(n as int))
        } else {
            seq![]
        }
    }
}

/// The part of a line that counts: what stands before a comment, without the white space at
/// either end. A carriage return before the line feed is such white space.
pub open spec fn content(line: Seq<char>) -> Seq<char> {
    text::trimmed(line.take(stretch(line, Stop::Hash) as int))
}

/// Tokens that all stand on the same line.
pub open spec fn on_line(texts: Seq<Seq<char>>, line_number: nat) -> Seq<ListedToken> {
    texts.map_values(|t: Seq<char>| ListedToken { text: t, line: line_number })
}

/// The tokens of a line.
pub open spec fn line_tokens(line: Seq<char>, line_number: nat) -> Seq<ListedToken> {
    on_line(tokens(content(line)), line_number)
}

/// The tokens of a list whose first line has the given number.
pub open spec fn listed_tokens(s: Seq<char>, line_number: nat) -> Seq<ListedToken>
    decreases s.len(),
{
    if s.len() == 0 {
        seq![]
    } else {
        let n = stretch(s, Stop::LineFeed);
        line_tokens(s.take(n as int), line_number) + if n < s.len() {
            listed_tokens(s.skip(n as int + 1), line_number + 1)
        } else {
            seq![]
        }
    }
}

/// The number of tokens before the first one that is no short-channel-id.
pub open spec fn accepted(tokens: Seq<ListedToken>) -> nat
    decreases tokens.len(),
{
    if tokens.len() == 0 || number(tokens[0].text) is Err {
        0
    } else {
        1 + accepted(tokens.drop_first())
    }
}

/// The short-channel-ids of tokens that are all accepted.
pub open spec fn listed_scids(tokens: Seq<ListedToken>) -> Set<u64> {
    tokens.map_values(|t: ListedToken| number(t.text)->Ok_0).to_set()
}

/// The short-channel-ids that a text lists, up to the first token that is none.
pub open spec fn scids_in(contents: Seq<char>) -> Set<u64> {
    let tokens = listed_tokens(contents, 1);
    listed_scids(tokens.take(accepted(tokens) as int))
}

/// Whether every token of a text is a short-channel-id.
pub open spec fn is_scid_list(contents: Seq<char>) -> bool {
    let tokens = listed_tokens(contents, 1);
    accepted(tokens) == tokens.len()
}

proof fn lemma_stretch(s: Seq<char>, stop: Stop, n: nat)
    requires
        n <= s.len(),
        forall|i: int| 0 <= i < n ==> !stop.at(#[trigger] s[i]),
        n < s.len() ==> stop.at(s[n as int]),
    ensures
        stretch(s, stop) == n,
    decreases s.len(),
{
    if s.len() > 0 && n > 0 {
        assert(!stop.at(s[0]));
        assert forall|i: int| 0 <= i < n - 1 implies !stop.at(#[trigger] s.drop_first()[i]) by {
            assert(!stop.at(s[i + 1]));
        }
        lemma_stretch(s.drop_first(), stop, (n - 1) as nat);
    }
}

/// Finds where the stretch that starts at `from` ends.
fn stretch_end(chars: &Vec<char>, from: usize, to: usize, stop: Stop) -> (r: usize)
    requires
        from <= to <= chars@.len(),
    ensures
        from <= r <= to,
        r == from + stretch(chars@.subrange(from as int, to as int), stop),
        r < to ==> stop.at(chars@[r as int]),
        forall|i: int| from <= i < r ==> !stop.at(#[trigger] chars@[i]),
{
    let mut i: usize = from;
    while i < to && !stop.holds(chars[i])
        invariant
            from <= i <= to <= chars@.len(),
            forall|k: int| from <= k < i ==> !stop.at(#[trigger] chars@[k]),
        decreases to - i,
    {
        i = i + 1;
    }
    proof {
        lemma_stretch(chars@.subrange(from as int, to as int), stop, (i - from) as nat);
    }
    i
}

proof fn lemma_digits_value_grows(digits: Seq<char>, n: nat)
    requires
        n <= digits.len(),
        forall|i: int| 0 <= i < digits.len() ==> '0' <= #[trigger] digits[i] <= '9',
    ensures
        digits_value(digits.take(n as int)) <= digits_value(digits),
    decreases digits.len(),
{
    if n < digits.len() {
        lemma_digits_value_grows(digits.drop_last(), n);
        assert(digits.drop_last().take(n as int) =~= digits.take(n as int));
    } else {
        assert(digits.take(n as int) =~= digits);
    }
}

/// Reads a token as a number.
fn parse_number(chars: &Vec<char>, from: usize, to: usize) -> (r: Result<u64, NumberError>)
    requires
        from <= to <= chars@.len(),
    ensures
        r == number(chars@.subrange(from as int, to as int)),
{
    let ghost token = chars@.subrange(from as int, to as int);
    let start: usize = if from < to && chars[from] == '+' {
        from + 1
    } else {
        from
    };
    let ghost s = unsigned(token);
    assert(s =~= chars@.subrange(start as int, to as int));
    let end: usize = stretch_end(chars, start, to, Stop::NonDigit);
    let ghost digits = s.take(end - start);
    assert forall|i: int| 0 <= i < digits.len() implies '0' <= #[trigger] digits[i] <= '9' by {
        assert(!Stop::NonDigit.at(chars@[start + i]));
    }
    let mut value: u64 = 0;
    let mut i: usize = start;
    while i < end
        invariant
            start <= i <= end <= to <= chars@.len(),
            s == chars@.subrange(start as int, to as int),
            s == unsigned(token),
            token == chars@.subrange(from as int, to as int),
            digits == s.take(end - start),
            end == start + stretch(s, Stop::NonDigit),
            forall|k: int| 0 <= k < digits.len() ==> '0' <= #[trigger] digits[k] <= '9',
            value == digits_value(digits.take(i - start)),
        decreases end - i,
    {
        let ghost next = digits.take(i - start + 1);
        assert(next.drop_last() =~= digits.take(i - start));
        assert(next.last() == chars@[i as int]);
        assert('0' <= digits[i - start] <= '9');
        let digit: u64 = (chars[i] as u32 - '0' as u32) as u64;
        if value > u64::MAX / 10 || value * 10 > u64::MAX - digit {
            proof {
                lemma_digits_value_grows(digits, (i - start + 1) as nat);
            }
            return Err(NumberError::PosOverflow);
        }
        value = value * 10 + digit;
        i = i + 1;
    }
    assert(digits.take(i - start) =~= digits);
    if start == to || end < to {
        return Err(NumberError::InvalidDigit);
    }
    assert(digits =~= s);
    Ok(value)
}

/// Whether every one of these tokens is a short-channel-id.
spec fn all_accepted(tokens: Seq<ListedToken>) -> bool {
    forall|i: int| 0 <= i < tokens.len() ==> number((#[trigger] tokens[i]).text) is Ok
}

proof fn lemma_accepted(tokens: Seq<ListedToken>, n: nat)
    requires
        n <= tokens.len(),
        all_accepted(tokens.take(n as int)),
        n < tokens.len() ==> number(tokens[n as int].text) is Err,
    ensures
        accepted(tokens) == n,
    decreases tokens.len(),
{
    if n > 0 {
        assert(tokens.take(n as int)[0] == tokens[0]);
        let rest = tokens.drop_first();
        assert forall|i: int| 0 <= i < n - 1 implies number(
            (#[trigger] rest.take(n - 1)[i]).text,
        ) is Ok by {
            assert(tokens.take(n as int)[i + 1] == rest.take(n - 1)[i]);
        }
        lemma_accepted(rest, (n - 1) as nat);
    }
}

proof fn lemma_listed_push(tokens: Seq<ListedToken>, t: ListedToken)
    ensures
        listed_scids(tokens.push(t)) == listed_scids(tokens).insert(number(t.text)->Ok_0),
{
    let f = |t: ListedToken| number(t.text)->Ok_0;
    let before = tokens.map_values(f);
    assert(tokens.push(t).map_values(f) =~= before.push(f(t)));
    before.lemma_push_to_set_commute(f(t));
}

/// Adds the short-channel-ids of one line. `done` holds the tokens of the lines before it.
fn parse_line(
    contents: &str,
    chars: &Vec<char>,
    from: usize,
    to: usize,
    path: &str,
    line: usize,
    scids: &mut BTreeSet<u64>,
    Ghost(start): Ghost<Set<u64>>,
    Ghost(done): Ghost<Seq<ListedToken>>,
) -> (r: Result<(), ScidListError>)
    requires
        chars@ == contents@,
        from <= to <= chars@.len(),
        all_accepted(done),
        old(scids)@ == start.union(listed_scids(done)),
    ensures
        ({
            let all = done + on_line(
                tokens(chars@.subrange(from as int, to as int)),
                line as nat,
            );
            let k = accepted(all);
            &&& k <= all.len()
            &&& final(scids)@ == start.union(listed_scids(all.take(k as int)))
            &&& match r {
                Ok(()) => k == all.len() && all_accepted(all),
                Err(e) => {
                    &&& k < all.len()
                    &&& all_accepted(all.take(k as int))
                    &&& e.token@ == all[k as int].text
                    &&& e.line == line
                    &&& e.path@ == path@
                    &&& number(all[k as int].text) == Err::<u64, NumberError>(e.cause)
                },
            }
        }),
{
    let ghost all = done + on_line(tokens(chars@.subrange(from as int, to as int)), line as nat);
    let ghost mut seen = done;
    let mut pos: usize = from;
    while pos < to
        invariant
            chars@ == contents@,
            from <= pos <= to <= chars@.len(),
            all == done + on_line(tokens(chars@.subrange(from as int, to as int)), line as nat),
            all == seen + on_line(tokens(chars@.subrange(pos as int, to as int)), line as nat),
            all_accepted(seen),
            scids@ == start.union(listed_scids(seen)),
        decreases to - pos,
    {
        let ghost rest = chars@.subrange(pos as int, to as int);
        let end: usize = stretch_end(chars, pos, to, Stop::Separator);
        if end == pos {
            assert(rest.drop_first() =~= chars@.subrange(pos + 1, to as int));
            pos = pos + 1;
        } else {
            let ghost word = chars@.subrange(pos as int, end as int);
            let ghost token = ListedToken { text: word, line: line as nat };
            proof {
                let n = (end - pos) as int;
                assert(rest.take(n) =~= word);
                assert(rest.skip(n) =~= chars@.subrange(end as int, to as int));
                let after = tokens(rest.skip(n));
                assert(tokens(rest) == seq![word] + after);
                assert(on_line(seq![word] + after, line as nat) =~= seq![token] + on_line(
                    after,
                    line as nat,
                ));
                assert(all =~= seen.push(token) + on_line(after, line as nat));
                assert(all[seen.len() as int] == token);
                assert(all.take(seen.len() as int) =~= seen);
            }
            match parse_number(chars, pos, end) {
                Ok(scid) => {
                    scids.insert(scid);
                    proof {
                        lemma_listed_push(seen, token);
                        assert(scids@ =~= start.union(listed_scids(seen.push(token))));
                        seen = seen.push(token);
                    }
                },
                Err(cause) => {
                    proof {
                        lemma_accepted(all, seen.len());
                    }
                    return Err(
                        ScidListError {
                            token: String::from_str(contents.substring_char(pos, end)),
                            path: String::from_str(path),
                            line,
                            cause,
                        },
                    );
                },
            }
            pos = end;
        }
    }
    proof {
        assert(chars@.subrange(pos as int, to as int) =~= seq![]);
        assert(all =~= seen);
        assert(all.take(all.len() as int) =~= all);
        lemma_accepted(all, all.len());
    }
    Ok(())
}

/// Adds the short-channel-ids that a text lists to a set. Up to a token that is none, they are
/// added even if there is one.
pub fn parse_scid_list(contents: &str, path: &str, scids: &mut BTreeSet<u64>) -> (r: Result<
    (),
    ScidListError,
>)
    ensures
        final(scids)@ == old(scids)@.union(scids_in(contents@)),
        match r {
            Ok(()) => is_scid_list(contents@),
            Err(e) => {
                let tokens = listed_tokens(contents@, 1);
                let k = accepted(tokens) as int;
                &&& !is_scid_list(contents@)
                &&& 0 <= k < tokens.len()
                &&& e.token@ == tokens[k].text
                &&& e.line == tokens[k].line
                &&& e.path@ == path@
                &&& number(tokens[k].text) == Err::<u64, NumberError>(e.cause)
            },
        },
{
    let chars = text::chars_of(contents);
    let ghost start = scids@;
    let ghost whole = listed_tokens(contents@, 1);
    let ghost mut done: Seq<ListedToken> = seq![];
    let mut pos: usize = 0;
    let mut index: usize = 0;
    proof {
        assert(chars@.skip(0) =~= chars@);
        assert(whole =~= done + listed_tokens(chars@.skip(0), 1));
        assert(listed_scids(done) =~= set![]);
        assert(scids@ =~= start.union(listed_scids(done)));
    }
    while pos < chars.len()
        invariant
            chars@ == contents@,
            index <= pos <= chars@.len(),
            start == old(scids)@,
            whole == listed_tokens(contents@, 1),
            whole == done + listed_tokens(chars@.skip(pos as int), index as nat + 1),
            all_accepted(done),
            scids@ == start.union(listed_scids(done)),
        decreases chars@.len() - pos,
    {
        let ghost rest = chars@.skip(pos as int);
        let end: usize = stretch_end(&chars, pos, chars.len(), Stop::LineFeed);
        let stop: usize = stretch_end(&chars, pos, end, Stop::Hash);
        let (lo, hi) = text::trimmed_range(&chars, pos, stop);
        let ghost these = line_tokens(chars@.subrange(pos as int, end as int), index as nat + 1);
        let ghost after = if end < chars@.len() {
            listed_tokens(chars@.skip(end + 1), index as nat + 2)
        } else {
            seq![]
        };
        proof {
            let line = chars@.subrange(pos as int, end as int);
            assert(rest =~= chars@.subrange(pos as int, chars@.len() as int));
            assert(rest.take(end - pos) =~= line);
            assert(line.take(stop - pos) =~= chars@.subrange(pos as int, stop as int));
            if end < chars@.len() {
                assert(rest.skip(end - pos + 1) =~= chars@.skip(end + 1));
            }
            assert(whole =~= (done + these) + after);
        }
        let outcome = parse_line(
            contents,
            &chars,
            lo,
            hi,
            path,
            index + 1,
            scids,
            Ghost(start),
            Ghost(done),
        );
        match outcome {
            Ok(()) => {
                proof {
                    done = done + these;
                    assert(done.take(done.len() as int) =~= done);
                }
            },
            Err(e) => {
                proof {
                    let all = done + these;
                    let k = accepted(all);
                    assert(whole.take(k as int) =~= all.take(k as int));
                    assert(whole[k as int] == all[k as int]);
                    lemma_accepted(whole, k);
                }
                return Err(e);
            },
        }
        if end < chars.len() {
            pos = end + 1;
            index = index + 1;
        } else {
            assert(chars@.skip(end as int) =~= seq![]);
            pos = end;
        }
    }
    proof {
        assert(chars@.skip(pos as int) =~= seq![]);
        assert(whole =~= done);
        assert(whole.take(whole.len() as int) =~= whole);
        lemma_accepted(whole, whole.len());
    }
    Ok(())
}

/// Short-channel-ids in decimal, each on a line of its own.
pub open spec fn scid_lines(scids: Seq<u64>) -> Seq<char>
    decreases scids.len(),
{
    if scids.len() == 0 {
        seq![]
    } else {
        text::decimal(scids[0] as nat) + seq!['\n'] + scid_lines(scids.drop_first())
    }
}

/// A short-channel-id behind others takes a line of its own.
pub proof fn lemma_one_more_line(scids: Seq<u64>, scid: u64)
    ensures
        scid_lines(scids.push(scid)) == scid_lines(scids) + text::decimal(scid as nat) + seq![
            '\n',
        ],
    decreases scids.len(),
{
    let line = text::decimal(scid as nat) + seq!['\n'];
    if scids.len() > 0 {
        lemma_one_more_line(scids.drop_first(), scid);
        assert(scids.push(scid).drop_first() =~= scids.drop_first().push(scid));
        assert(scid_lines(scids.push(scid)) =~= scid_lines(scids) + line);
    } else {
        assert(scids.push(scid).drop_first() =~= seq![]);
        assert(scid_lines(scids.push(scid).drop_first()) =~= seq![]);
        assert(scid_lines(scids.push(scid)) =~= line);
    }
}

proof fn lemma_decimal(n: nat)
    ensures
        text::decimal(n).len() > 0,
        forall|i: int|
            0 <= i < text::decimal(n).len() ==> '0' <= #[trigger] text::decimal(n)[i] <= '9',
        digits_value(text::decimal(n)) == n,
    decreases n,
{
    let digits = text::decimal(n);
    if n < 10 {
        assert(digits.drop_last() =~= seq![]);
        assert(digits_value(seq![]) == 0);
    } else {
        lemma_decimal(n / 10);
        assert(digits.drop_last() =~= text::decimal(n / 10));
    }
}

proof fn lemma_decimal_is_one_token(n: u64)
    ensures
        tokens(content(text::decimal(n as nat))) == seq![text::decimal(n as nat)],
        number(text::decimal(n as nat)) == Ok::<u64, NumberError>(n),
{
    let line = text::decimal(n as nat);
    lemma_decimal(n as nat);
    lemma_stretch(line, Stop::Hash, line.len());
    assert(line.take(line.len() as int) =~= line);
    assert(!text::is_white_space(line.first()));
    assert(!text::is_white_space(line.last()));
    assert(content(line) == line);
    lemma_stretch(line, Stop::Separator, line.len());
    assert(line.skip(line.len() as int) =~= seq![]);
    assert(tokens(line.skip(line.len() as int)) =~= seq![]);
    assert(tokens(line) =~= seq![line]);
    assert(line[0] != '+');
    lemma_stretch(line, Stop::NonDigit, line.len());
}

proof fn lemma_lines(scids: Seq<u64>, line_number: nat)
    ensures
        listed_tokens(scid_lines(scids), line_number).len() == scids.len(),
        forall|i: int|
            0 <= i < scids.len() ==> (#[trigger] listed_tokens(
                scid_lines(scids),
                line_number,
            )[i]).text == text::decimal(scids[i] as nat),
    decreases scids.len(),
{
    if scids.len() > 0 {
        let all = scid_lines(scids);
        let line = text::decimal(scids[0] as nat);
        let rest = scids.drop_first();
        lemma_decimal(scids[0] as nat);
        lemma_decimal_is_one_token(scids[0]);
        lemma_lines(rest, line_number + 1);
        assert forall|i: int| 0 <= i < line.len() implies !Stop::LineFeed.at(#[trigger] all[i]) by {
            assert(all[i] == line[i]);
        }
        assert(all[line.len() as int] == '\n');
        lemma_stretch(all, Stop::LineFeed, line.len());
        assert(all.take(line.len() as int) =~= line);
        assert(all.skip(line.len() as int + 1) =~= scid_lines(rest));
        let these = line_tokens(line, line_number);
        assert(these.len() == 1 && these[0].text == line);
        let after = listed_tokens(scid_lines(rest), line_number + 1);
        assert(listed_tokens(all, line_number) == these + after);
        assert forall|i: int| 0 <= i < scids.len() implies (#[trigger] listed_tokens(
            all,
            line_number,
        )[i]).text == text::decimal(scids[i] as nat) by {
            if i > 0 {
                assert(after[i - 1].text == text::decimal(rest[i - 1] as nat));
            }
        }
    }
}

/// A list that was written one short-channel-id per line is accepted whole, and holds just
/// those.
pub proof fn written_lists_read_back(scids: Seq<u64>)
    ensures
        is_scid_list(scid_lines(scids)),
        scids_in(scid_lines(scids)) == scids.to_set(),
{
    let listed = listed_tokens(scid_lines(scids), 1);
    lemma_lines(scids, 1);
    assert forall|i: int| 0 <= i < listed.len() implies number((#[trigger] listed[i]).text) == Ok::<
        u64,
        NumberError,
    >(scids[i]) by {
        lemma_decimal_is_one_token(scids[i]);
    }
    assert(listed.take(listed.len() as int) =~= listed);
    lemma_accepted(listed, listed.len());
    assert(listed.map_values(|t: ListedToken| number(t.text)->Ok_0) =~= scids);
}

proof fn lemma_stretch_ends(s: Seq<char>, stop: Stop)
    ensures
        stretch(s, stop) <= s.len(),
        forall|i: int| 0 <= i < stretch(s, stop) ==> !stop.at(#[trigger] s[i]),
        stretch(s, stop) < s.len() ==> stop.at(s[stretch(s, stop) as int]),
    decreases s.len(),
{
    if s.len() > 0 && !stop.at(s[0]) {
        let rest = s.drop_first();
        lemma_stretch_ends(rest, stop);
        assert forall|i: int| 0 <= i < stretch(s, stop) implies !stop.at(#[trigger] s[i]) by {
            if i > 0 {
                assert(!stop.at(rest[i - 1]));
            }
        }
    }
}

/// Whether a character is a comma or ASCII white space.
pub open spec fn separates(c: char) -> bool {
    c == ',' || c == ' ' || c == '\t' || c == '\n' || c == '\u{c}' || c == '\r'
}

/// A comma or a character of ASCII white space parts tokens: those before it and those behind it
/// are the tokens of the two sides.
pub proof fn separators_part_tokens(before: Seq<char>, c: char, after: Seq<char>)
    requires
        separates(c),
    ensures
        tokens(before + seq![c] + after) == tokens(before) + tokens(after),
    decreases before.len(),
{
    let whole = before + seq![c] + after;
    let n = stretch(before, Stop::Separator);
    lemma_stretch_ends(before, Stop::Separator);
    if before.len() == 0 {
        assert(whole.drop_first() =~= after);
        assert(whole[0] == c);
        assert(tokens(whole) == tokens(after));
        assert(tokens(before) + tokens(after) =~= tokens(after));
    } else if n == 0 {
        separators_part_tokens(before.drop_first(), c, after);
        assert(whole.drop_first() =~= before.drop_first() + seq![c] + after);
        assert(whole[0] == before[0]);
    } else {
        assert forall|i: int| 0 <= i < n implies !Stop::Separator.at(#[trigger] whole[i]) by {
            assert(whole[i] == before[i]);
        }
        assert(whole[n as int] == if n < before.len() {
            before[n as int]
        } else {
            c
        });
        lemma_stretch(whole, Stop::Separator, n);
        let rest = before.skip(n as int);
        separators_part_tokens(rest, c, after);
        assert(whole.take(n as int) =~= before.take(n as int));
        assert(whole.skip(n as int) =~= rest + seq![c] + after);
        assert(tokens(whole) =~= tokens(before) + tokens(after));
    }
}

/// A text without separators is one token, unless it is empty: then it holds none.
pub proof fn what_is_not_parted_is_one_token(word: Seq<char>)
    requires
        forall|i: int| 0 <= i < word.len() ==> !separates(#[trigger] word[i]),
    ensures
        tokens(word) == if word.len() == 0 {
            Seq::<Seq<char>>::empty()
        } else {
            seq![word]
        },
{
    if word.len() > 0 {
        assert forall|i: int| 0 <= i < word.len() implies !Stop::Separator.at(
            #[trigger] word[i],
        ) by {
            assert(!separates(word[i]));
        }
        lemma_stretch(word, Stop::Separator, word.len());
        assert(word.take(word.len() as int) =~= word);
        assert(word.skip(word.len() as int) =~= seq![]);
        assert(tokens(word.skip(word.len() as int)) =~= seq![]);
        assert(tokens(word) =~= seq![word]);
    }
}

/// A hash and all that follows it on a line do not count, nor does the white space at either end
/// of what is left.
pub proof fn comments_do_not_count(before: Seq<char>, comment: Seq<char>)
    requires
        forall|i: int| 0 <= i < before.len() ==> #[trigger] before[i] != '#',
    ensures
        content(before + seq!['#'] + comment) == text::trimmed(before),
        content(before) == text::trimmed(before),
{
    let line = before + seq!['#'] + comment;
    assert forall|i: int| 0 <= i < before.len() implies !Stop::Hash.at(#[trigger] line[i]) by {
        assert(before[i] != '#');
    }
    assert(line[before.len() as int] == '#');
    lemma_stretch(line, Stop::Hash, before.len());
    assert(line.take(before.len() as int) =~= before);
    lemma_stretch(before, Stop::Hash, before.len());
    assert(before.take(before.len() as int) =~= before);
}

/// A line feed ends a line. The tokens of a list are those of its lines, one line after the other,
/// each with the number of its line.
pub proof fn lists_go_line_by_line(line: Seq<char>, rest: Seq<char>, line_number: nat)
    requires
        forall|i: int| 0 <= i < line.len() ==> #[trigger] line[i] != '\n',
    ensures
        listed_tokens(line + seq!['\n'] + rest, line_number) == line_tokens(line, line_number)
            + listed_tokens(rest, line_number + 1),
        listed_tokens(line, line_number) == line_tokens(line, line_number),
        line_tokens(line, line_number).len() == tokens(content(line)).len(),
        forall|i: int|
            0 <= i < line_tokens(line, line_number).len() ==> {
                &&& (#[trigger] line_tokens(line, line_number)[i]).line == line_number
                &&& line_tokens(line, line_number)[i].text == tokens(content(line))[i]
            },
{
    let whole = line + seq!['\n'] + rest;
    assert forall|i: int| 0 <= i < line.len() implies !Stop::LineFeed.at(#[trigger] whole[i]) by {
        assert(line[i] != '\n');
    }
    assert(whole[line.len() as int] == '\n');
    lemma_stretch(whole, Stop::LineFeed, line.len());
    assert(whole.take(line.len() as int) =~= line);
    assert(whole.skip(line.len() as int + 1) =~= rest);
    if line.len() == 0 {
        lemma_stretch(line, Stop::Hash, 0);
        assert(line.take(0) =~= line);
        assert(content(line).len() == 0);
        assert(line_tokens(line, line_number) =~= seq![]);
    } else {
        lemma_stretch(line, Stop::LineFeed, line.len());
        assert(line.take(line.len() as int) =~= line);
        assert(listed_tokens(line, line_number) =~= line_tokens(line, line_number));
    }
}

/// So many zeros.
pub open spec fn zeros(k: nat) -> Seq<char> {
    Seq::new(k, |i: int| '0')
}

proof fn lemma_leading_zeros(k: nat, digits: Seq<char>)
    ensures
        digits_value(zeros(k) + digits) == digits_value(digits),
    decreases digits.len(),
{
    if digits.len() == 0 {
        assert(zeros(k) + digits =~= zeros(k));
        lemma_zeros(k);
    } else {
        lemma_leading_zeros(k, digits.drop_last());
        assert((zeros(k) + digits).drop_last() =~= zeros(k) + digits.drop_last());
    }
}

proof fn lemma_zeros(k: nat)
    ensures
        digits_value(zeros(k)) == 0,
    decreases k,
{
    if k > 0 {
        lemma_zeros((k - 1) as nat);
        assert(zeros(k).drop_last() =~= zeros((k - 1) as nat));
    }
}

/// A number is written in decimal by digits alone, without a zero in front of others.
pub proof fn decimals_are_digits(n: nat)
    ensures
        text::decimal(n).len() > 0,
        forall|i: int|
            0 <= i < text::decimal(n).len() ==> '0' <= #[trigger] text::decimal(n)[i] <= '9',
        n > 0 ==> text::decimal(n)[0] != '0',
        digits_value(text::decimal(n)) == n,
    decreases n,
{
    lemma_decimal(n);
    if n >= 10 {
        decimals_are_digits(n / 10);
        assert(text::decimal(n)[0] == text::decimal(n / 10)[0]);
    }
}

/// A number is read from its decimal digits, with any zeros and with a plus sign in front.
pub proof fn numbers_are_read_in_decimal(n: u64, k: nat)
    ensures
        number(zeros(k) + text::decimal(n as nat)) == Ok::<u64, NumberError>(n),
        number(seq!['+'] + (zeros(k) + text::decimal(n as nat))) == Ok::<u64, NumberError>(n),
{
    let digits = zeros(k) + text::decimal(n as nat);
    decimals_are_digits(n as nat);
    lemma_leading_zeros(k, text::decimal(n as nat));
    assert forall|i: int| 0 <= i < digits.len() implies !Stop::NonDigit.at(#[trigger] digits[i]) by {
        if i >= k {
            assert(digits[i] == text::decimal(n as nat)[i - k]);
        }
    }
    lemma_stretch(digits, Stop::NonDigit, digits.len());
    assert(digits.take(digits.len() as int) =~= digits);
    assert('0' <= digits[0] <= '9');
    assert(unsigned(digits) == digits);
    assert((seq!['+'] + digits).drop_first() =~= digits);
}

proof fn lemma_digits_are_a_decimal(digits: Seq<char>) -> (k: nat)
    requires
        digits.len() > 0,
        forall|i: int| 0 <= i < digits.len() ==> '0' <= #[trigger] digits[i] <= '9',
    ensures
        digits == zeros(k) + text::decimal(digits_value(digits)),
    decreases digits.len(),
{
    let c = digits.last();
    assert('0' <= digits[digits.len() - 1] <= '9');
    let x = (c as nat - '0' as nat) as nat;
    let init = digits.drop_last();
    if init.len() == 0 {
        assert(digits_value(init) == 0);
        assert(digits =~= zeros(0) + text::decimal(digits_value(digits)));
        0
    } else {
        let k = lemma_digits_are_a_decimal(init);
        let w = digits_value(init);
        assert(digits_value(digits) == 10 * w + x);
        if w > 0 {
            assert(text::decimal(10 * w + x) == text::decimal(w).push(text::digit_char(x)));
            assert(text::digit_char(x) == c);
            assert(digits =~= init.push(c));
            assert(digits =~= zeros(k) + text::decimal(10 * w + x));
            k
        } else {
            assert(text::decimal(0) =~= seq!['0']);
            assert(init =~= zeros(k + 1));
            assert(digits =~= zeros(k + 1) + text::decimal(x));
            k + 1
        }
    }
}

/// Nothing else is read as a number: a token that is one consists of the decimal digits of that
/// number, behind an optional plus sign and any zeros.
pub proof fn only_decimals_are_numbers(token: Seq<char>, n: u64)
    requires
        number(token) == Ok::<u64, NumberError>(n),
    ensures
        exists|k: nat|
            token == #[trigger] zeros(k) + text::decimal(n as nat) || token == seq!['+'] + (zeros(k)
                + text::decimal(n as nat)),
{
    let s = unsigned(token);
    lemma_stretch_ends(s, Stop::NonDigit);
    assert forall|i: int| 0 <= i < s.len() implies '0' <= #[trigger] s[i] <= '9' by {
        assert(!Stop::NonDigit.at(s[i]));
    }
    assert(s.take(s.len() as int) =~= s);
    let k = lemma_digits_are_a_decimal(s);
    let written = zeros(k) + text::decimal(n as nat);
    assert(s == written);
    if token.len() > 0 && token[0] == '+' {
        assert(token =~= seq!['+'] + written);
    }
}

/// A token that is refused is said to be too large if the digits that it starts with, behind an
/// optional plus sign, are, and to hold something else than digits if not.
pub proof fn refusals_have_their_cause(token: Seq<char>, cause: NumberError, n: int)
    requires
        number(token) == Err::<u64, NumberError>(cause),
        0 <= n <= unsigned(token).len(),
        forall|i: int| 0 <= i < n ==> '0' <= #[trigger] unsigned(token)[i] <= '9',
        n < unsigned(token).len() ==> !('0' <= unsigned(token)[n] <= '9'),
    ensures
        cause == NumberError::PosOverflow <==> digits_value(unsigned(token).take(n)) > u64::MAX,
        cause == NumberError::InvalidDigit ==> n == 0 || n < unsigned(token).len(),
{
    let s = unsigned(token);
    assert forall|i: int| 0 <= i < n implies !Stop::NonDigit.at(#[trigger] s[i]) by {
        assert('0' <= s[i] <= '9');
    }
    lemma_stretch(s, Stop::NonDigit, n as nat);
}

proof fn lemma_accepted_means(tokens: Seq<ListedToken>)
    ensures
        accepted(tokens) <= tokens.len(),
        forall|i: int| 0 <= i < accepted(tokens) ==> number((#[trigger] tokens[i]).text) is Ok,
        accepted(tokens) < tokens.len() ==> number(tokens[accepted(tokens) as int].text) is Err,
    decreases tokens.len(),
{
    if tokens.len() > 0 && number(tokens[0].text) is Ok {
        let rest = tokens.drop_first();
        lemma_accepted_means(rest);
        assert forall|i: int| 0 <= i < accepted(tokens) implies number(
            (#[trigger] tokens[i]).text,
        ) is Ok by {
            if i > 0 {
                assert(number(rest[i - 1].text) is Ok);
            }
        }
    }
}

/// A short-channel-id is added if and only if a token stands for it and no token up to that one is
/// refused. A list is accepted if and only if none is.
pub proof fn tokens_count_up_to_the_first_refusal(contents: Seq<char>, scid: u64)
    ensures
        scids_in(contents).contains(scid) <==> exists|i: int|
            {
                &&& 0 <= i < listed_tokens(contents, 1).len()
                &&& number((#[trigger] listed_tokens(contents, 1)[i]).text) == Ok::<
                    u64,
                    NumberError,
                >(scid)
                &&& forall|k: int|
                    0 <= k < i ==> number((#[trigger] listed_tokens(contents, 1)[k]).text) is Ok
            },
        is_scid_list(contents) <==> forall|i: int|
            0 <= i < listed_tokens(contents, 1).len() ==> number(
                (#[trigger] listed_tokens(contents, 1)[i]).text,
            ) is Ok,
{
    let all = listed_tokens(contents, 1);
    let n = accepted(all);
    lemma_accepted_means(all);
    let numbers = all.take(n as int).map_values(|t: ListedToken| number(t.text)->Ok_0);
    if scids_in(contents).contains(scid) {
        let i = choose|i: int| 0 <= i < numbers.len() && numbers[i] == scid;
        assert(number(all[i].text) is Ok);
        assert(number(all[i].text) == Ok::<u64, NumberError>(scid));
    }
    if exists|i: int|
        {
            &&& 0 <= i < all.len()
            &&& number((#[trigger] all[i]).text) == Ok::<u64, NumberError>(scid)
            &&& forall|k: int| 0 <= k < i ==> number((#[trigger] all[k]).text) is Ok
        } {
        let i = choose|i: int|
            {
                &&& 0 <= i < all.len()
                &&& number((#[trigger] all[i]).text) == Ok::<u64, NumberError>(scid)
                &&& forall|k: int| 0 <= k < i ==> number((#[trigger] all[k]).text) is Ok
            };
        if i >= n {
            assert(number(all[n as int].text) is Err);
            assert(false);
        }
        assert(numbers[i] == scid);
    }
}

/// The message on a token names the token, the file and the line.
pub proof fn messages_name_token_file_and_line(e: ScidListError)
    ensures
        e.message().take("parse scid '"@.len() as int) == "parse scid '"@,
        e.message().skip(e.message().len() - text::decimal(e.line as nat).len()) == text::decimal(e.line as nat),
        text::holds(e.message(), "parse scid '"@ + e.token@ + "' in "@),
        text::holds(e.message(), "' in "@ + e.path@ + ":"@),
{
    let pieces = seq!["parse scid '"@, e.token@, "' in "@, e.path@, ":"@, text::decimal(e.line as nat)];
    assert(e.message() =~= text::joined(pieces)) by {
        reveal_with_fuel(text::joined, 7);
    }
    assert(e.message().take("parse scid '"@.len() as int) =~= "parse scid '"@);
    assert(e.message().skip(e.message().len() - text::decimal(e.line as nat).len()) =~= text::decimal(e.line as nat));
    text::lemma_joined_holds(pieces, 0);
    text::lemma_joined_holds(pieces, 2);
}

} // verus!
