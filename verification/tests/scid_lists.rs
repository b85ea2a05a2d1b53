use scorer_kit::scid_list::{parse_scid_list, NumberError};
use scorer_kit::text::{decimal_text, white_space};
use std::collections::BTreeSet;

fn accepted(contents: &str) -> Vec<u64> {
    let mut scids = BTreeSet::new();
    parse_scid_list(contents, "scids.txt", &mut scids).expect("parse scids");
    scids.into_iter().collect()
}

#[test]
fn parse_scid_list_accepts_comments_commas_and_whitespace() {
    let mut scids = BTreeSet::new();
    parse_scid_list("42, 43\n# ignored\n44 45 # trailing\n", "scids.txt", &mut scids)
        .expect("parse scids");

    assert_eq!(scids.into_iter().collect::<Vec<_>>(), vec![42, 43, 44, 45]);
}

#[test]
fn parse_scid_list_rejects_non_decimal_tokens() {
    let mut scids = BTreeSet::new();
    let err = parse_scid_list("42\nnot-a-scid\n", "scids.txt", &mut scids)
        .expect_err("invalid scid token should fail");

    assert!(err.to_string().contains("not-a-scid"));
}

#[test]
fn a_refused_token_is_reported_with_its_place() {
    let mut scids = BTreeSet::from([7]);
    let err = parse_scid_list("1 2\n\n 3, x4 5", "dir/scids.txt", &mut scids)
        .expect_err("a token with a letter");
    assert_eq!(err.token, "x4");
    assert_eq!(err.path, "dir/scids.txt");
    assert_eq!(err.line, 3);
    assert_eq!(err.cause, NumberError::InvalidDigit);
    assert_eq!(err.to_string(), "parse scid 'x4' in dir/scids.txt:3");
    assert_eq!(scids.into_iter().collect::<Vec<_>>(), vec![1, 2, 3, 7]);
}

#[test]
fn refused_tokens_are_those_that_std_refuses() {
    let tokens = [
        "0", "00042", "+7", "+", "-1", "++1", "1_000", "0x10", "18446744073709551615",
        "18446744073709551616", "99999999999999999999x", "x99999999999999999999", "\u{661}", "1.5",
        "000000000000000000000000000000000001", "+18446744073709551616",
    ];
    for token in tokens {
        let mut scids = BTreeSet::new();
        let ours = parse_scid_list(token, "p", &mut scids);
        match token.parse::<u64>() {
            Ok(scid) => {
                assert!(ours.is_ok(), "{}", token);
                assert_eq!(scids.into_iter().collect::<Vec<_>>(), vec![scid]);
            },
            Err(cause) => {
                let err = ours.expect_err(token);
                assert_eq!(err.cause.as_str(), cause.to_string(), "{}", token);
                assert!(scids.is_empty());
            },
        }
    }
}

#[test]
fn overflow_has_its_own_cause() {
    let mut scids = BTreeSet::new();
    let err = parse_scid_list("18446744073709551616", "p", &mut scids).expect_err("too large");
    assert_eq!(err.cause, NumberError::PosOverflow);
    assert_eq!(err.cause.as_str(), "number too large to fit in target type");
    assert_eq!(NumberError::InvalidDigit.as_str(), "invalid digit found in string");
}

#[test]
fn lines_end_with_or_without_carriage_returns() {
    assert_eq!(accepted("1\r\n2\r\n3"), vec![1, 2, 3]);
    assert_eq!(accepted(""), Vec::<u64>::new());
    assert_eq!(accepted("\n\n"), Vec::<u64>::new());
    assert_eq!(accepted("#1 2 3"), Vec::<u64>::new());
    assert_eq!(accepted("5#6\n7"), vec![5, 7]);
    assert_eq!(accepted(",,1,,2\t3\u{c}4,"), vec![1, 2, 3, 4]);
}

#[test]
fn only_ascii_white_space_separates_but_any_is_trimmed() {
    assert_eq!(accepted("\u{a0}\u{3000}8\u{2003}\n"), vec![8]);
    let mut scids = BTreeSet::new();
    let err = parse_scid_list("8\u{a0}9", "p", &mut scids).expect_err("no separator");
    assert_eq!(err.token, "8\u{a0}9");
    let err = parse_scid_list("8\u{b}9", "p", &mut scids).expect_err("no separator");
    assert_eq!(err.token, "8\u{b}9");
}

#[test]
fn white_space_is_that_of_std() {
    for c in '\u{0}'..=char::MAX {
        assert_eq!(white_space(c), c.is_whitespace(), "{:?}", c);
    }
}

#[test]
fn decimals_are_those_of_std() {
    for n in [0, 7, 9, 10, 99, 100, 1_000_000_007, u64::MAX - 1, u64::MAX] {
        assert_eq!(decimal_text(n), n.to_string());
    }
}

#[test]
fn written_numbers_read_back() {
    let scids = [0, 42, 43, 1 << 63, u64::MAX];
    let mut list = String::new();
    for scid in scids {
        list.push_str(&decimal_text(scid));
        list.push('\n');
    }
    assert_eq!(accepted(&list), scids.to_vec());
}
