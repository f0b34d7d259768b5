use delimscan::scanner::{
    classify, matching_closer, matching_opener, opener_kind_of, scan, CharRole, DelimKind,
    ScanError,
};

fn scan_fresh(input: &str) -> Result<usize, ScanError> {
    let mut stack: Vec<char> = Vec::new();
    scan(input, &mut stack)
}

#[test]
fn nested_pairs_balance_at_the_end() {
    let mut stack: Vec<char> = Vec::new();
    assert_eq!(Ok(6), scan("{[()]}", &mut stack));
    assert!(stack.is_empty());
}

#[test]
fn early_exit_at_first_balanced_prefix() {
    assert_eq!(Ok(2), scan_fresh("{}[]"));
}

#[test]
fn quoted_braces_are_content() {
    // The input text is  "{}"  — a quoted literal holding two braces.
    assert_eq!(Ok(4), scan_fresh("\"{}\""));
}

#[test]
fn bare_string_never_mismatches() {
    assert_eq!(Ok(8), scan_fresh("\"])}abc\"x"));
}

#[test]
fn escaped_quote_stays_inside_the_string() {
    // The input text is  "a\"b"  — the escaped quote does not close it.
    assert_eq!(Ok(6), scan_fresh("\"a\\\"b\""));
}

#[test]
fn mismatched_closer_is_reported() {
    assert_eq!(
        Err(ScanError::MismatchedDelimiter {
            position: 1,
            found: ']',
            expected: Some(DelimKind::Paren),
        }),
        scan_fresh("(]")
    );
}

#[test]
fn mismatch_inside_open_braces() {
    assert_eq!(
        Err(ScanError::MismatchedDelimiter {
            position: 2,
            found: '}',
            expected: Some(DelimKind::Bracket),
        }),
        scan_fresh("{[}")
    );
}

#[test]
fn closer_on_empty_stack_expects_nothing() {
    assert_eq!(
        Err(ScanError::MismatchedDelimiter { position: 0, found: '}', expected: None }),
        scan_fresh("}")
    );
}

#[test]
fn dangling_opener_is_incomplete_not_fatal() {
    let mut stack: Vec<char> = Vec::new();
    let r = scan("[{}", &mut stack);
    assert_eq!(Err(ScanError::Incomplete { stack_depth: 1 }), r);
    assert_eq!(1, stack.len());
}

#[test]
fn two_dangling_openers_leave_depth_two() {
    assert_eq!(Err(ScanError::Incomplete { stack_depth: 2 }), scan_fresh("{["));
}

#[test]
fn shortest_balanced_prefix_of_a_longer_buffer() {
    // The text  {\"{{var}}}}\": 123}  — the escaped quote opens no string,
    // so the braces balance just past the third closer, at index 11.
    let text = "{\\\"{{var}}}}\\\": 123}";
    assert_eq!(Ok(11), scan_fresh(text));
}

#[test]
fn quoted_key_spans_the_whole_object() {
    // The text  {"{{var}}}}": 123}  — here the quote is real, the inner
    // braces are string content, and the object closes at the very end.
    let text = "{\"{{var}}}}\": 123}";
    assert_eq!(Ok(text.chars().count()), scan_fresh(text));
}

#[test]
fn a_quote_closes_only_its_own_kind() {
    // A double quote inside a single-quoted region opens a nested region.
    assert_eq!(Err(ScanError::Incomplete { stack_depth: 3 }), scan_fresh("'a\"b'"));
}

#[test]
fn ordinary_prefix_is_already_balanced() {
    assert_eq!(Ok(1), scan_fresh("abc"));
}

#[test]
fn empty_input_is_balanced_at_length_zero() {
    assert_eq!(Ok(0), scan_fresh(""));
}

#[test]
fn the_tables_classify_and_match() {
    assert_eq!(CharRole::Opener(DelimKind::Brace), classify('{'));
    assert_eq!(CharRole::Opener(DelimKind::Bracket), classify('['));
    assert_eq!(CharRole::Opener(DelimKind::Paren), classify('('));
    assert_eq!(CharRole::Closer(DelimKind::Brace), classify('}'));
    assert_eq!(CharRole::Closer(DelimKind::Bracket), classify(']'));
    assert_eq!(CharRole::Closer(DelimKind::Paren), classify(')'));
    assert_eq!(CharRole::QuoteMarker, classify('"'));
    assert_eq!(CharRole::QuoteMarker, classify('\''));
    assert_eq!(CharRole::EscapeMarker, classify('\\'));
    assert_eq!(CharRole::Ordinary, classify('x'));
    assert_eq!('{', matching_opener('}'));
    assert_eq!('[', matching_opener(']'));
    assert_eq!('(', matching_opener(')'));
    assert_eq!('}', matching_closer(DelimKind::Brace));
    assert_eq!(']', matching_closer(DelimKind::Bracket));
    assert_eq!(')', matching_closer(DelimKind::Paren));
    assert_eq!(DelimKind::Paren, opener_kind_of('('));
}

#[test]
fn independent_scans_do_not_interfere() {
    let left = "{[()]}";
    let right = "(]";
    let mut stack_a: Vec<char> = Vec::new();
    let mut stack_b: Vec<char> = Vec::new();
    let a_alone = scan_fresh(left);
    let b_alone = scan_fresh(right);
    let a = scan(left, &mut stack_a);
    let b = scan(right, &mut stack_b);
    assert_eq!(a_alone, a);
    assert_eq!(b_alone, b);
}
