//! A streaming balanced-delimiter scanner.
//!
//! Given a text, the scanner walks it left to right and reports the shortest
//! nonempty leading prefix whose structural brackets `{}`, `[]`, `()` and
//! quoted-string regions are fully balanced.  The interior of a quoted
//! string is opaque: no bracket inside it opens or closes anything.  A
//! backslash makes the single following character opaque as well, wherever
//! it occurs.
//!
//! The caller owns the scratch stack and must hand it over empty; each scan
//! is independent of every other.

use vstd::prelude::*;
use vstd::string::StrSliceExecFns;

verus! {

/// The three bracket families.
#[derive(Clone, Copy, Debug, PartialEq, Eq, Structural)]
pub enum DelimKind {
    Brace,
    Bracket,
    Paren,
}

/// The role a character plays for the scanner.
#[derive(Clone, Copy, Debug, PartialEq, Eq, Structural)]
pub enum CharRole {
    /// Opens a bracket of the given family.
    Opener(DelimKind),
    /// Closes a bracket of the given family.
    Closer(DelimKind),
    /// Opens or closes a quoted-string region; self-matching.
    QuoteMarker,
    /// Makes the next character opaque.
    EscapeMarker,
    /// Everything else.
    Ordinary,
}

/// Why a scan failed.
#[derive(Clone, Copy, Debug, PartialEq, Eq)]
pub enum ScanError {
    /// A closer appeared whose required opener is not on top of the stack.
    /// `expected` is the family of the opener that was on top, or `None`
    /// when the stack was empty.
    MismatchedDelimiter { position: usize, found: char, expected: Option<DelimKind> },
    /// The input ended with unresolved nesting; more input is needed.
    Incomplete { stack_depth: usize },
}

// ---------------------------------------------------------------------------
// Classification tables
// ---------------------------------------------------------------------------

pub open spec fn is_opener(c: char) -> bool {
    c == '{' || c == '[' || c == '('
}

pub open spec fn is_closer(c: char) -> bool {
    c == '}' || c == ']' || c == ')'
}

pub open spec fn is_quote(c: char) -> bool {
    c == '"' || c == '\''
}

pub open spec fn is_escape(c: char) -> bool {
    c == '\\'
}

/// The family of an opener character (arbitrary on other characters).
pub open spec fn opener_kind(c: char) -> DelimKind {
    if c == '{' {
        DelimKind::Brace
    } else if c == '[' {
        DelimKind::Bracket
    } else {
        DelimKind::Paren
    }
}

/// The family of a closer character (arbitrary on other characters).
pub open spec fn closer_kind(c: char) -> DelimKind {
    if c == '}' {
        DelimKind::Brace
    } else if c == ']' {
        DelimKind::Bracket
    } else {
        DelimKind::Paren
    }
}

/// The opening character of a family.
pub open spec fn opener_char(k: DelimKind) -> char {
    match k {
        DelimKind::Brace => '{',
        DelimKind::Bracket => '[',
        DelimKind::Paren => '(',
    }
}

/// The closing character of a family.
pub open spec fn closer_char(k: DelimKind) -> char {
    match k {
        DelimKind::Brace => '}',
        DelimKind::Bracket => ']',
        DelimKind::Paren => ')',
    }
}

/// The role of a character.
pub open spec fn role_of(c: char) -> CharRole {
    if is_escape(c) {
        CharRole::EscapeMarker
    } else if is_quote(c) {
        CharRole::QuoteMarker
    } else if is_opener(c) {
        CharRole::Opener(opener_kind(c))
    } else if is_closer(c) {
        CharRole::Closer(closer_kind(c))
    } else {
        CharRole::Ordinary
    }
}

/// Report the role of a character.
pub fn classify(c: char) -> (r: CharRole)
    ensures
        r == role_of(c),
{
    if c == '\\' {
        CharRole::EscapeMarker
    } else if c == '"' || c == '\'' {
        CharRole::QuoteMarker
    } else if c == '{' {
        CharRole::Opener(DelimKind::Brace)
    } else if c == '[' {
        CharRole::Opener(DelimKind::Bracket)
    } else if c == '(' {
        CharRole::Opener(DelimKind::Paren)
    } else if c == '}' {
        CharRole::Closer(DelimKind::Brace)
    } else if c == ']' {
        CharRole::Closer(DelimKind::Bracket)
    } else if c == ')' {
        CharRole::Closer(DelimKind::Paren)
    } else {
        CharRole::Ordinary
    }
}

/// The opener character a closer must match (the closer itself on other
/// characters, which no caller relies on).
pub fn matching_opener(c: char) -> (r: char)
    ensures
        is_closer(c) ==> r == opener_char(closer_kind(c)),
{
    if c == '}' {
        '{'
    } else if c == ']' {
        '['
    } else if c == ')' {
        '('
    } else {
        c
    }
}

/// The family of an opener character, as `opener_kind` has it.
pub fn opener_kind_of(c: char) -> (k: DelimKind)
    ensures
        k == opener_kind(c),
{
    if c == '{' {
        DelimKind::Brace
    } else if c == '[' {
        DelimKind::Bracket
    } else {
        DelimKind::Paren
    }
}

/// The closer character that ends a bracket of family `k`.
pub fn matching_closer(k: DelimKind) -> (r: char)
    ensures
        r == closer_char(k),
{
    match k {
        DelimKind::Brace => '}',
        DelimKind::Bracket => ']',
        DelimKind::Paren => ')',
    }
}

// ---------------------------------------------------------------------------
// The scan, as a mathematical model
// ---------------------------------------------------------------------------

/// What one character does to the scan state.
pub enum Step {
    /// The scan goes on with this stack and escape flag.
    Next { stack: Seq<char>, esc: bool },
    /// A closer failed to match; `expected` is the family of the opener on
    /// top of the stack, or `None` when the stack was empty.
    Fail { expected: Option<DelimKind> },
}

/// How one character moves the scan state.
///
/// An escaped character is consumed literally.  A quote marker closes the
/// string its own character opened, else opens a new one.  While the top of
/// the stack is a quote marker the scan is inside a string and no structural
/// character touches the stack.  Otherwise openers push their character,
/// matching closers pop, and a closer whose required opener is not on top
/// fails the scan.
pub open spec fn step(stack: Seq<char>, esc: bool, c: char) -> Step {
    if esc {
        Step::Next { stack, esc: false }
    } else if is_escape(c) {
        Step::Next { stack, esc: true }
    } else if is_quote(c) {
        if stack.len() > 0 && stack.last() == c {
            Step::Next { stack: stack.drop_last(), esc: false }
        } else {
            Step::Next { stack: stack.push(c), esc: false }
        }
    } else if stack.len() > 0 && is_quote(stack.last()) {
        Step::Next { stack, esc: false }
    } else if is_opener(c) {
        Step::Next { stack: stack.push(c), esc: false }
    } else if is_closer(c) {
        if stack.len() > 0 && stack.last() == opener_char(closer_kind(c)) {
            Step::Next { stack: stack.drop_last(), esc: false }
        } else {
            Step::Fail {
                expected: if stack.len() == 0 {
                    None
                } else {
                    Some(opener_kind(stack.last()))
                },
            }
        }
    } else {
        Step::Next { stack, esc: false }
    }
}

/// The result of a scan, in the model.
pub enum Outcome {
    /// The prefix of this many characters is balanced; the scan stops there.
    Balanced { prefix_length: int },
    /// The closer `found` at `position` does not match the opener on top of
    /// the stack (`None`: the stack was empty).
    Mismatch { position: int, found: char, expected: Option<DelimKind> },
    /// The input ended with this many contexts still open.
    Incomplete { depth: int },
}

/// The outcome of scanning `s` from position `i` in state (`stack`, `esc`).
///
/// After each consumed character, a stack that has become empty ends the
/// scan at once: the prefix through that character is balanced.
pub open spec fn scan_from(s: Seq<char>, i: int, stack: Seq<char>, esc: bool) -> Outcome
    decreases s.len() - i,
{
    if i < 0 || i >= s.len() {
        if stack.len() == 0 {
            Outcome::Balanced { prefix_length: s.len() as int }
        } else {
            Outcome::Incomplete { depth: stack.len() as int }
        }
    } else {
        match step(stack, esc, s[i]) {
            Step::Fail { expected } => Outcome::Mismatch { position: i, found: s[i], expected },
            Step::Next { stack: stack2, esc: esc2 } => {
                if stack2.len() == 0 {
                    Outcome::Balanced { prefix_length: i + 1 }
                } else {
                    scan_from(s, i + 1, stack2, esc2)
                }
            },
        }
    }
}

/// The outcome of a whole scan of `s`, from an empty stack.
pub open spec fn scan_spec(s: Seq<char>) -> Outcome {
    scan_from(s, 0, Seq::empty(), false)
}

// ---------------------------------------------------------------------------
// The scanner
// ---------------------------------------------------------------------------

/// Scan `input` for its shortest balanced nonempty prefix (an empty input
/// is balanced over its whole length, zero).
///
/// `stack` is caller-owned scratch space and must be empty at entry; an
/// independent scan never depends on anything but its own input.  On
/// success the stack is empty again and the returned length, in characters,
/// delimits the balanced prefix.  A closer that does not match the opener
/// on top of the stack is reported as `MismatchedDelimiter`; input that
/// ends with open nesting as `Incomplete`.  Both come back as values: a
/// scan never aborts.
pub fn scan(input: &str, stack: &mut Vec<char>) -> (r: Result<usize, ScanError>)
    requires
        old(stack)@.len() == 0,
    ensures
        match r {
            Ok(prefix_length) => scan_spec(input@) == (Outcome::Balanced {
                prefix_length: prefix_length as int,
            }) && final(stack)@.len() == 0 && prefix_length <= input@.len(),
            Err(e) => match e {
                ScanError::MismatchedDelimiter { position, found, expected } => scan_spec(input@)
                    == (Outcome::Mismatch { position: position as int, found, expected }),
                ScanError::Incomplete { stack_depth } => scan_spec(input@) == (Outcome::Incomplete {
                    depth: stack_depth as int,
                }) && stack_depth == final(stack)@.len() && stack_depth > 0,
            },
        },
{
    let n = input.unicode_len();
    let mut esc: bool = false;
    let mut i: usize = 0;
    proof {
        assert(stack@ =~= Seq::<char>::empty());
    }
    while i < n
        invariant
            i <= n,
            n == input@.len(),
            scan_from(input@, i as int, stack@, esc) == scan_spec(input@),
            i == 0 ==> stack@.len() == 0,
            i > 0 ==> stack@.len() > 0,
        decreases n - i,
    {
        let ghost prev_stack = stack@;
        let ghost prev_esc = esc;
        let c = input.get_char(i);
        if esc {
            esc = false;
        } else if c == '\\' {
            esc = true;
        } else if c == '"' || c == '\'' {
            if stack.len() > 0 && stack[stack.len() - 1] == c {
                let _ = stack.pop();
                proof {
                    assert(stack@ =~= prev_stack.drop_last());
                }
            } else {
                stack.push(c);
            }
        } else if stack.len() > 0
            && (stack[stack.len() - 1] == '"' || stack[stack.len() - 1] == '\'') {
            // inside a string: structural characters are ordinary content
        } else if c == '{' || c == '[' || c == '(' {
            stack.push(c);
        } else if c == '}' || c == ']' || c == ')' {
            let want = matching_opener(c);
            if stack.len() > 0 && stack[stack.len() - 1] == want {
                let _ = stack.pop();
                proof {
                    assert(stack@ =~= prev_stack.drop_last());
                }
            } else {
                let expected: Option<DelimKind> = if stack.len() == 0 {
                    None
                } else {
                    Some(opener_kind_of(stack[stack.len() - 1]))
                };
                proof {
                    assert(step(prev_stack, prev_esc, c) == (Step::Fail { expected }));
                }
                return Err(ScanError::MismatchedDelimiter { position: i, found: c, expected });
            }
        } else {
            // an ordinary character outside any string: no effect
        }
        proof {
            assert(step(prev_stack, prev_esc, c) == (Step::Next { stack: stack@, esc }));
        }
        if stack.len() == 0 {
            return Ok(i + 1);
        }
        i += 1;
    }
    if stack.len() == 0 {
        Ok(n)
    } else {
        Err(ScanError::Incomplete { stack_depth: stack.len() })
    }
}

// ---------------------------------------------------------------------------
// Laws
// ---------------------------------------------------------------------------

/// `o` opens the bracket pair that `c` closes.
pub open spec fn matching_pair(o: char, c: char) -> bool {
    (o == '{' && c == '}') || (o == '[' && c == ']') || (o == '(' && c == ')')
}

/// Text formed by concatenating matched bracket pairs in a validly nested
/// order: empty, or an opener, a matched body, the opener's closer, and a
/// matched rest.
pub open spec fn matched(s: Seq<char>) -> bool
    decreases s.len(),
{
    ||| s.len() == 0
    ||| exists|j: int|
        1 <= j < s.len() && matching_pair(s[0], s[j]) && matched(#[trigger] s.subrange(1, j))
            && matched(s.subrange(j + 1, s.len() as int))
}

/// Matched text that is one bracket pair around a matched body, so that no
/// shorter nonempty prefix is matched.
pub open spec fn primitive(s: Seq<char>) -> bool {
    s.len() >= 2 && matching_pair(s[0], s.last()) && matched(s.subrange(1, s.len() - 1))
}

/// Scanning a matched segment from a nonempty all-opener stack walks
/// through it without failing, without emptying the stack, and hands the
/// stack back unchanged.
proof fn lemma_scan_matched_segment(s: Seq<char>, i: int, j: int, st: Seq<char>)
    requires
        0 <= i <= j <= s.len(),
        matched(s.subrange(i, j)),
        st.len() > 0,
        forall|m: int| 0 <= m < st.len() ==> is_opener(#[trigger] st[m]),
    ensures
        scan_from(s, i, st, false) == scan_from(s, j, st, false),
    decreases j - i,
{
    let seg = s.subrange(i, j);
    if i < j {
        let jj = choose|jj: int|
            1 <= jj < seg.len() && matching_pair(seg[0], seg[jj]) && matched(
                #[trigger] seg.subrange(1, jj),
            ) && matched(seg.subrange(jj + 1, seg.len() as int));
        let o = seg[0];
        let c = seg[jj];
        assert(s[i] == o);
        assert(s[i + jj] == c);
        assert(is_opener(o));
        assert(!is_quote(st.last()));
        let st1 = st.push(o);
        assert(step(st, false, o) == (Step::Next { stack: st1, esc: false }));
        assert(scan_from(s, i, st, false) == scan_from(s, i + 1, st1, false));
        assert(seg.subrange(1, jj) =~= s.subrange(i + 1, i + jj));
        assert(forall|m: int| 0 <= m < st1.len() ==> is_opener(#[trigger] st1[m]));
        lemma_scan_matched_segment(s, i + 1, i + jj, st1);
        assert(st1.last() == o);
        assert(opener_char(closer_kind(c)) == o);
        assert(step(st1, false, c) == (Step::Next { stack: st1.drop_last(), esc: false }));
        assert(st1.drop_last() =~= st);
        assert(scan_from(s, i + jj, st1, false) == scan_from(s, i + jj + 1, st, false));
        assert(seg.subrange(jj + 1, seg.len() as int) =~= s.subrange(i + jj + 1, j));
        lemma_scan_matched_segment(s, i + jj + 1, j, st);
    }
}

/// Law: a text formed of matched bracket pairs, nested so that no shorter
/// nonempty prefix is already matched, scans as balanced over its whole
/// length — the scan accepts exactly at the end.
pub proof fn lemma_matched_scans_balanced(s: Seq<char>)
    requires
        matched(s),
        s.len() == 0 || primitive(s),
    ensures
        scan_spec(s) == (Outcome::Balanced { prefix_length: s.len() as int }),
{
    if s.len() > 0 {
        let o = s[0];
        let c = s.last();
        let st1 = Seq::<char>::empty().push(o);
        assert(is_opener(o));
        assert(step(Seq::<char>::empty(), false, o) == (Step::Next { stack: st1, esc: false }));
        assert(scan_spec(s) == scan_from(s, 1, st1, false));
        assert(s.subrange(1, s.len() - 1) == s.subrange(1, s.len() - 1));
        assert(forall|m: int| 0 <= m < st1.len() ==> is_opener(#[trigger] st1[m]));
        lemma_scan_matched_segment(s, 1, s.len() - 1, st1);
        assert(st1.last() == o);
        assert(opener_char(closer_kind(c)) == o);
        assert(step(st1, false, c) == (Step::Next { stack: st1.drop_last(), esc: false }));
        assert(st1.drop_last().len() == 0);
        assert(s[s.len() - 1] == c);
        assert(scan_from(s, s.len() - 1, st1, false) == (Outcome::Balanced {
            prefix_length: s.len() as int,
        }));
    }
}

/// From a nonempty stack of quote markers the scan never reports a
/// mismatch: every structural character is string content.
proof fn lemma_all_quotes_no_mismatch(s: Seq<char>, i: int, st: Seq<char>, esc: bool)
    requires
        0 <= i <= s.len(),
        st.len() > 0,
        forall|m: int| 0 <= m < st.len() ==> is_quote(#[trigger] st[m]),
    ensures
        !(scan_from(s, i, st, esc) is Mismatch),
    decreases s.len() - i,
{
    if i < s.len() {
        let c = s[i];
        if esc {
            lemma_all_quotes_no_mismatch(s, i + 1, st, false);
        } else if is_escape(c) {
            lemma_all_quotes_no_mismatch(s, i + 1, st, true);
        } else if is_quote(c) {
            if st.last() == c {
                let st2 = st.drop_last();
                if st2.len() > 0 {
                    assert(forall|m: int| 0 <= m < st2.len() ==> is_quote(#[trigger] st2[m]));
                    lemma_all_quotes_no_mismatch(s, i + 1, st2, false);
                }
            } else {
                let st2 = st.push(c);
                assert(forall|m: int| 0 <= m < st2.len() ==> is_quote(#[trigger] st2[m]));
                lemma_all_quotes_no_mismatch(s, i + 1, st2, false);
            }
        } else {
            assert(is_quote(st.last()));
            lemma_all_quotes_no_mismatch(s, i + 1, st, false);
        }
    }
}

/// Law: input that begins with a quote marker never yields a mismatched
/// delimiter.  Until that string closes, every bracket is opaque content;
/// if it closes, the scan succeeds there and then.
pub proof fn lemma_quoted_never_mismatches(s: Seq<char>)
    requires
        s.len() > 0,
        is_quote(s[0]),
    ensures
        !(scan_spec(s) is Mismatch),
{
    let st1 = Seq::<char>::empty().push(s[0]);
    assert(step(Seq::<char>::empty(), false, s[0]) == (Step::Next { stack: st1, esc: false }));
    assert(forall|m: int| 0 <= m < st1.len() ==> is_quote(#[trigger] st1[m]));
    lemma_all_quotes_no_mismatch(s, 1, st1, false);
}

/// Law: the character after an escape marker is consumed literally — it
/// never touches the stack, whatever it is; in particular an escaped quote
/// closes no string.  An unescaped escape marker only raises the flag.
pub proof fn lemma_escape_opaque(stack: Seq<char>, c: char)
    ensures
        step(stack, true, c) == (Step::Next { stack, esc: false }),
        step(stack, false, '\\') == (Step::Next { stack, esc: true }),
{
}

} // verus!
