use vstd::prelude::*;
use crate::chars::{digit_value, is_digit, is_name_char, is_name_start, is_space};
use crate::token::Lexeme;

verus! {

/// Why a text cannot be tokenized.
pub enum Fault {
    /// A character that starts no token.
    UnexpectedChar(char),
    /// A character glued onto a name that is neither a name character,
    /// whitespace nor `;`.
    UnexpectedNameChar(char),
    /// A digit run whose value does not fit in `i64`.
    NotAnInteger(Seq<char>),
    /// A `!` that is not followed by `=`.
    ExpectedEquals,
}

/// The error text reported for a fault.
pub open spec fn fault_message(f: Fault) -> Seq<char> {
    match f {
        Fault::UnexpectedChar(c) => "Unexpected character: "@ + seq![c],
        Fault::UnexpectedNameChar(c) => "Unexpected char "@ + seq![c],
        Fault::NotAnInteger(d) => "Not an integer "@ + d,
        Fault::ExpectedEquals => "Expected '=' after '!'"@,
    }
}

/// The decimal value of a digit string.
pub open spec fn decimal_value(d: Seq<char>) -> int
    decreases d.len(),
{
    if d.len() == 0 {
        0
    } else {
        decimal_value(d.drop_last()) * 10 + digit_value(d.last())
    }
}

/// Where a comment whose body starts at `i` ends: just past the first
/// newline or `#`, or at the end of the text.
pub open spec fn comment_end(s: Seq<char>, i: int) -> int
    decreases s.len() - i,
{
    if i < 0 || i >= s.len() {
        s.len() as int
    } else if s[i] == '\n' || s[i] == '#' {
        i + 1
    } else {
        comment_end(s, i + 1)
    }
}

/// Where the run of whitespace and comments that starts at `i` ends.
pub open spec fn blank_end(s: Seq<char>, i: int) -> int
    decreases s.len() - i,
    via blank_end_decreases
{
    if i < 0 || i >= s.len() {
        i
    } else if is_space(s[i]) {
        blank_end(s, i + 1)
    } else if s[i] == '#' {
        blank_end(s, comment_end(s, i + 1))
    } else {
        i
    }
}

#[via_fn]
proof fn blank_end_decreases(s: Seq<char>, i: int) {
    if 0 <= i < s.len() && !is_space(s[i]) && s[i] == '#' {
        lemma_comment_end_bounds(s, i + 1);
    }
}

pub proof fn lemma_comment_end_bounds(s: Seq<char>, i: int)
    requires
        0 <= i <= s.len(),
    ensures
        i <= comment_end(s, i) <= s.len(),
        i < s.len() ==> i < comment_end(s, i),
    decreases s.len() - i,
{
    if i < s.len() && !(s[i] == '\n' || s[i] == '#') {
        lemma_comment_end_bounds(s, i + 1);
    }
}

pub proof fn lemma_blank_end_bounds(s: Seq<char>, i: int)
    requires
        0 <= i <= s.len(),
    ensures
        i <= blank_end(s, i) <= s.len(),
    decreases s.len() - i,
{
    if i < s.len() {
        if is_space(s[i]) {
            lemma_blank_end_bounds(s, i + 1);
        } else if s[i] == '#' {
            lemma_comment_end_bounds(s, i + 1);
            lemma_blank_end_bounds(s, comment_end(s, i + 1));
        }
    }
}

/// The end of the run of characters satisfying `p` that starts at `i`.
pub open spec fn run_end(s: Seq<char>, i: int, p: spec_fn(char) -> bool) -> int
    decreases s.len() - i,
{
    if i < 0 || i >= s.len() || !p(s[i]) {
        i
    } else {
        run_end(s, i + 1, p)
    }
}

pub proof fn lemma_run_end(s: Seq<char>, i: int, p: spec_fn(char) -> bool)
    requires
        0 <= i <= s.len(),
    ensures
        i <= run_end(s, i, p) <= s.len(),
        forall|k: int| i <= k < run_end(s, i, p) ==> p(#[trigger] s[k]),
        run_end(s, i, p) < s.len() ==> !p(s[run_end(s, i, p)]),
    decreases s.len() - i,
{
    if i < s.len() && p(s[i]) {
        lemma_run_end(s, i + 1, p);
    }
}

/// The end of the digit run that starts at `i`.
pub open spec fn digit_run_end(s: Seq<char>, i: int) -> int {
    run_end(s, i, |c: char| is_digit(c))
}

/// The end of the run of name characters that starts at `i`.
pub open spec fn name_run_end(s: Seq<char>, i: int) -> int {
    run_end(s, i, |c: char| is_name_char(c))
}

pub proof fn lemma_digit_run_end(s: Seq<char>, i: int)
    requires
        0 <= i <= s.len(),
    ensures
        i <= digit_run_end(s, i) <= s.len(),
        forall|k: int| i <= k < digit_run_end(s, i) ==> is_digit(#[trigger] s[k]),
        digit_run_end(s, i) < s.len() ==> !is_digit(s[digit_run_end(s, i)]),
        i < s.len() && is_digit(s[i]) ==> digit_run_end(s, i) == digit_run_end(s, i + 1),
        i < s.len() && !is_digit(s[i]) ==> digit_run_end(s, i) == i,
        i == s.len() ==> digit_run_end(s, i) == i,
{
    lemma_run_end(s, i, |c: char| is_digit(c));
}

pub proof fn lemma_name_run_end(s: Seq<char>, i: int)
    requires
        0 <= i <= s.len(),
    ensures
        i <= name_run_end(s, i) <= s.len(),
        forall|k: int| i <= k < name_run_end(s, i) ==> is_name_char(#[trigger] s[k]),
        name_run_end(s, i) < s.len() ==> !is_name_char(s[name_run_end(s, i)]),
        i < s.len() && is_name_char(s[i]) ==> name_run_end(s, i) == name_run_end(s, i + 1),
        i < s.len() && !is_name_char(s[i]) ==> name_run_end(s, i) == i,
        i == s.len() ==> name_run_end(s, i) == i,
{
    lemma_run_end(s, i, |c: char| is_name_char(c));
}

/// A longer digit string has a value at least as large.
pub proof fn lemma_decimal_value_grows(s: Seq<char>, a: int, b: int, c: int)
    requires
        0 <= a <= b <= c <= s.len(),
        forall|k: int| a <= k < c ==> is_digit(#[trigger] s[k]),
    ensures
        0 <= decimal_value(s.subrange(a, b)) <= decimal_value(s.subrange(a, c)),
    decreases c - a,
{
    if c > a {
        assert(s.subrange(a, c).drop_last() =~= s.subrange(a, c - 1));
        if b < c {
            lemma_decimal_value_grows(s, a, b, c - 1);
        } else {
            lemma_decimal_value_grows(s, a, b - 1, c - 1);
        }
    }
}

/// The token a complete name stands for.
pub open spec fn name_lexeme(t: Seq<char>) -> Lexeme {
    if t == seq!['i', 'f'] {
        Lexeme::If
    } else if t == seq!['e', 'l', 's', 'e'] {
        Lexeme::Else
    } else {
        Lexeme::Identifier(t)
    }
}

/// The token of a character that forms one on its own.
pub open spec fn single_lexeme(c: char) -> Option<Lexeme> {
    if c == '+' {
        Some(Lexeme::Plus)
    } else if c == '-' {
        Some(Lexeme::Minus)
    } else if c == '*' {
        Some(Lexeme::Multiply)
    } else if c == '/' {
        Some(Lexeme::Divide)
    } else if c == '(' {
        Some(Lexeme::LeftParen)
    } else if c == ')' {
        Some(Lexeme::RightParen)
    } else if c == '{' {
        Some(Lexeme::LeftBrace)
    } else if c == '}' {
        Some(Lexeme::RightBrace)
    } else if c == ';' {
        Some(Lexeme::Semicolon)
    } else if c == ',' {
        Some(Lexeme::Comma)
    } else {
        None
    }
}

/// Whether the character at `i` is `=`.
pub open spec fn equals_at(s: Seq<char>, i: int) -> bool {
    0 <= i < s.len() && s[i] == '='
}

/// The one- or two-character operator that starts with `c` (one of
/// `= < > !`) at position `i`, where `i + 1` is looked ahead at.
pub open spec fn operator_at(s: Seq<char>, i: int, c: char) -> Result<(Lexeme, int), Fault> {
    let two = equals_at(s, i + 1);
    if c == '=' {
        if two { Ok((Lexeme::Equal, i + 2)) } else { Ok((Lexeme::Assign, i + 1)) }
    } else if c == '<' {
        if two { Ok((Lexeme::LessThanOrEqual, i + 2)) } else { Ok((Lexeme::LessThan, i + 1)) }
    } else if c == '>' {
        if two { Ok((Lexeme::GreaterThanOrEqual, i + 2)) } else { Ok((Lexeme::GreaterThan, i + 1)) }
    } else {
        if two { Ok((Lexeme::NotEqual, i + 2)) } else { Err(Fault::ExpectedEquals) }
    }
}

/// The integer literal whose first digit is at `i`.
pub open spec fn number_at(s: Seq<char>, i: int) -> Result<(Lexeme, int), Fault> {
    let e = digit_run_end(s, i + 1);
    let d = s.subrange(i, e);
    if decimal_value(d) <= i64::MAX {
        Ok((Lexeme::IntLiteral(decimal_value(d) as i64), e))
    } else {
        Err(Fault::NotAnInteger(d))
    }
}

/// The name or keyword whose first character is at `i`. The run must
/// end at the end of the text, at whitespace or at `;`.
pub open spec fn name_at(s: Seq<char>, i: int) -> Result<(Lexeme, int), Fault> {
    let e = name_run_end(s, i + 1);
    if e < s.len() && !(is_space(s[e]) || s[e] == ';') {
        Err(Fault::UnexpectedNameChar(s[e]))
    } else {
        Ok((name_lexeme(s.subrange(i, e)), e))
    }
}

/// The token that starts at `i` and where it ends.
pub open spec fn token_at(s: Seq<char>, i: int) -> Result<(Lexeme, int), Fault> {
    let c = s[i];
    if is_digit(c) {
        number_at(s, i)
    } else if is_name_start(c) {
        name_at(s, i)
    } else if c == '=' || c == '<' || c == '>' || c == '!' {
        operator_at(s, i, c)
    } else if single_lexeme(c) is Some {
        Ok((single_lexeme(c)->Some_0, i + 1))
    } else {
        Err(Fault::UnexpectedChar(c))
    }
}

/// One scanning step from `i`: skip whitespace and comments, then read
/// a token, or `EOF` at the end of the text.
pub open spec fn scan(s: Seq<char>, i: int) -> Result<(Lexeme, int), Fault> {
    let j = blank_end(s, i);
    if j >= s.len() {
        Ok((Lexeme::EOF, s.len() as int))
    } else {
        token_at(s, j)
    }
}

pub proof fn lemma_token_at_advances(s: Seq<char>, i: int)
    requires
        0 <= i < s.len(),
    ensures
        token_at(s, i) is Ok ==> i < token_at(s, i)->Ok_0.1 <= s.len(),
        token_at(s, i) is Ok ==> token_at(s, i)->Ok_0.0 != Lexeme::EOF,
{
    lemma_digit_run_end(s, i + 1);
    lemma_name_run_end(s, i + 1);
}

pub proof fn lemma_scan_advances(s: Seq<char>, i: int)
    requires
        0 <= i <= s.len(),
    ensures
        scan(s, i) is Ok ==> i <= scan(s, i)->Ok_0.1 <= s.len(),
        scan(s, i) is Ok && scan(s, i)->Ok_0.0 != Lexeme::EOF ==> i < scan(s, i)->Ok_0.1,
{
    lemma_blank_end_bounds(s, i);
    let j = blank_end(s, i);
    if j < s.len() {
        lemma_token_at_advances(s, j);
    }
}

/// The tokens of the text from `i` on, or the first fault.
pub open spec fn lex_from(s: Seq<char>, i: int) -> Result<Seq<Lexeme>, Fault>
    decreases s.len() - i,
    via lex_from_decreases
{
    if i < 0 || i > s.len() {
        Ok(Seq::empty())
    } else {
        match scan(s, i) {
            Err(f) => Err(f),
            Ok((t, k)) => if t == Lexeme::EOF {
                Ok(Seq::empty())
            } else {
                match lex_from(s, k) {
                    Err(f) => Err(f),
                    Ok(rest) => Ok(seq![t] + rest),
                }
            },
        }
    }
}

#[via_fn]
proof fn lex_from_decreases(s: Seq<char>, i: int) {
    if 0 <= i <= s.len() {
        lemma_scan_advances(s, i);
    }
}

/// The tokens of a whole text, or the first fault in it.
pub open spec fn lex(s: Seq<char>) -> Result<Seq<Lexeme>, Fault> {
    lex_from(s, 0)
}

} // verus!
