use vstd::prelude::*;
use vstd::std_specs::iter::IteratorSpec;
use vstd::string::{StrSliceExecFns, StringExecFns};
use crate::chars::{char_is_digit, char_is_name_char, char_is_space, is_digit, is_name_start};
use crate::grammar::{
    blank_end, comment_end, decimal_value, digit_run_end, fault_message, lemma_comment_end_bounds,
    lemma_decimal_value_grows, lemma_digit_run_end, lemma_name_run_end, lemma_scan_advances,
    lex, lex_from, name_at, name_run_end, number_at, operator_at, scan, Fault,
};
use crate::token::{Lexeme, Token};

verus! {

/// What a scanning step returned agrees with the model's outcome `m`,
/// and the cursor stands at `end` after it.
pub open spec fn agrees(r: Result<Token, String>, m: Result<(Lexeme, int), Fault>, end: int) -> bool {
    match m {
        Ok((t, k)) => r is Ok && r->Ok_0@ == t && end == k,
        Err(f) => r is Err && r->Err_0@ == fault_message(f),
    }
}

/// A cursor over the characters of a source text.
pub struct Lexer<'a> {
    input: &'a str,
    chars: Vec<char>,
    pos: usize,
}

impl<'a> Lexer<'a> {
    /// The characters being scanned.
    pub closed spec fn text(&self) -> Seq<char> {
        self.chars@
    }

    /// How many characters have been consumed.
    pub closed spec fn position(&self) -> int {
        self.pos as int
    }

    pub closed spec fn wf(&self) -> bool {
        &&& self.chars@ == self.input@
        &&& self.pos <= self.chars.len()
    }

    /// A lexer at the start of `input`.
    pub fn new(input: &'a str) -> (l: Lexer<'a>)
        ensures
            l.wf(),
            l.text() == input@,
            l.position() == 0,
    {
        broadcast use vstd::string::axiom_spec_iter, vstd::string::next_postcondition;

        let mut chars: Vec<char> = Vec::new();
        let mut it = input.chars();
        loop
            invariant
                chars@ + it.remaining() == input@,
            ensures
                chars@ == input@,
            decreases input@.len() - chars@.len(),
        {
            match it.next() {
                Some(c) => {
                    chars.push(c);
                },
                None => {
                    break;
                },
            }
        }
        Lexer { input, chars, pos: 0 }
    }

    fn skip_whitespace_and_comments(&mut self)
        requires
            old(self).wf(),
        ensures
            final(self).wf(),
            final(self).text() == old(self).text(),
            final(self).position() == blank_end(old(self).text(), old(self).position()),
    {
        let ghost s = self.chars@;
        let ghost start = self.pos as int;
        let n = self.chars.len();
        while self.pos < n
            invariant
                self.wf(),
                self.chars@ == s,
                n == s.len(),
                start <= self.pos,
                blank_end(s, self.pos as int) == blank_end(s, start),
            ensures
                self.pos == blank_end(s, start),
            decreases n - self.pos,
        {
            let ch = self.chars[self.pos];
            if char_is_space(ch) {
                self.pos = self.pos + 1;
            } else if ch == '#' {
                let ghost before = self.pos;
                self.pos = self.pos + 1;
                proof {
                    lemma_comment_end_bounds(s, self.pos as int);
                }
                while self.pos < n
                    invariant_except_break
                        blank_end(s, comment_end(s, self.pos as int)) == blank_end(s, start),
                    invariant
                        self.wf(),
                        self.chars@ == s,
                        n == s.len(),
                        start < self.pos,
                        before < self.pos,
                    ensures
                        blank_end(s, self.pos as int) == blank_end(s, start),
                    decreases n - self.pos,
                {
                    let c = self.chars[self.pos];
                    self.pos = self.pos + 1;
                    if c == '\n' || c == '#' {
                        break;
                    }
                }
            } else {
                break;
            }
        }
    }

    fn next_token(&mut self) -> (r: Result<Token, String>)
        requires
            old(self).wf(),
        ensures
            final(self).wf(),
            final(self).text() == old(self).text(),
            agrees(r, scan(old(self).text(), old(self).position()), final(self).position()),
    {
        self.skip_whitespace_and_comments();
        if self.pos >= self.chars.len() {
            return Ok(Token::EOF);
        }
        let ch = self.chars[self.pos];
        self.pos = self.pos + 1;
        match ch {
            '0'..='9' => self.lex_number(ch),
            'a'..='z' | 'A'..='Z' | '_' => self.lex_identifier_or_keyword(ch),
            '+' => Ok(Token::Plus),
            '-' => Ok(Token::Minus),
            '*' => Ok(Token::Multiply),
            '/' => Ok(Token::Divide),
            '=' => self.lex_equals_or_assign(),
            '<' => self.lex_less_than(),
            '>' => self.lex_greater_than(),
            '(' => Ok(Token::LeftParen),
            ')' => Ok(Token::RightParen),
            '{' => Ok(Token::LeftBrace),
            '}' => Ok(Token::RightBrace),
            ';' => Ok(Token::Semicolon),
            ',' => Ok(Token::Comma),
            '!' => self.lex_not_equal(),
            _ => {
                let stray = self.input.substring_char(self.pos - 1, self.pos);
                assert(stray@ =~= seq![ch]);
                Err(String::from_str("Unexpected character: ").concat(stray))
            },
        }
    }

    fn lex_number(&mut self, first_digit: char) -> (r: Result<Token, String>)
        requires
            old(self).wf(),
            1 <= old(self).position(),
            old(self).text()[old(self).position() - 1] == first_digit,
            is_digit(first_digit),
        ensures
            final(self).wf(),
            final(self).text() == old(self).text(),
            agrees(r, number_at(old(self).text(), old(self).position() - 1), final(self).position()),
    {
        let ghost s = self.chars@;
        let start = self.pos - 1;
        let n = self.chars.len();
        proof {
            lemma_digit_run_end(s, start + 1);
        }
        while self.pos < n && char_is_digit(self.chars[self.pos])
            invariant
                self.wf(),
                self.chars@ == s,
                n == s.len(),
                start < self.pos <= n,
                digit_run_end(s, self.pos as int) == digit_run_end(s, start + 1),
            decreases n - self.pos,
        {
            proof {
                lemma_digit_run_end(s, self.pos as int);
            }
            self.pos = self.pos + 1;
        }
        proof {
            lemma_digit_run_end(s, self.pos as int);
            lemma_digit_run_end(s, start + 1);
        }
        let end = self.pos;
        let mut value: i64 = 0;
        let mut k: usize = start;
        while k < end
            invariant
                self.wf(),
                self.chars@ == s,
                old(self).text() == s,
                old(self).position() == start + 1,
                start <= k <= end <= s.len(),
                end == digit_run_end(s, start + 1),
                forall|i: int| start <= i < end ==> is_digit(#[trigger] s[i]),
                value == decimal_value(s.subrange(start as int, k as int)),
            decreases end - k,
        {
            let d = (self.chars[k] as u32 - '0' as u32) as i64;
            assert(s.subrange(start as int, k + 1).drop_last() =~= s.subrange(start as int, k as int));
            let next = match value.checked_mul(10) {
                Some(v) => v.checked_add(d),
                None => None,
            };
            match next {
                Some(v) => {
                    value = v;
                },
                None => {
                    proof {
                        lemma_decimal_value_grows(s, start as int, k as int, k as int);
                        lemma_decimal_value_grows(s, start as int, k + 1, end as int);
                    }
                    let digits = self.input.substring_char(start, end);
                    return Err(String::from_str("Not an integer ").concat(digits));
                },
            }
            k = k + 1;
        }
        assert(s.subrange(start as int, k as int) == s.subrange(start as int, end as int));
        Ok(Token::IntLiteral(value))
    }

    fn lex_identifier_or_keyword(&mut self, first_char: char) -> (r: Result<Token, String>)
        requires
            old(self).wf(),
            1 <= old(self).position(),
            old(self).text()[old(self).position() - 1] == first_char,
            is_name_start(first_char),
        ensures
            final(self).wf(),
            final(self).text() == old(self).text(),
            agrees(r, name_at(old(self).text(), old(self).position() - 1), final(self).position()),
    {
        let ghost s = self.chars@;
        let start = self.pos - 1;
        let n = self.chars.len();
        proof {
            lemma_name_run_end(s, start + 1);
        }
        while self.pos < n && char_is_name_char(self.chars[self.pos])
            invariant
                self.wf(),
                self.chars@ == s,
                n == s.len(),
                start < self.pos <= n,
                name_run_end(s, self.pos as int) == name_run_end(s, start + 1),
            decreases n - self.pos,
        {
            proof {
                lemma_name_run_end(s, self.pos as int);
            }
            self.pos = self.pos + 1;
        }
        proof {
            lemma_name_run_end(s, self.pos as int);
        }
        if self.pos < n {
            let ch = self.chars[self.pos];
            if !(char_is_space(ch) || ch == ';') {
                let glued = self.input.substring_char(self.pos, self.pos + 1);
                assert(glued@ =~= seq![ch]);
                return Err(String::from_str("Unexpected char ").concat(glued));
            }
        }
        let ghost t = s.subrange(start as int, self.pos as int);
        let len = self.pos - start;
        if len == 2 && self.chars[start] == 'i' && self.chars[start + 1] == 'f' {
            assert(t =~= seq!['i', 'f']);
            Ok(Token::If)
        } else if len == 4 && self.chars[start] == 'e' && self.chars[start + 1] == 'l'
            && self.chars[start + 2] == 's' && self.chars[start + 3] == 'e' {
            assert(t =~= seq!['e', 'l', 's', 'e']);
            Ok(Token::Else)
        } else {
            assert(t != seq!['i', 'f'] && t != seq!['e', 'l', 's', 'e']) by {
                let kw_if = seq!['i', 'f'];
                let kw_else = seq!['e', 'l', 's', 'e'];
                assert(kw_if.len() == 2 && kw_if[0] == 'i' && kw_if[1] == 'f');
                assert(kw_else.len() == 4 && kw_else[0] == 'e' && kw_else[1] == 'l' && kw_else[2]
                    == 's' && kw_else[3] == 'e');
                assert(t.len() == len);
                if t.len() >= 2 {
                    assert(t[0] == s[start as int] && t[1] == s[start + 1]);
                }
                if t.len() >= 4 {
                    assert(t[2] == s[start + 2] && t[3] == s[start + 3]);
                }
            }
            let name = self.input.substring_char(start, self.pos);
            Ok(Token::Identifier(String::from_str(name)))
        }
    }

    /// Whether the next character is `=`; if so it is consumed.
    fn take_equals(&mut self) -> (r: bool)
        requires
            old(self).wf(),
        ensures
            final(self).wf(),
            final(self).text() == old(self).text(),
            r == (old(self).position() < old(self).text().len()
                && old(self).text()[old(self).position()] == '='),
            final(self).position() == if r {
                old(self).position() + 1
            } else {
                old(self).position()
            },
    {
        if self.pos < self.chars.len() && self.chars[self.pos] == '=' {
            self.pos = self.pos + 1;
            true
        } else {
            false
        }
    }

    fn lex_equals_or_assign(&mut self) -> (r: Result<Token, String>)
        requires
            old(self).wf(),
            1 <= old(self).position(),
            old(self).text()[old(self).position() - 1] == '=',
        ensures
            final(self).wf(),
            final(self).text() == old(self).text(),
            agrees(r, operator_at(old(self).text(), old(self).position() - 1, '='), final(self).position()),
    {
        if self.take_equals() {
            Ok(Token::Equal)
        } else {
            Ok(Token::Assign)
        }
    }

    fn lex_less_than(&mut self) -> (r: Result<Token, String>)
        requires
            old(self).wf(),
            1 <= old(self).position(),
            old(self).text()[old(self).position() - 1] == '<',
        ensures
            final(self).wf(),
            final(self).text() == old(self).text(),
            agrees(r, operator_at(old(self).text(), old(self).position() - 1, '<'), final(self).position()),
    {
        if self.take_equals() {
            Ok(Token::LessThanOrEqual)
        } else {
            Ok(Token::LessThan)
        }
    }

    fn lex_greater_than(&mut self) -> (r: Result<Token, String>)
        requires
            old(self).wf(),
            1 <= old(self).position(),
            old(self).text()[old(self).position() - 1] == '>',
        ensures
            final(self).wf(),
            final(self).text() == old(self).text(),
            agrees(r, operator_at(old(self).text(), old(self).position() - 1, '>'), final(self).position()),
    {
        if self.take_equals() {
            Ok(Token::GreaterThanOrEqual)
        } else {
            Ok(Token::GreaterThan)
        }
    }

    fn lex_not_equal(&mut self) -> (r: Result<Token, String>)
        requires
            old(self).wf(),
            1 <= old(self).position(),
            old(self).text()[old(self).position() - 1] == '!',
        ensures
            final(self).wf(),
            final(self).text() == old(self).text(),
            agrees(r, operator_at(old(self).text(), old(self).position() - 1, '!'), final(self).position()),
    {
        if self.take_equals() {
            Ok(Token::NotEqual)
        } else {
            Err(String::from_str("Expected '=' after '!'"))
        }
    }
}

/// The values of a sequence of tokens.
pub open spec fn lexemes(v: Seq<Token>) -> Seq<Lexeme> {
    v.map_values(|t: Token| t@)
}

/// `r` is what the model `lex` gives for the text `s`: its tokens in
/// order, or the message of its first fault.
pub open spec fn tokenized(s: Seq<char>, r: Result<Vec<Token>, String>) -> bool {
    match lex(s) {
        Ok(ts) => r is Ok && lexemes(r->Ok_0@) == ts,
        Err(f) => r is Err && r->Err_0@ == fault_message(f),
    }
}

/// Splits `input` into tokens, `EOF` left out, or fails with the message
/// of the first fault.
pub fn tokenize(input: &str) -> (r: Result<Vec<Token>, String>)
    ensures
        tokenized(input@, r),
{
    let ghost s = input@;
    let mut lexer = Lexer::new(input);
    let mut tokens: Vec<Token> = Vec::new();
    loop
        invariant
            lexer.wf(),
            s == input@,
            lexer.text() == s,
            0 <= lexer.position() <= s.len(),
            match lex_from(s, lexer.position()) {
                Ok(rest) => lex(s) == Ok::<Seq<Lexeme>, Fault>(lexemes(tokens@) + rest),
                Err(f) => lex(s) == Err::<Seq<Lexeme>, Fault>(f),
            },
        ensures
            lex(s) == Ok::<Seq<Lexeme>, Fault>(lexemes(tokens@)),
        decreases s.len() - lexer.position(),
    {
        let ghost p = lexer.position();
        proof {
            lemma_scan_advances(s, p);
        }
        match lexer.next_token() {
            Ok(Token::EOF) => {
                assert(lexemes(tokens@) + Seq::<Lexeme>::empty() =~= lexemes(tokens@));
                break;
            },
            Ok(t) => {
                let ghost before = tokens@;
                tokens.push(t);
                proof {
                    assert(lexemes(tokens@) =~= lexemes(before).push(t@));
                    if let Ok(rest) = lex_from(s, lexer.position()) {
                        assert(lexemes(before) + (seq![t@] + rest) =~= lexemes(tokens@) + rest);
                    }
                }
            },
            Err(e) => {
                assert(lex_from(s, p) == Err::<Seq<Lexeme>, Fault>(scan(s, p)->Err_0));
                return Err(e);
            },
        }
    }
    Ok(tokens)
}

} // verus!
