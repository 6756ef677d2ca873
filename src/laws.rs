use vstd::prelude::*;
use crate::chars::{is_digit, is_name_char, is_name_start, is_space};
use crate::grammar::{
    blank_end, comment_end, decimal_value, lemma_digit_run_end, lemma_name_run_end, lex,
    lex_from, name_lexeme, Fault,
};
use crate::lexer::{lexemes, tokenized};
use crate::token::{Lexeme, Token};

verus! {

/// Whether `c` closes a comment.
pub open spec fn closes_comment(c: char) -> bool {
    c == '\n' || c == '#'
}

/// A comment closed by a newline or by a second `#`.
pub open spec fn is_closed_comment(p: Seq<char>) -> bool {
    &&& p.len() >= 2
    &&& p[0] == '#'
    &&& closes_comment(p.last())
    &&& forall|k: int| 1 <= k < p.len() - 1 ==> !closes_comment(#[trigger] p[k])
}

/// A comment that runs to the end of the text.
pub open spec fn is_open_comment(p: Seq<char>) -> bool {
    &&& p.len() >= 1
    &&& p[0] == '#'
    &&& forall|k: int| 1 <= k < p.len() ==> !closes_comment(#[trigger] p[k])
}

/// One whitespace character, or a closed comment.
pub open spec fn is_blank_piece(p: Seq<char>) -> bool {
    (p.len() == 1 && is_space(p[0])) || is_closed_comment(p)
}

/// Pieces that make a text of whitespace and comments only; the last
/// comment may run to the end.
pub open spec fn blank_pieces(pieces: Seq<Seq<char>>) -> bool {
    forall|i: int|
        0 <= i < pieces.len() ==> is_blank_piece(#[trigger] pieces[i]) || (i == pieces.len() - 1
            && is_open_comment(pieces[i]))
}

proof fn lemma_closed_comment_end(s: Seq<char>, j: int, e: int)
    requires
        0 <= j < e <= s.len(),
        forall|k: int| j <= k < e - 1 ==> !closes_comment(#[trigger] s[k]),
        closes_comment(s[e - 1]),
    ensures
        comment_end(s, j) == e,
    decreases e - j,
{
    if j < e - 1 {
        lemma_closed_comment_end(s, j + 1, e);
    }
}

proof fn lemma_open_comment_end(s: Seq<char>, j: int)
    requires
        0 <= j <= s.len(),
        forall|k: int| j <= k < s.len() ==> !closes_comment(#[trigger] s[k]),
    ensures
        comment_end(s, j) == s.len(),
    decreases s.len() - j,
{
    if j < s.len() {
        lemma_open_comment_end(s, j + 1);
    }
}

proof fn lemma_blank_pieces_skipped(s: Seq<char>, i: int, pieces: Seq<Seq<char>>)
    requires
        0 <= i <= s.len(),
        s.subrange(i, s.len() as int) == pieces.flatten(),
        blank_pieces(pieces),
    ensures
        blank_end(s, i) == s.len(),
    decreases pieces.len(),
{
    if pieces.len() == 0 {
        assert(s.subrange(i, s.len() as int).len() == 0);
    } else {
        let p = pieces[0];
        let rest = pieces.drop_first();
        assert(pieces.flatten() == p + rest.flatten());
        assert(s[i] == p[0]) by {
            assert(s.subrange(i, s.len() as int)[0] == s[i]);
        }
        assert forall|k: int| 0 <= k < p.len() implies s[i + k] == #[trigger] p[k] by {
            assert(s.subrange(i, s.len() as int)[k] == s[i + k]);
        }
        let e = i + p.len();
        assert(s.subrange(e, s.len() as int) =~= rest.flatten()) by {
            assert forall|k: int| 0 <= k < s.len() - e implies s.subrange(e, s.len() as int)[k]
                == rest.flatten()[k] by {
                assert(s.subrange(i, s.len() as int)[p.len() + k] == s[e + k]);
            }
        }
        assert(blank_pieces(rest)) by {
            assert forall|k: int| 0 <= k < rest.len() implies is_blank_piece(#[trigger] rest[k])
                || (k == rest.len() - 1 && is_open_comment(rest[k])) by {
                assert(rest[k] == pieces[k + 1]);
            }
        }
        assert(!is_space('#'));
        if p.len() == 1 && is_space(p[0]) {
            lemma_blank_pieces_skipped(s, e, rest);
            assert(blank_end(s, i) == blank_end(s, i + 1));
        } else if is_closed_comment(p) {
            assert forall|k: int| i + 1 <= k < e - 1 implies !closes_comment(#[trigger] s[k]) by {
                assert(s[i + (k - i)] == p[k - i]);
            }
            assert(s[e - 1] == p[p.len() - 1]);
            lemma_closed_comment_end(s, i + 1, e);
            lemma_blank_pieces_skipped(s, e, rest);
            assert(blank_end(s, i) == blank_end(s, e));
        } else {
            assert(is_open_comment(p));
            assert(rest.len() == 0);
            assert(rest.flatten().len() == 0);
            assert(e == s.len());
            assert forall|k: int| i + 1 <= k < s.len() implies !closes_comment(#[trigger] s[k]) by {
                assert(s[i + (k - i)] == p[k - i]);
            }
            lemma_open_comment_end(s, i + 1);
            assert(blank_end(s, i) == blank_end(s, s.len() as int));
        }
    }
}

/// A text made only of whitespace and comments has no tokens.
pub proof fn lemma_blank_text_has_no_tokens(pieces: Seq<Seq<char>>)
    requires
        blank_pieces(pieces),
    ensures
        lex(pieces.flatten()) == Ok::<Seq<Lexeme>, Fault>(Seq::empty()),
{
    let s = pieces.flatten();
    assert(s.subrange(0, s.len() as int) =~= s);
    lemma_blank_pieces_skipped(s, 0, pieces);
}

/// A text that is one run of digits is one integer literal of its decimal
/// value, or, where that value exceeds `i64::MAX`, fails as not an integer.
pub proof fn lemma_digit_run_is_one_literal(d: Seq<char>)
    requires
        d.len() >= 1,
        forall|k: int| 0 <= k < d.len() ==> is_digit(#[trigger] d[k]),
    ensures
        decimal_value(d) <= i64::MAX ==> lex(d) == Ok::<Seq<Lexeme>, Fault>(
            seq![Lexeme::IntLiteral(decimal_value(d) as i64)],
        ),
        decimal_value(d) > i64::MAX ==> lex(d) == Err::<Seq<Lexeme>, Fault>(
            Fault::NotAnInteger(d),
        ),
{
    assert(!is_space(d[0]));
    lemma_digit_run_end(d, 1);
    assert(d.subrange(0, d.len() as int) =~= d);
    assert(lex_from(d, d.len() as int) == Ok::<Seq<Lexeme>, Fault>(Seq::empty()));
    assert(seq![Lexeme::IntLiteral(decimal_value(d) as i64)] + Seq::<Lexeme>::empty()
        =~= seq![Lexeme::IntLiteral(decimal_value(d) as i64)]);
}

/// A text that is one name is one token: its keyword, or an identifier
/// with the same text.
pub proof fn lemma_name_is_one_token(s: Seq<char>)
    requires
        s.len() >= 1,
        is_name_start(s[0]),
        forall|k: int| 1 <= k < s.len() ==> is_name_char(#[trigger] s[k]),
    ensures
        lex(s) == Ok::<Seq<Lexeme>, Fault>(seq![name_lexeme(s)]),
        s != seq!['i', 'f'] && s != seq!['e', 'l', 's', 'e'] ==> lex(s) == Ok::<Seq<Lexeme>, Fault>(
            seq![Lexeme::Identifier(s)],
        ),
{
    assert(!is_space(s[0]));
    lemma_name_run_end(s, 1);
    assert(s.subrange(0, s.len() as int) =~= s);
    assert(lex_from(s, s.len() as int) == Ok::<Seq<Lexeme>, Fault>(Seq::empty()));
    assert(seq![name_lexeme(s)] + Seq::<Lexeme>::empty() =~= seq![name_lexeme(s)]);
}

/// Two results that both meet `tokenize`'s contract for one text agree:
/// the same tokens, or the same error message.
pub proof fn lemma_tokenize_repeatable(
    s: Seq<char>,
    r1: Result<Vec<Token>, String>,
    r2: Result<Vec<Token>, String>,
)
    requires
        tokenized(s, r1),
        tokenized(s, r2),
    ensures
        r1 is Ok <==> r2 is Ok,
        r1 is Ok ==> lexemes(r1->Ok_0@) == lexemes(r2->Ok_0@),
        r1 is Err ==> r1->Err_0@ == r2->Err_0@,
{
}

} // verus!
