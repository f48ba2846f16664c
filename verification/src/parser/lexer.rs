//! The lexer.  It turns program text into the ordered token sequence
//! that the parser consumes.
//!
//! The whole program is wrapped in an implicit sequence form, so
//! top-level forms are always sequence elements.  A `;` begins a line
//! comment that runs to the end of the line.

use vstd::prelude::*;
use crate::parser::token_types::{toks_view, AtomBinary, Token, TokenV};

verus! {

/// Whitespace separates words and is otherwise ignored.
pub open spec fn is_space(c: char) -> bool {
    c == ' ' || c == '\t' || c == '\r' || c == '\n'
}

/// Characters that form a token of their own wherever they stand,
/// even in the middle of a word.  `;` is among them: it opens a
/// comment instead of producing a token.
pub open spec fn is_single_delim(c: char) -> bool {
    c == '(' || c == ')' || c == '[' || c == ']' || c == '.' || c == '`' || c == '\'' || c == '@'
        || c == ';' || c == '|'
}

/// The characters that may follow `$` in an atomic operator.
/// `|` is not among them: it is a single delimiter first, so a `$`
/// before it lexes as the word `$`.
pub open spec fn is_op_char(c: char) -> bool {
    c == '+' || c == '-' || c == '*' || c == '/' || c == '=' || c == '<' || c == '!' || c == '&'
}

/// The operator named by the character after `$`.
pub open spec fn op_of(c: char) -> AtomBinary {
    if c == '+' {
        AtomBinary::Add
    } else if c == '-' {
        AtomBinary::Sub
    } else if c == '*' {
        AtomBinary::Mul
    } else if c == '/' {
        AtomBinary::Div
    } else if c == '=' {
        AtomBinary::Eq
    } else if c == '<' {
        AtomBinary::Lt
    } else if c == '!' {
        AtomBinary::Not
    } else {
        AtomBinary::And
    }
}

/// The token produced by a single delimiter character other than `;`.
pub open spec fn delim_token(c: char) -> TokenV {
    if c == '(' {
        TokenV::LeftPar
    } else if c == ')' {
        TokenV::RightPar
    } else if c == '[' {
        TokenV::LeftBkt
    } else if c == ']' {
        TokenV::RightBkt
    } else if c == '.' {
        TokenV::Dot
    } else if c == '`' {
        TokenV::Grave
    } else if c == '\'' {
        TokenV::Quote
    } else if c == '@' {
        TokenV::At
    } else {
        TokenV::Pipe
    }
}

/// Position `j` starts the two-character arrow `->`.
pub open spec fn starts_arrow(s: Seq<char>, j: int) -> bool {
    j + 1 < s.len() && s[j] == '-' && s[j + 1] == '>'
}

/// Position `j` starts an atomic operator.  An arrow beginning right
/// after the `$` wins over the operator, so `$->` lexes as the word
/// `$` followed by an arrow.
pub open spec fn starts_op(s: Seq<char>, j: int) -> bool {
    j + 1 < s.len() && s[j] == '$' && is_op_char(s[j + 1]) && !starts_arrow(s, j + 1)
}

/// Position `j` continues the word that runs across it: nothing at
/// `j` separates words.
pub open spec fn is_word_char_at(s: Seq<char>, j: int) -> bool {
    !is_space(s[j]) && !is_single_delim(s[j]) && !starts_arrow(s, j) && !starts_op(s, j)
}

/// A digit character.
pub open spec fn is_digit(c: char) -> bool {
    48 <= c as u32 && c as u32 <= 57
}

/// The numeric value of a digit character.
pub open spec fn digit_val(c: char) -> int {
    c as u32 - 48
}

/// Every character of `w` is a digit.
pub open spec fn all_digits(w: Seq<char>) -> bool {
    forall|k: int| 0 <= k < w.len() ==> is_digit(#[trigger] w[k])
}

/// The value of a digit string, most significant digit first.
pub open spec fn digits_val(w: Seq<char>) -> int
    decreases w.len(),
{
    if w.len() == 0 {
        0
    } else {
        digits_val(w.drop_last()) * 10 + digit_val(w.last())
    }
}

/// The integer that a word denotes, if it is a base-10 integer with
/// an optional sign that fits in a signed 32-bit value.  Words that
/// overflow that range are not integers; they lex as identifiers.
pub open spec fn int_of_word(w: Seq<char>) -> Option<i32> {
    if w.len() >= 1 && all_digits(w) {
        if digits_val(w) <= i32::MAX {
            Some(digits_val(w) as i32)
        } else {
            None
        }
    } else if w.len() >= 2 && w[0] == '+' && all_digits(w.drop_first()) {
        if digits_val(w.drop_first()) <= i32::MAX {
            Some(digits_val(w.drop_first()) as i32)
        } else {
            None
        }
    } else if w.len() >= 2 && w[0] == '-' && all_digits(w.drop_first()) {
        if -digits_val(w.drop_first()) >= i32::MIN {
            Some((-digits_val(w.drop_first())) as i32)
        } else {
            None
        }
    } else {
        None
    }
}

/// The token that a whole word denotes: a keyword, an integer, or an
/// identifier.
pub open spec fn classify_word(w: Seq<char>) -> TokenV {
    if w == seq!['m', 'a', 't', 'c', 'h'] {
        TokenV::Match
    } else if w == seq!['s', 'e', 'q'] {
        TokenV::SeqKw
    } else if w == seq!['d', 'e', 'f', 'i', 'n', 'e'] {
        TokenV::Define
    } else if w == seq!['f', 'n'] {
        TokenV::Function
    } else if w == seq!['i', 'f'] {
        TokenV::If
    } else if w == seq!['c', 'o', 'n', 't'] {
        TokenV::Cont
    } else if w == seq!['e', 'x', 't', 'e', 'r', 'n'] {
        TokenV::Extern
    } else {
        match int_of_word(w) {
            Some(v) => TokenV::Integer(v),
            None => TokenV::Identifier(w),
        }
    }
}

/// The tokens of the program text from position `i` on, without the
/// implicit wrapping.
pub open spec fn lex_body(s: Seq<char>, i: int) -> Seq<TokenV>
    decreases s.len() - i, 0int,
{
    if i < 0 || i >= s.len() {
        Seq::empty()
    } else {
        let c = s[i];
        if is_space(c) {
            lex_body(s, i + 1)
        } else if c == ';' {
            lex_comment(s, i + 1)
        } else if starts_arrow(s, i) {
            seq![TokenV::Arrow] + lex_body(s, i + 2)
        } else if starts_op(s, i) {
            seq![TokenV::AtomicOp(op_of(s[i + 1]))] + lex_body(s, i + 2)
        } else if is_single_delim(c) {
            seq![delim_token(c)] + lex_body(s, i + 1)
        } else {
            lex_word(s, i, i + 1)
        }
    }
}

/// The tokens from position `j` on while a comment that began before
/// `j` is still running.
pub open spec fn lex_comment(s: Seq<char>, j: int) -> Seq<TokenV>
    decreases s.len() - j, 1int,
{
    if j < 0 || j >= s.len() {
        Seq::empty()
    } else if s[j] == '\n' {
        lex_body(s, j + 1)
    } else {
        lex_comment(s, j + 1)
    }
}

/// The tokens from the word that began at `start` on, with the word
/// read up to but not including `j` so far.
pub open spec fn lex_word(s: Seq<char>, start: int, j: int) -> Seq<TokenV>
    decreases s.len() - j, 1int,
{
    if 0 <= j < s.len() && is_word_char_at(s, j) {
        lex_word(s, start, j + 1)
    } else {
        seq![classify_word(s.subrange(start, j))] + lex_body(s, j)
    }
}

/// The full token sequence of a program text: its body tokens,
/// wrapped in an implicit sequence form and closed with an
/// end-of-stream mark.
pub open spec fn lex_spec(s: Seq<char>) -> Seq<TokenV> {
    seq![TokenV::LeftPar, TokenV::SeqKw] + lex_body(s, 0) + seq![
        TokenV::RightPar,
        TokenV::EOF,
    ]
}

/// Relies on str::chars: the characters of a string slice, in order.
#[verifier::external_body]
fn chars_of(s: &str) -> (v: Vec<char>)
    ensures
        v@ == s@,
{
    s.chars().collect()
}

/// Relies on String's FromIterator: collecting characters yields the
/// string of exactly those characters, in order.
#[verifier::external_body]
fn string_from_chars(w: &Vec<char>) -> (s: String)
    ensures
        s@ == w@,
{
    w.iter().collect()
}

fn is_space_c(c: char) -> (b: bool)
    ensures
        b == is_space(c),
{
    c == ' ' || c == '\t' || c == '\r' || c == '\n'
}

fn is_single_delim_c(c: char) -> (b: bool)
    ensures
        b == is_single_delim(c),
{
    c == '(' || c == ')' || c == '[' || c == ']' || c == '.' || c == '`' || c == '\'' || c == '@'
        || c == ';' || c == '|'
}

fn is_op_char_c(c: char) -> (b: bool)
    ensures
        b == is_op_char(c),
{
    c == '+' || c == '-' || c == '*' || c == '/' || c == '=' || c == '<' || c == '!' || c == '&'
}

fn op_token(c: char) -> (op: AtomBinary)
    ensures
        op == op_of(c),
{
    if c == '+' {
        AtomBinary::Add
    } else if c == '-' {
        AtomBinary::Sub
    } else if c == '*' {
        AtomBinary::Mul
    } else if c == '/' {
        AtomBinary::Div
    } else if c == '=' {
        AtomBinary::Eq
    } else if c == '<' {
        AtomBinary::Lt
    } else if c == '!' {
        AtomBinary::Not
    } else {
        AtomBinary::And
    }
}

fn delim_token_c(c: char) -> (t: Token)
    ensures
        t@ == delim_token(c),
{
    if c == '(' {
        Token::LeftPar
    } else if c == ')' {
        Token::RightPar
    } else if c == '[' {
        Token::LeftBkt
    } else if c == ']' {
        Token::RightBkt
    } else if c == '.' {
        Token::Dot
    } else if c == '`' {
        Token::Grave
    } else if c == '\'' {
        Token::Quote
    } else if c == '@' {
        Token::At
    } else {
        Token::Pipe
    }
}

fn digit_c(c: char) -> (b: bool)
    ensures
        b == is_digit(c),
{
    48 <= c as u32 && c as u32 <= 57
}

/// A digit string never has a negative value.
proof fn lemma_digits_val_nonneg(w: Seq<char>)
    requires
        all_digits(w),
    ensures
        digits_val(w) >= 0,
    decreases w.len(),
{
    if w.len() > 0 {
        assert(all_digits(w.drop_last())) by {
            assert(forall|k: int|
                0 <= k < w.len() - 1 ==> w.drop_last()[k] == #[trigger] w[k]);
        }
        lemma_digits_val_nonneg(w.drop_last());
        assert(is_digit(w.last()));
    }
}

/// Reading more digits never shrinks the value.
proof fn lemma_digits_val_extend(w: Seq<char>, a: int, b: int, c: int)
    requires
        0 <= a <= b <= c <= w.len(),
        all_digits(w.subrange(a, c)),
    ensures
        digits_val(w.subrange(a, b)) <= digits_val(w.subrange(a, c)),
    decreases c - b,
{
    if b < c {
        assert(all_digits(w.subrange(a, c - 1))) by {
            assert(forall|k: int|
                0 <= k < c - 1 - a ==> w.subrange(a, c - 1)[k] == #[trigger] w.subrange(a, c)[k]);
        }
        lemma_digits_val_extend(w, a, b, c - 1);
        let p = w.subrange(a, c);
        assert(p.drop_last() =~= w.subrange(a, c - 1));
        lemma_digits_val_nonneg(p.drop_last());
        assert(is_digit(p.last()));
    }
}

/// The integer a word denotes, if any, mirroring `int_of_word`.
fn int_value(w: &Vec<char>) -> (r: Option<i32>)
    ensures
        r == int_of_word(w@),
{
    let n = w.len();
    if n == 0 {
        return None;
    }
    let neg: bool = w[0] == '-';
    let signed: bool = w[0] == '-' || w[0] == '+';
    let start: usize = if signed {
        1
    } else {
        0
    };
    let ghost dpart = w@.subrange(start as int, n as int);
    proof {
        if signed {
            assert(dpart =~= w@.drop_first());
            assert(!is_digit(w@[0]));
        } else {
            assert(dpart =~= w@);
        }
    }
    if n == start {
        proof {
            assert(!all_digits(w@)) by {
                assert(!is_digit(w@[0]));
            }
        }
        return None;
    }
    let mut mag: u64 = 0;
    let mut j: usize = start;
    while j < n
        invariant
            start <= j <= n,
            0 < n == w@.len(),
            start == 0 || start == 1,
            signed == (start == 1),
            signed == (w@[0] == '-' || w@[0] == '+'),
            neg == (w@[0] == '-'),
            signed ==> !is_digit(w@[0]),
            dpart == w@.subrange(start as int, n as int),
            forall|k: int| start <= k < j ==> is_digit(#[trigger] w@[k]),
            mag == digits_val(w@.subrange(start as int, j as int)),
            mag <= 0x8000_0000u64,
        decreases n - j,
    {
        let c = w[j];
        if !digit_c(c) {
            proof {
                assert(dpart[j - start] == w@[j as int]);
                assert(!all_digits(dpart));
                assert(!all_digits(w@)) by {
                    if signed {
                        assert(!is_digit(w@[0]));
                    } else {
                        assert(dpart =~= w@);
                    }
                }
                if signed {
                    assert(w@.drop_first() =~= dpart);
                }
            }
            return None;
        }
        let d: u64 = (c as u32 - 48) as u64;
        mag = mag * 10 + d;
        proof {
            let p1 = w@.subrange(start as int, j + 1);
            assert(p1.drop_last() =~= w@.subrange(start as int, j as int));
            assert(p1.last() == w@[j as int]);
        }
        j += 1;
        if mag > 0x8000_0000u64 {
            // too many digits for a 32-bit value, whatever the rest holds
            proof {
                if all_digits(dpart) {
                    lemma_digits_val_extend(w@, start as int, j as int, n as int);
                    assert(digits_val(dpart) > 0x8000_0000);
                }
                assert(!all_digits(w@) || digits_val(w@) > 0x8000_0000) by {
                    if signed {
                        assert(!is_digit(w@[0]));
                    } else {
                        assert(dpart =~= w@);
                    }
                }
                if signed {
                    assert(w@.drop_first() =~= dpart);
                }
            }
            return None;
        }
    }
    proof {
        assert(dpart =~= w@.subrange(start as int, j as int));
        assert(all_digits(dpart)) by {
            assert forall|k: int| 0 <= k < dpart.len() implies is_digit(#[trigger] dpart[k]) by {
                assert(dpart[k] == w@[k + start]);
            }
        }
        assert(digits_val(dpart) == mag);
        if signed {
            assert(w@.drop_first() =~= dpart);
        } else {
            assert(w@ =~= dpart);
        }
    }
    if neg {
        Some((-(mag as i64)) as i32)
    } else {
        if mag > 0x7FFF_FFFFu64 {
            None
        } else {
            Some(mag as i32)
        }
    }
}

/// The token that a word denotes, mirroring `classify_word`.
fn word_token(w: Vec<char>) -> (t: Token)
    ensures
        t@ == classify_word(w@),
{
    let n = w.len();
    if n == 5 && w[0] == 'm' && w[1] == 'a' && w[2] == 't' && w[3] == 'c' && w[4] == 'h' {
        assert(w@ =~= seq!['m', 'a', 't', 'c', 'h']);
        Token::Match
    } else if n == 3 && w[0] == 's' && w[1] == 'e' && w[2] == 'q' {
        assert(w@ =~= seq!['s', 'e', 'q']);
        Token::SeqKw
    } else if n == 6 && w[0] == 'd' && w[1] == 'e' && w[2] == 'f' && w[3] == 'i' && w[4] == 'n'
        && w[5] == 'e' {
        assert(w@ =~= seq!['d', 'e', 'f', 'i', 'n', 'e']);
        Token::Define
    } else if n == 2 && w[0] == 'f' && w[1] == 'n' {
        assert(w@ =~= seq!['f', 'n']);
        Token::Function
    } else if n == 2 && w[0] == 'i' && w[1] == 'f' {
        assert(w@ =~= seq!['i', 'f']);
        Token::If
    } else if n == 4 && w[0] == 'c' && w[1] == 'o' && w[2] == 'n' && w[3] == 't' {
        assert(w@ =~= seq!['c', 'o', 'n', 't']);
        Token::Cont
    } else if n == 6 && w[0] == 'e' && w[1] == 'x' && w[2] == 't' && w[3] == 'e' && w[4] == 'r'
        && w[5] == 'n' {
        assert(w@ =~= seq!['e', 'x', 't', 'e', 'r', 'n']);
        Token::Extern
    } else {
        match int_value(&w) {
            Some(v) => Token::Integer(v),
            None => Token::Identifier(string_from_chars(&w)),
        }
    }
}

fn is_word_char(s: &Vec<char>, j: usize) -> (b: bool)
    requires
        j < s@.len(),
    ensures
        b == is_word_char_at(s@, j as int),
{
    let c = s[j];
    if is_space_c(c) || is_single_delim_c(c) {
        return false;
    }
    let n = s.len();
    if c == '-' && j + 1 < n && s[j + 1] == '>' {
        return false;
    }
    if c == '$' && j + 1 < n && is_op_char_c(s[j + 1]) {
        if s[j + 1] == '-' && j + 2 < n && s[j + 2] == '>' {
            return true;
        }
        return false;
    }
    true
}

/// A fully read word produces its token and the lexing goes on after
/// it.
proof fn lemma_lex_word(s: Seq<char>, start: int, j: int, e: int)
    requires
        0 <= start < j <= e <= s.len(),
        forall|k: int| j <= k < e ==> #[trigger] is_word_char_at(s, k),
        e == s.len() || !is_word_char_at(s, e),
    ensures
        lex_word(s, start, j) == seq![classify_word(s.subrange(start, e))] + lex_body(s, e),
    decreases e - j,
{
    if j < e {
        lemma_lex_word(s, start, j + 1, e);
    }
}

/// A comment runs to the end of its line, and lexing resumes after
/// the newline.
proof fn lemma_lex_comment(s: Seq<char>, j: int, e: int)
    requires
        0 <= j <= e <= s.len(),
        forall|k: int| j <= k < e ==> #[trigger] s[k] != '\n',
        e == s.len() || s[e] == '\n',
    ensures
        lex_comment(s, j) == if e < s.len() {
            lex_body(s, e + 1)
        } else {
            Seq::<TokenV>::empty()
        },
    decreases e - j,
{
    if j < e {
        lemma_lex_comment(s, j + 1, e);
    }
}

/// Lexes a program string into an array of tokens.
pub fn lex(program: &str) -> (r: Vec<Token>)
    ensures
        toks_view(r@) == lex_spec(program@),
{
    broadcast use crate::parser::token_types::lemma_toks_view_push;

    let s = chars_of(program);
    let n = s.len();
    let mut out: Vec<Token> = Vec::new();
    out.push(Token::LeftPar);
    out.push(Token::SeqKw);
    assert(toks_view(out@) =~= seq![TokenV::LeftPar, TokenV::SeqKw]);
    let mut i: usize = 0;
    while i < n
        invariant
            s@ == program@,
            n == s@.len(),
            i <= n,
            toks_view(out@) + lex_body(s@, i as int) =~= seq![TokenV::LeftPar, TokenV::SeqKw]
                + lex_body(s@, 0),
        decreases n - i,
    {
        let ghost i0 = i as int;
        let ghost out0 = out@;
        let c = s[i];
        if is_space_c(c) {
            i += 1;
            assert(lex_body(s@, i0) == lex_body(s@, i as int));
        } else if c == ';' {
            i += 1;
            while i < n && s[i] != '\n'
                invariant
                    s@ == program@,
                    n == s@.len(),
                    0 <= i0 < i <= n,
                    lex_comment(s@, i0 + 1) == lex_comment(s@, i as int),
                decreases n - i,
            {
                i += 1;
            }
            proof {
                lemma_lex_comment(s@, i as int, i as int);
                assert(lex_body(s@, i0) == lex_comment(s@, i0 + 1));
            }
            if i < n {
                i += 1;
            } else {
                assert(lex_body(s@, i as int) =~= Seq::<TokenV>::empty());
            }
        } else if c == '-' && i + 1 < n && s[i + 1] == '>' {
            out.push(Token::Arrow);
            i += 2;
            assert(lex_body(s@, i0) =~= seq![TokenV::Arrow] + lex_body(s@, i as int));
            assert(toks_view(out@) =~= toks_view(out0) + seq![TokenV::Arrow]);
        } else if c == '$' && i + 1 < n && is_op_char_c(s[i + 1]) && !(s[i + 1] == '-' && i + 2 < n
            && s[i + 2] == '>') {
            let op = op_token(s[i + 1]);
            let t = Token::AtomicOp(op);
            out.push(t);
            i += 2;
            proof {
                assert(starts_op(s@, i0));
                assert(lex_body(s@, i0) =~= seq![TokenV::AtomicOp(op_of(s@[i0 + 1]))] + lex_body(
                    s@,
                    i as int,
                ));
                assert(toks_view(out@) =~= toks_view(out0) + seq![t@]);
            }
        } else if is_single_delim_c(c) {
            let t = delim_token_c(c);
            out.push(t);
            i += 1;
            proof {
                assert(!starts_arrow(s@, i0) && !starts_op(s@, i0));
                assert(lex_body(s@, i0) =~= seq![delim_token(c)] + lex_body(s@, i as int));
                assert(toks_view(out@) =~= toks_view(out0) + seq![t@]);
            }
        } else {
            proof {
                assert(!starts_arrow(s@, i0));
                assert(!starts_op(s@, i0));
                assert(is_word_char_at(s@, i0));
            }
            let mut w: Vec<char> = Vec::new();
            w.push(c);
            i += 1;
            assert(w@ =~= s@.subrange(i0, i as int));
            while i < n && is_word_char(&s, i)
                invariant
                    s@ == program@,
                    n == s@.len(),
                    0 <= i0 < i <= n,
                    w@ =~= s@.subrange(i0, i as int),
                    forall|k: int| i0 + 1 <= k < i ==> #[trigger] is_word_char_at(s@, k),
                decreases n - i,
            {
                w.push(s[i]);
                i += 1;
                assert(w@ =~= s@.subrange(i0, i as int));
            }
            proof {
                lemma_lex_word(s@, i0, i0 + 1, i as int);
                assert(lex_body(s@, i0) == lex_word(s@, i0, i0 + 1));
            }
            let t = word_token(w);
            out.push(t);
            proof {
                assert(w@ == s@.subrange(i0, i as int));
                assert(toks_view(out@) =~= toks_view(out0) + seq![t@]);
            }
        }
    }
    assert(lex_body(s@, i as int) =~= Seq::<TokenV>::empty());
    out.push(Token::RightPar);
    out.push(Token::EOF);
    proof {
        assert(toks_view(out@) =~= lex_spec(program@));
    }
    out
}

} // verus!
