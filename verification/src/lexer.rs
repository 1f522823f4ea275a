//! The lexer: script source text to a token sequence.
//!
//! Whitespace and `//` line comments are insignificant. Tokens are
//! identifiers (with the keywords `var` and `return`), decimal numeric
//! literals, double-quoted string literals without escape sequences, and the
//! punctuation `( ) , ; =`. Each token carries the character offset it
//! starts at. `spec_lex` is the authoritative definition; `lex` computes it.

use vstd::prelude::*;

use crate::errors::{ErrorModel, ScriptError};
use crate::numerals::{all_digits, digits_value, is_digit};
use crate::values::str_eq;

verus! {

/// What a token is, without its position.
#[derive(Debug)]
pub enum TokenKind {
    Var,
    Return,
    Ident(String),
    Num(i64),
    StrLit(String),
    LParen,
    RParen,
    Comma,
    Semi,
    Eq,
}

/// The mathematical form of a `TokenKind`.
pub enum TokenKindModel {
    Var,
    Return,
    Ident(Seq<char>),
    Num(int),
    StrLit(Seq<char>),
    LParen,
    RParen,
    Comma,
    Semi,
    Eq,
}

impl DeepView for TokenKind {
    type V = TokenKindModel;

    open spec fn deep_view(&self) -> TokenKindModel {
        match self {
            TokenKind::Var => TokenKindModel::Var,
            TokenKind::Return => TokenKindModel::Return,
            TokenKind::Ident(s) => TokenKindModel::Ident(s@),
            TokenKind::Num(n) => TokenKindModel::Num(*n as int),
            TokenKind::StrLit(s) => TokenKindModel::StrLit(s@),
            TokenKind::LParen => TokenKindModel::LParen,
            TokenKind::RParen => TokenKindModel::RParen,
            TokenKind::Comma => TokenKindModel::Comma,
            TokenKind::Semi => TokenKindModel::Semi,
            TokenKind::Eq => TokenKindModel::Eq,
        }
    }
}

/// One token and the character offset it starts at.
#[derive(Debug)]
pub struct Token {
    pub kind: TokenKind,
    pub pos: usize,
}

/// The mathematical form of a `Token`.
pub struct TokenModel {
    pub kind: TokenKindModel,
    pub pos: int,
}

impl DeepView for Token {
    type V = TokenModel;

    open spec fn deep_view(&self) -> TokenModel {
        TokenModel { kind: self.kind.deep_view(), pos: self.pos as int }
    }
}

/// Insignificant between tokens.
pub open spec fn is_ws(c: char) -> bool {
    c == ' ' || c == '\t' || c == '\r' || c == '\n'
}

pub open spec fn is_alpha(c: char) -> bool {
    ('a' as u32 <= c as u32 && c as u32 <= 'z' as u32) || ('A' as u32 <= c as u32 && c as u32
        <= 'Z' as u32)
}

pub open spec fn is_ident_start(c: char) -> bool {
    is_alpha(c) || c == '_'
}

pub open spec fn is_ident_cont(c: char) -> bool {
    is_ident_start(c) || is_digit(c)
}

/// The offset of the next `'\n'` at or after `i`, or the end of the text.
pub open spec fn scan_line_end(s: Seq<char>, i: int) -> int
    decreases s.len() - i,
    when 0 <= i <= s.len()
{
    if i >= s.len() {
        i
    } else if s[i] == '\n' {
        i
    } else {
        scan_line_end(s, i + 1)
    }
}

pub proof fn lemma_scan_line_end(s: Seq<char>, i: int)
    requires
        0 <= i <= s.len(),
    ensures
        i <= scan_line_end(s, i) <= s.len(),
    decreases s.len() - i,
{
    if i < s.len() && s[i] != '\n' {
        lemma_scan_line_end(s, i + 1);
    }
}

/// The offset of the first character at or after `i` that cannot continue an
/// identifier, or the end of the text.
pub open spec fn scan_ident_end(s: Seq<char>, i: int) -> int
    decreases s.len() - i,
    when 0 <= i <= s.len()
{
    if i >= s.len() {
        i
    } else if is_ident_cont(s[i]) {
        scan_ident_end(s, i + 1)
    } else {
        i
    }
}

pub proof fn lemma_scan_ident_end(s: Seq<char>, i: int)
    requires
        0 <= i <= s.len(),
    ensures
        i <= scan_ident_end(s, i) <= s.len(),
    decreases s.len() - i,
{
    if i < s.len() && is_ident_cont(s[i]) {
        lemma_scan_ident_end(s, i + 1);
    }
}

/// The offset of the first non-digit at or after `i`, or the end of the text.
pub open spec fn scan_digits_end(s: Seq<char>, i: int) -> int
    decreases s.len() - i,
    when 0 <= i <= s.len()
{
    if i >= s.len() {
        i
    } else if is_digit(s[i]) {
        scan_digits_end(s, i + 1)
    } else {
        i
    }
}

pub proof fn lemma_scan_digits_end(s: Seq<char>, i: int)
    requires
        0 <= i <= s.len(),
    ensures
        i <= scan_digits_end(s, i) <= s.len(),
        forall|m: int| i <= m < scan_digits_end(s, i) ==> is_digit(#[trigger] s[m]),
    decreases s.len() - i,
{
    if i < s.len() && is_digit(s[i]) {
        lemma_scan_digits_end(s, i + 1);
    }
}

/// The offset of the closing `'"'` at or after `i`, or the end of the text
/// when the literal is unterminated.
pub open spec fn scan_string_end(s: Seq<char>, i: int) -> int
    decreases s.len() - i,
    when 0 <= i <= s.len()
{
    if i >= s.len() {
        i
    } else if s[i] == '"' {
        i
    } else {
        scan_string_end(s, i + 1)
    }
}

pub proof fn lemma_scan_string_end(s: Seq<char>, i: int)
    requires
        0 <= i <= s.len(),
    ensures
        i <= scan_string_end(s, i) <= s.len(),
    decreases s.len() - i,
{
    if i < s.len() && s[i] != '"' {
        lemma_scan_string_end(s, i + 1);
    }
}

/// The offset of the first significant character at or after `i`: skips
/// whitespace and `//` line comments.
pub open spec fn skip_trivia(s: Seq<char>, i: int) -> int
    decreases s.len() - i,
    when 0 <= i <= s.len()
    via skip_trivia_dec
{
    if i >= s.len() {
        i
    } else if is_ws(s[i]) {
        skip_trivia(s, i + 1)
    } else if s[i] == '/' && i + 1 < s.len() && s[i + 1] == '/' {
        skip_trivia(s, scan_line_end(s, i + 2))
    } else {
        i
    }
}

#[via_fn]
proof fn skip_trivia_dec(s: Seq<char>, i: int) {
    if i + 2 <= s.len() {
        lemma_scan_line_end(s, i + 2);
    }
}

pub proof fn lemma_skip_trivia(s: Seq<char>, i: int)
    requires
        0 <= i <= s.len(),
    ensures
        i <= skip_trivia(s, i) <= s.len(),
    decreases s.len() - i,
{
    if i < s.len() {
        if is_ws(s[i]) {
            lemma_skip_trivia(s, i + 1);
        } else if s[i] == '/' && i + 1 < s.len() && s[i + 1] == '/' {
            lemma_scan_line_end(s, i + 2);
            lemma_skip_trivia(s, scan_line_end(s, i + 2));
        }
    }
}

/// The tokens of `s` from offset `i` on, appended to `acc`; or the first
/// syntax error. This is the authoritative definition of the lexical
/// grammar.
pub open spec fn spec_lex_from(s: Seq<char>, i: int, acc: Seq<TokenModel>) -> Result<
    Seq<TokenModel>,
    ErrorModel,
>
    decreases s.len() - i,
    when 0 <= i <= s.len()
    via spec_lex_from_dec
{
    let j = skip_trivia(s, i);
    if j >= s.len() {
        Ok(acc)
    } else if is_ident_start(s[j]) {
        let k = scan_ident_end(s, j + 1);
        let text = s.subrange(j, k);
        let kind = if text == "var"@ {
            TokenKindModel::Var
        } else if text == "return"@ {
            TokenKindModel::Return
        } else {
            TokenKindModel::Ident(text)
        };
        spec_lex_from(s, k, acc.push(TokenModel { kind, pos: j }))
    } else if is_digit(s[j]) {
        let k = scan_digits_end(s, j + 1);
        let v = digits_value(s.subrange(j, k));
        if v > i64::MAX {
            Err(ErrorModel::Syntax { pos: j, message: "number literal too large"@ })
        } else {
            spec_lex_from(s, k, acc.push(TokenModel { kind: TokenKindModel::Num(v), pos: j }))
        }
    } else if s[j] == '"' {
        let k = scan_string_end(s, j + 1);
        if k >= s.len() {
            Err(ErrorModel::Syntax { pos: j, message: "unterminated string literal"@ })
        } else {
            spec_lex_from(
                s,
                k + 1,
                acc.push(TokenModel { kind: TokenKindModel::StrLit(s.subrange(j + 1, k)), pos: j }),
            )
        }
    } else if s[j] == '(' {
        spec_lex_from(s, j + 1, acc.push(TokenModel { kind: TokenKindModel::LParen, pos: j }))
    } else if s[j] == ')' {
        spec_lex_from(s, j + 1, acc.push(TokenModel { kind: TokenKindModel::RParen, pos: j }))
    } else if s[j] == ',' {
        spec_lex_from(s, j + 1, acc.push(TokenModel { kind: TokenKindModel::Comma, pos: j }))
    } else if s[j] == ';' {
        spec_lex_from(s, j + 1, acc.push(TokenModel { kind: TokenKindModel::Semi, pos: j }))
    } else if s[j] == '=' {
        spec_lex_from(s, j + 1, acc.push(TokenModel { kind: TokenKindModel::Eq, pos: j }))
    } else {
        Err(ErrorModel::Syntax { pos: j, message: "unexpected character"@ })
    }
}

#[via_fn]
proof fn spec_lex_from_dec(s: Seq<char>, i: int, acc: Seq<TokenModel>) {
    lemma_skip_trivia(s, i);
    let j = skip_trivia(s, i);
    if j < s.len() {
        lemma_scan_ident_end(s, j + 1);
        lemma_scan_digits_end(s, j + 1);
        lemma_scan_string_end(s, j + 1);
    }
}

/// The token sequence of a whole source text, or its first syntax error.
pub open spec fn spec_lex(s: Seq<char>) -> Result<Seq<TokenModel>, ErrorModel> {
    spec_lex_from(s, 0, Seq::empty())
}

/// The model of an executable lexer result.
pub open spec fn lex_res_model(r: Result<Vec<Token>, ScriptError>) -> Result<
    Seq<TokenModel>,
    ErrorModel,
> {
    match r {
        Ok(v) => Ok(v.deep_view()),
        Err(e) => Err(e@),
    }
}

fn is_ws_exec(c: char) -> (r: bool)
    ensures
        r == is_ws(c),
{
    c == ' ' || c == '\t' || c == '\r' || c == '\n'
}

fn is_ident_start_exec(c: char) -> (r: bool)
    ensures
        r == is_ident_start(c),
{
    let u = c as u32;
    ('a' as u32 <= u && u <= 'z' as u32) || ('A' as u32 <= u && u <= 'Z' as u32) || c == '_'
}

fn is_ident_cont_exec(c: char) -> (r: bool)
    ensures
        r == is_ident_cont(c),
{
    is_ident_start_exec(c) || is_digit_exec(c)
}

fn is_digit_exec(c: char) -> (r: bool)
    ensures
        r == is_digit(c),
{
    let u = c as u32;
    '0' as u32 <= u && u <= '9' as u32
}

fn scan_line_end_exec(s: &str, n: usize, i: usize) -> (r: usize)
    requires
        n == s@.len(),
        i <= n,
    ensures
        r == scan_line_end(s@, i as int),
        i <= r <= n,
    decreases n - i,
{
    if i >= n {
        i
    } else if s.get_char(i) == '\n' {
        i
    } else {
        scan_line_end_exec(s, n, i + 1)
    }
}

fn scan_ident_end_exec(s: &str, n: usize, i: usize) -> (r: usize)
    requires
        n == s@.len(),
        i <= n,
    ensures
        r == scan_ident_end(s@, i as int),
        i <= r <= n,
    decreases n - i,
{
    if i >= n {
        i
    } else if is_ident_cont_exec(s.get_char(i)) {
        scan_ident_end_exec(s, n, i + 1)
    } else {
        i
    }
}

pub(crate) fn scan_digits_end_exec(s: &str, n: usize, i: usize) -> (r: usize)
    requires
        n == s@.len(),
        i <= n,
    ensures
        r == scan_digits_end(s@, i as int),
        i <= r <= n,
    decreases n - i,
{
    if i >= n {
        i
    } else if is_digit_exec(s.get_char(i)) {
        scan_digits_end_exec(s, n, i + 1)
    } else {
        i
    }
}

fn scan_string_end_exec(s: &str, n: usize, i: usize) -> (r: usize)
    requires
        n == s@.len(),
        i <= n,
    ensures
        r == scan_string_end(s@, i as int),
        i <= r <= n,
    decreases n - i,
{
    if i >= n {
        i
    } else if s.get_char(i) == '"' {
        i
    } else {
        scan_string_end_exec(s, n, i + 1)
    }
}

fn skip_trivia_exec(s: &str, n: usize, i: usize) -> (r: usize)
    requires
        n == s@.len(),
        i <= n,
    ensures
        r == skip_trivia(s@, i as int),
        i <= r <= n,
    decreases n - i,
{
    if i >= n {
        i
    } else if is_ws_exec(s.get_char(i)) {
        skip_trivia_exec(s, n, i + 1)
    } else if s.get_char(i) == '/' && i + 1 < n && s.get_char(i + 1) == '/' {
        let k = scan_line_end_exec(s, n, i + 2);
        skip_trivia_exec(s, n, k)
    } else {
        i
    }
}

/// Reads the digit run `s[start..end]` as an `i64`, or reports that its
/// value is too large.
fn digits_to_i64(s: &str, n: usize, start: usize, end: usize) -> (r: Option<i64>)
    requires
        n == s@.len(),
        start <= end <= n,
        all_digits(s@.subrange(start as int, end as int)),
    ensures
        match r {
            Some(v) => v as int == digits_value(s@.subrange(start as int, end as int)) && v as int
                <= i64::MAX,
            None => digits_value(s@.subrange(start as int, end as int)) > i64::MAX,
        },
{
    let ghost run = s@.subrange(start as int, end as int);
    let mut acc: u64 = 0;
    let mut i: usize = start;
    while i < end
        invariant
            n == s@.len(),
            start <= i <= end <= n,
            all_digits(run),
            run == s@.subrange(start as int, end as int),
            acc as int == digits_value(run.take(i - start)),
            acc <= i64::MAX as u64,
        decreases end - i,
    {
        let c = s.get_char(i);
        assert(c == run[i - start]);
        assert(is_digit(c));
        let d: u64 = (c as u32 - '0' as u32) as u64;
        assert(d as int == crate::numerals::digit_val(c));
        proof {
            assert(run.take(i + 1 - start).drop_last() =~= run.take(i - start));
            assert(run.take(i + 1 - start).last() == c);
        }
        if acc > (i64::MAX as u64 - d) / 10 {
            proof {
                let m = i64::MAX as int;
                let q = (m - d) / 10;
                assert(m - d == 10 * q + (m - d) % 10);
                assert(acc as int * 10 >= (q + 1) * 10) by (nonlinear_arith)
                    requires
                        acc as int >= q + 1,
                ;
                assert(digits_value(run.take(i + 1 - start)) > m);
                crate::numerals::lemma_digits_value_nonneg(run);
                crate::numerals::lemma_digits_value_mono(run, i + 1 - start);
            }
            return None;
        }
        assert(acc * 10 + d <= i64::MAX as u64) by {
            let m = i64::MAX as int;
            let q = (m - d) / 10;
            assert(m - d == 10 * q + (m - d) % 10);
            assert(acc as int * 10 <= q * 10) by (nonlinear_arith)
                requires
                    acc as int <= q,
            ;
        }
        acc = acc * 10 + d;
        i += 1;
    }
    proof {
        assert(run.take(end - start) =~= run);
    }
    Some(acc as i64)
}

/// Lexes the source text: `spec_lex` made executable.
pub fn lex(s: &str) -> (r: Result<Vec<Token>, ScriptError>)
    ensures
        lex_res_model(r) == spec_lex(s@),
{
    let n = s.unicode_len();
    let acc: Vec<Token> = Vec::new();
    proof {
        assert(acc.deep_view() =~= Seq::<TokenModel>::empty());
    }
    lex_rec(s, n, 0, acc)
}

fn lex_rec(s: &str, n: usize, i: usize, acc: Vec<Token>) -> (r: Result<Vec<Token>, ScriptError>)
    requires
        n == s@.len(),
        i <= n,
    ensures
        lex_res_model(r) == spec_lex_from(s@, i as int, acc.deep_view()),
    decreases n - i,
{
    let ghost acc0 = acc.deep_view();
    let j = skip_trivia_exec(s, n, i);
    if j >= n {
        return Ok(acc);
    }
    let c = s.get_char(j);
    if is_ident_start_exec(c) {
        let k = scan_ident_end_exec(s, n, j + 1);
        let text = s.substring_char(j, k);
        let kind = if str_eq(text, "var") {
            TokenKind::Var
        } else if str_eq(text, "return") {
            TokenKind::Return
        } else {
            TokenKind::Ident(text.to_owned())
        };
        let ghost tk = TokenModel { kind: kind.deep_view(), pos: j as int };
        let mut acc2 = acc;
        acc2.push(Token { kind, pos: j });
        proof {
            assert(acc2.deep_view() =~= acc0.push(tk));
        }
        lex_rec(s, n, k, acc2)
    } else if is_digit_exec(c) {
        let k = scan_digits_end_exec(s, n, j + 1);
        proof {
            lemma_scan_digits_end(s@, j + 1);
            assert forall|t: int| 0 <= t < k - j implies is_digit(
                #[trigger] s@.subrange(j as int, k as int)[t],
            ) by {
                assert(s@.subrange(j as int, k as int)[t] == s@[j + t]);
            }
            assert(all_digits(s@.subrange(j as int, k as int)));
        }
        match digits_to_i64(s, n, j, k) {
            None => Err(
                ScriptError::Syntax { pos: j, message: "number literal too large".to_owned() },
            ),
            Some(v) => {
                let ghost tk = TokenModel { kind: TokenKindModel::Num(v as int), pos: j as int };
                let mut acc2 = acc;
                acc2.push(Token { kind: TokenKind::Num(v), pos: j });
                proof {
                    assert(acc2.deep_view() =~= acc0.push(tk));
                }
                lex_rec(s, n, k, acc2)
            },
        }
    } else if c == '"' {
        let k = scan_string_end_exec(s, n, j + 1);
        if k >= n {
            Err(ScriptError::Syntax { pos: j, message: "unterminated string literal".to_owned() })
        } else {
            let text = s.substring_char(j + 1, k).to_owned();
            let ghost tk = TokenModel { kind: TokenKindModel::StrLit(text@), pos: j as int };
            let mut acc2 = acc;
            acc2.push(Token { kind: TokenKind::StrLit(text), pos: j });
            proof {
                assert(acc2.deep_view() =~= acc0.push(tk));
            }
            lex_rec(s, n, k + 1, acc2)
        }
    } else if c == '(' || c == ')' || c == ',' || c == ';' || c == '=' {
        let kind = if c == '(' {
            TokenKind::LParen
        } else if c == ')' {
            TokenKind::RParen
        } else if c == ',' {
            TokenKind::Comma
        } else if c == ';' {
            TokenKind::Semi
        } else {
            TokenKind::Eq
        };
        let ghost tk = TokenModel { kind: kind.deep_view(), pos: j as int };
        let mut acc2 = acc;
        acc2.push(Token { kind, pos: j });
        proof {
            assert(acc2.deep_view() =~= acc0.push(tk));
        }
        lex_rec(s, n, j + 1, acc2)
    } else {
        Err(ScriptError::Syntax { pos: j, message: "unexpected character".to_owned() })
    }
}

} // verus!
