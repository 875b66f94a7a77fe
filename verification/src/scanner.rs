//! The scanner: a single eager forward pass over the source text that
//! produces a finite token sequence ending in `Eof`, reporting bad input to
//! the diagnostics sink and carrying on rather than aborting.
//!
//! The spec side models the whole scan: `scan_step` says what one
//! classification step at a position produces (at most one token, at most
//! one diagnostic, and the next position), and `scan_from` folds the steps
//! over the rest of the source and appends the final `Eof` token.

use vstd::prelude::*;

use crate::diag::DiagModel;
use crate::diag::Lox;
use crate::token::Token;
use crate::token::TokenModel;
use crate::token::TokenType;
use crate::token::Value;
use crate::token::ValueModel;
use crate::token::tokens_wf;

verus! {

/// A decimal digit.
pub open spec fn is_digit_char(c: char) -> bool {
    ('0' as u32) <= (c as u32) && (c as u32) <= ('9' as u32)
}

/// A letter or underscore: what may begin an identifier.
pub open spec fn is_alpha_char(c: char) -> bool {
    (('a' as u32) <= (c as u32) && (c as u32) <= ('z' as u32)) || (('A' as u32) <= (c as u32) && (c
        as u32) <= ('Z' as u32)) || c == '_'
}

/// A letter, digit or underscore: what may continue an identifier.
pub open spec fn is_alnum_char(c: char) -> bool {
    is_alpha_char(c) || is_digit_char(c)
}

/// How many newline characters `s` holds in the range `[a, b)`.
pub open spec fn newlines_in(s: Seq<char>, a: int, b: int) -> int
    decreases b - a,
{
    if a >= b {
        0
    } else {
        (if s[a] == '\n' {
            1int
        } else {
            0int
        }) + newlines_in(s, a + 1, b)
    }
}

/// The line number at position `i`: lines count from 1, and every newline
/// before `i` has been passed.
pub open spec fn line_at(s: Seq<char>, i: int) -> int {
    1 + newlines_in(s, 0, i)
}

/// The first position at or after `j` holding a newline, or the end: where
/// a line comment stops discarding.
pub open spec fn comment_end(s: Seq<char>, j: int) -> int
    decreases s.len() - j,
    when 0 <= j <= s.len()
{
    if j >= s.len() || s[j] == '\n' {
        j
    } else {
        comment_end(s, j + 1)
    }
}

/// The first position at or after `j` holding a closing quote, or the end.
pub open spec fn string_end(s: Seq<char>, j: int) -> int
    decreases s.len() - j,
    when 0 <= j <= s.len()
{
    if j >= s.len() || s[j] == '"' {
        j
    } else {
        string_end(s, j + 1)
    }
}

/// The first position at or after `j` holding a non-digit, or the end.
pub open spec fn digits_end(s: Seq<char>, j: int) -> int
    decreases s.len() - j,
    when 0 <= j <= s.len()
{
    if j >= s.len() || !is_digit_char(s[j]) {
        j
    } else {
        digits_end(s, j + 1)
    }
}

/// The first position at or after `j` where an identifier stops, or the end.
pub open spec fn ident_end(s: Seq<char>, j: int) -> int
    decreases s.len() - j,
    when 0 <= j <= s.len()
{
    if j >= s.len() || !is_alnum_char(s[j]) {
        j
    } else {
        ident_end(s, j + 1)
    }
}

/// The keyword table: a lexeme that names a keyword yields the keyword's
/// token kind, any other identifier lexeme yields `Identifier`.
pub open spec fn keyword_or_identifier(lex: Seq<char>) -> TokenType {
    if lex == "and"@ {
        TokenType::And
    } else if lex == "class"@ {
        TokenType::Class
    } else if lex == "else"@ {
        TokenType::Else
    } else if lex == "false"@ {
        TokenType::False
    } else if lex == "for"@ {
        TokenType::For
    } else if lex == "fun"@ {
        TokenType::Fun
    } else if lex == "if"@ {
        TokenType::If
    } else if lex == "nil"@ {
        TokenType::Nil
    } else if lex == "or"@ {
        TokenType::Or
    } else if lex == "print"@ {
        TokenType::Print
    } else if lex == "return"@ {
        TokenType::Return
    } else if lex == "super"@ {
        TokenType::Super
    } else if lex == "this"@ {
        TokenType::This
    } else if lex == "true"@ {
        TokenType::True
    } else if lex == "var"@ {
        TokenType::Var
    } else if lex == "while"@ {
        TokenType::While
    } else {
        TokenType::Identifier
    }
}

/// Where a number lexeme's integer part ends.
pub open spec fn num_int_end(x: Seq<char>) -> int {
    digits_end(x, 0)
}

/// A number lexeme: one or more digits, optionally a point followed by one
/// or more digits.
pub open spec fn is_num_lexeme(x: Seq<char>) -> bool {
    let ie = num_int_end(x);
    &&& ie >= 1
    &&& (ie == x.len() || (ie + 1 < x.len() && x[ie] == '.' && digits_end(x, ie + 1) == x.len()))
}

/// The first digit to keep when dropping redundant leading zeros of the
/// integer part `[j, ie)`: zeros are dropped while another digit remains.
pub open spec fn lead_zeros_end(x: Seq<char>, j: int, ie: int) -> int
    decreases ie - j,
    when j <= ie
{
    if j + 1 < ie && x[j] == '0' {
        lead_zeros_end(x, j + 1, ie)
    } else {
        j
    }
}

/// Where the kept fraction ends when trailing zeros are dropped, scanning
/// back from `k`; at least one fraction digit (position `ie + 1`) may stay.
pub open spec fn frac_keep_end(x: Seq<char>, k: int, ie: int) -> int
    decreases k,
    when 0 <= ie
{
    if k > ie + 1 && x[k - 1] == '0' {
        frac_keep_end(x, k - 1, ie)
    } else {
        k
    }
}

/// The canonical decimal text of a number lexeme: leading zeros of the
/// integer part dropped (keeping one digit), trailing zeros of the fraction
/// dropped, and the point dropped when nothing of the fraction remains.
pub open spec fn canon_num(x: Seq<char>) -> Seq<char> {
    let ie = num_int_end(x);
    let a = lead_zeros_end(x, 0, ie);
    let k = frac_keep_end(x, x.len() as int, ie);
    let b = if k == ie + 1 {
        ie
    } else {
        k
    };
    x.subrange(a, b)
}

/// What one classification step produces.
pub struct ScanStep {
    /// The position after the step; always past the position classified.
    pub next: int,
    /// The token the step emits, if any.
    pub token: Option<TokenModel>,
    /// The diagnostic the step reports, if any.
    pub diag: Option<DiagModel>,
}

/// A token covering `[start, end)` with no literal value, on the line the
/// scan is on after consuming it.
pub open spec fn simple_token(s: Seq<char>, start: int, end: int, t: TokenType) -> ScanStep {
    ScanStep {
        next: end,
        token: Some(
            TokenModel {
                type_of: t,
                lexeme: s.subrange(start, end),
                literal: ValueModel::Null,
                line: line_at(s, end) as u32,
            },
        ),
        diag: None,
    }
}

/// A one-character lookahead operator: `=` after `c` makes the two-character
/// kind, anything else the one-character kind.
pub open spec fn with_equal(s: Seq<char>, i: int, two: TokenType, one: TokenType) -> ScanStep {
    if i + 1 < s.len() && s[i + 1] == '=' {
        simple_token(s, i, i + 2, two)
    } else {
        simple_token(s, i, i + 1, one)
    }
}

/// A string literal starting at the opening quote `s[i]`: newlines inside
/// are permitted; reaching the end before a closing quote reports
/// "Unterminated string." and emits no token.
pub open spec fn string_step(s: Seq<char>, i: int) -> ScanStep {
    let e = string_end(s, i + 1);
    if e >= s.len() {
        ScanStep {
            next: s.len() as int,
            token: None,
            diag: Some(
                DiagModel {
                    line: line_at(s, s.len() as int) as u32,
                    location: ""@,
                    message: "Unterminated string."@,
                },
            ),
        }
    } else {
        ScanStep {
            next: e + 1,
            token: Some(
                TokenModel {
                    type_of: TokenType::String,
                    lexeme: s.subrange(i, e + 1),
                    literal: ValueModel::Text(s.subrange(i + 1, e)),
                    line: line_at(s, e + 1) as u32,
                },
            ),
            diag: None,
        }
    }
}

/// A number literal starting at the digit `s[i]`: digits, then a fractional
/// part only when the point is followed by a digit.
pub open spec fn number_step(s: Seq<char>, i: int) -> ScanStep {
    let d = digits_end(s, i);
    let end = if d + 1 < s.len() && s[d] == '.' && is_digit_char(s[d + 1]) {
        digits_end(s, d + 1)
    } else {
        d
    };
    ScanStep {
        next: end,
        token: Some(
            TokenModel {
                type_of: TokenType::Number,
                lexeme: s.subrange(i, end),
                literal: ValueModel::Number(canon_num(s.subrange(i, end))),
                line: line_at(s, end) as u32,
            },
        ),
        diag: None,
    }
}

/// An identifier or keyword starting at the letter `s[i]`.
pub open spec fn ident_step(s: Seq<char>, i: int) -> ScanStep {
    let end = ident_end(s, i);
    let lex = s.subrange(i, end);
    ScanStep {
        next: end,
        token: Some(
            TokenModel {
                type_of: keyword_or_identifier(lex),
                lexeme: lex,
                literal: ValueModel::Null,
                line: line_at(s, end) as u32,
            },
        ),
        diag: None,
    }
}

/// One classification step at position `i`: which token, if any, the
/// character at `i` starts, what it reports, and where the scan continues.
pub open spec fn scan_step(s: Seq<char>, i: int) -> ScanStep
    recommends
        0 <= i < s.len(),
{
    let c = s[i];
    if c == '(' {
        simple_token(s, i, i + 1, TokenType::LeftParen)
    } else if c == ')' {
        simple_token(s, i, i + 1, TokenType::RightParen)
    } else if c == '{' {
        simple_token(s, i, i + 1, TokenType::LeftBrace)
    } else if c == '}' {
        simple_token(s, i, i + 1, TokenType::RightBrace)
    } else if c == ',' {
        simple_token(s, i, i + 1, TokenType::Comma)
    } else if c == '.' {
        simple_token(s, i, i + 1, TokenType::Dot)
    } else if c == '-' {
        simple_token(s, i, i + 1, TokenType::Minus)
    } else if c == '+' {
        simple_token(s, i, i + 1, TokenType::Plus)
    } else if c == ';' {
        simple_token(s, i, i + 1, TokenType::Semicolon)
    } else if c == '*' {
        simple_token(s, i, i + 1, TokenType::Star)
    } else if c == '!' {
        with_equal(s, i, TokenType::BangEqual, TokenType::Bang)
    } else if c == '=' {
        with_equal(s, i, TokenType::EqualEqual, TokenType::Equal)
    } else if c == '<' {
        with_equal(s, i, TokenType::LessEqual, TokenType::Less)
    } else if c == '>' {
        with_equal(s, i, TokenType::GreaterEqual, TokenType::Greater)
    } else if c == '/' {
        if i + 1 < s.len() && s[i + 1] == '/' {
            ScanStep { next: comment_end(s, i + 2), token: None, diag: None }
        } else {
            simple_token(s, i, i + 1, TokenType::Slash)
        }
    } else if c == ' ' || c == '\r' || c == '\t' || c == '\n' {
        ScanStep { next: i + 1, token: None, diag: None }
    } else if c == '"' {
        string_step(s, i)
    } else if is_digit_char(c) {
        number_step(s, i)
    } else if is_alpha_char(c) {
        ident_step(s, i)
    } else {
        ScanStep {
            next: i + 1,
            token: None,
            diag: Some(
                DiagModel {
                    line: line_at(s, i) as u32,
                    location: ""@,
                    message: "Unexpected character."@,
                },
            ),
        }
    }
}

/// The `Eof` token that terminates every scan, on the final line.
pub open spec fn eof_token(s: Seq<char>) -> TokenModel {
    TokenModel {
        type_of: TokenType::Eof,
        lexeme: ""@,
        literal: ValueModel::Null,
        line: line_at(s, s.len() as int) as u32,
    }
}

/// Zero or one elements as a sequence.
pub open spec fn opt_seq<A>(o: Option<A>) -> Seq<A> {
    match o {
        Option::Some(a) => seq![a],
        Option::None => Seq::<A>::empty(),
    }
}

/// What scanning produces: the tokens, and the diagnostics reported along
/// the way.
pub struct ScanOut {
    pub tokens: Seq<TokenModel>,
    pub diags: Seq<DiagModel>,
}

/// The scan of `s` from position `i` on: all steps folded in order, with
/// the terminating `Eof` token at the end.
pub open spec fn scan_from(s: Seq<char>, i: int) -> ScanOut
    decreases s.len() - i,
    when 0 <= i <= s.len()
    via scan_from_decreases
{
    if i >= s.len() {
        ScanOut { tokens: seq![eof_token(s)], diags: Seq::<DiagModel>::empty() }
    } else {
        let step = scan_step(s, i);
        let rest = scan_from(s, step.next);
        ScanOut { tokens: opt_seq(step.token) + rest.tokens, diags: opt_seq(step.diag) + rest.diags }
    }
}

#[via_fn]
proof fn scan_from_decreases(s: Seq<char>, i: int) {
    if 0 <= i && i < s.len() {
        lemma_scan_step_in_range(s, i);
    }
}

/// The scan of a whole source text.
pub open spec fn scan_model(s: Seq<char>) -> ScanOut {
    scan_from(s, 0)
}

pub proof fn lemma_newlines_bounds(s: Seq<char>, a: int, b: int)
    ensures
        0 <= newlines_in(s, a, b),
        newlines_in(s, a, b) <= (if b - a >= 0 {
            b - a
        } else {
            0
        }),
    decreases b - a,
{
    if a < b {
        lemma_newlines_bounds(s, a + 1, b);
    }
}

/// Extending the range by one non-newline character keeps the count; by a
/// newline raises it by one.
pub proof fn lemma_newlines_snoc(s: Seq<char>, a: int, b: int)
    requires
        a <= b,
    ensures
        newlines_in(s, a, b + 1) == newlines_in(s, a, b) + (if s[b] == '\n' {
            1int
        } else {
            0int
        }),
    decreases b - a,
{
    if a < b {
        lemma_newlines_snoc(s, a + 1, b);
    } else {
        assert(newlines_in(s, b + 1, b + 1) == 0);
    }
}

pub proof fn lemma_comment_end(s: Seq<char>, j: int)
    requires
        0 <= j <= s.len(),
    ensures
        j <= comment_end(s, j) <= s.len(),
        comment_end(s, j) < s.len() ==> s[comment_end(s, j)] == '\n',
        forall|k: int| j <= k < comment_end(s, j) ==> s[k] != '\n',
    decreases s.len() - j,
{
    if j < s.len() && s[j] != '\n' {
        lemma_comment_end(s, j + 1);
    }
}

pub proof fn lemma_string_end(s: Seq<char>, j: int)
    requires
        0 <= j <= s.len(),
    ensures
        j <= string_end(s, j) <= s.len(),
        string_end(s, j) < s.len() ==> s[string_end(s, j)] == '"',
        forall|k: int| j <= k < string_end(s, j) ==> s[k] != '"',
    decreases s.len() - j,
{
    if j < s.len() && s[j] != '"' {
        lemma_string_end(s, j + 1);
    }
}

pub proof fn lemma_digits_end(s: Seq<char>, j: int)
    requires
        0 <= j <= s.len(),
    ensures
        j <= digits_end(s, j) <= s.len(),
        digits_end(s, j) < s.len() ==> !is_digit_char(s[digits_end(s, j)]),
        forall|k: int| j <= k < digits_end(s, j) ==> is_digit_char(s[k]),
    decreases s.len() - j,
{
    if j < s.len() && is_digit_char(s[j]) {
        lemma_digits_end(s, j + 1);
    }
}

pub proof fn lemma_ident_end(s: Seq<char>, j: int)
    requires
        0 <= j <= s.len(),
    ensures
        j <= ident_end(s, j) <= s.len(),
        ident_end(s, j) < s.len() ==> !is_alnum_char(s[ident_end(s, j)]),
        forall|k: int| j <= k < ident_end(s, j) ==> is_alnum_char(s[k]),
    decreases s.len() - j,
{
    if j < s.len() && is_alnum_char(s[j]) {
        lemma_ident_end(s, j + 1);
    }
}

/// Every classification step moves strictly forward and stays inside the
/// source.
pub proof fn lemma_scan_step_in_range(s: Seq<char>, i: int)
    requires
        0 <= i < s.len(),
    ensures
        i < scan_step(s, i).next <= s.len(),
{
    let c = s[i];
    if c == '/' && i + 1 < s.len() && s[i + 1] == '/' {
        lemma_comment_end(s, i + 2);
    } else if c == '"' {
        lemma_string_end(s, i + 1);
    } else if !(c == '(' || c == ')' || c == '{' || c == '}' || c == ',' || c == '.' || c == '-'
        || c == '+' || c == ';' || c == '*' || c == '!' || c == '=' || c == '<' || c == '>' || c
        == '/' || c == ' ' || c == '\r' || c == '\t' || c == '\n') {
        if is_digit_char(c) {
            lemma_digits_end(s, i);
            let d = digits_end(s, i);
            if d + 1 < s.len() && s[d] == '.' && is_digit_char(s[d + 1]) {
                lemma_digits_end(s, d + 1);
            }
        } else if is_alpha_char(c) {
            lemma_ident_end(s, i);
        }
    }
}

/// No classification step emits an `Eof` token; only the end of the scan
/// does.
pub proof fn lemma_scan_step_no_eof(s: Seq<char>, i: int)
    requires
        0 <= i < s.len(),
    ensures
        scan_step(s, i).token matches Option::Some(t) ==> t.type_of != TokenType::Eof,
{
}

/// Every scan suffix yields a well-formed stream: it ends in exactly one
/// `Eof` token and holds no other.
pub proof fn lemma_scan_from_wf(s: Seq<char>, i: int)
    requires
        0 <= i <= s.len(),
    ensures
        tokens_wf(scan_from(s, i).tokens),
    decreases s.len() - i,
{
    if i < s.len() {
        lemma_scan_step_in_range(s, i);
        lemma_scan_step_no_eof(s, i);
        let step = scan_step(s, i);
        lemma_scan_from_wf(s, step.next);
        let rest = scan_from(s, step.next);
        let whole = scan_from(s, i).tokens;
        assert(whole == opt_seq(step.token) + rest.tokens);
        assert(whole.last() == rest.tokens.last());
        assert forall|k: int| 0 <= k < whole.len() - 1 implies whole[k].type_of
            != TokenType::Eof by {
            if k >= opt_seq(step.token).len() {
                assert(whole[k] == rest.tokens[k - opt_seq(step.token).len()]);
            }
        }
    }
}

/// Appending zero or one elements is the same as pushing or doing nothing.
pub broadcast proof fn lemma_opt_concat<A>(s: Seq<A>, o: Option<A>)
    ensures
        #[trigger] (s + opt_seq(o)) == (match o {
            Option::Some(a) => s.push(a),
            Option::None => s,
        }),
{
    match o {
        Option::Some(a) => {
            assert(s + opt_seq(o) =~= s.push(a));
        },
        Option::None => {
            assert(s + opt_seq(o) =~= s);
        },
    }
}

pub proof fn lemma_digits_end_eq(x: Seq<char>, j: int, m: int)
    requires
        0 <= j <= m <= x.len(),
        forall|k: int| j <= k < m ==> is_digit_char(x[k]),
        m == x.len() || !is_digit_char(x[m]),
    ensures
        digits_end(x, j) == m,
    decreases m - j,
{
    if j < m {
        lemma_digits_end_eq(x, j + 1, m);
    }
}

/// Whether two strings hold the same characters.
fn str_eq(a: &str, b: &str) -> (r: bool)
    ensures
        r == (a@ == b@),
{
    let na = a.unicode_len();
    let nb = b.unicode_len();
    if na != nb {
        return false;
    }
    let mut i: usize = 0;
    while i < na
        invariant
            0 <= i <= na,
            na == a@.len(),
            na == b@.len(),
            forall|k: int| 0 <= k < i ==> a@[k] == b@[k],
        decreases na - i,
    {
        if a.get_char(i) != b.get_char(i) {
            return false;
        }
        i = i + 1;
    }
    proof {
        assert(a@ =~= b@);
    }
    true
}

/// The keyword table as executable code; agrees with `keyword_or_identifier`.
fn keyword_lookup(lex: &str) -> (t: TokenType)
    ensures
        t == keyword_or_identifier(lex@),
{
    if str_eq(lex, "and") {
        TokenType::And
    } else if str_eq(lex, "class") {
        TokenType::Class
    } else if str_eq(lex, "else") {
        TokenType::Else
    } else if str_eq(lex, "false") {
        TokenType::False
    } else if str_eq(lex, "for") {
        TokenType::For
    } else if str_eq(lex, "fun") {
        TokenType::Fun
    } else if str_eq(lex, "if") {
        TokenType::If
    } else if str_eq(lex, "nil") {
        TokenType::Nil
    } else if str_eq(lex, "or") {
        TokenType::Or
    } else if str_eq(lex, "print") {
        TokenType::Print
    } else if str_eq(lex, "return") {
        TokenType::Return
    } else if str_eq(lex, "super") {
        TokenType::Super
    } else if str_eq(lex, "this") {
        TokenType::This
    } else if str_eq(lex, "true") {
        TokenType::True
    } else if str_eq(lex, "var") {
        TokenType::Var
    } else if str_eq(lex, "while") {
        TokenType::While
    } else {
        TokenType::Identifier
    }
}

/// Canonicalizes a scanned number lexeme; agrees with `canon_num`.
fn canon_number(lex: &str) -> (r: String)
    requires
        is_num_lexeme(lex@),
        lex@.len() < 0xFFFF_FFFF,
    ensures
        r@ == canon_num(lex@),
{
    let ghost x = lex@;
    let n = lex.unicode_len();
    let mut ie: usize = 0;
    loop
        invariant
            0 <= ie <= n,
            n == x.len(),
            x == lex@,
            digits_end(x, ie as int) == digits_end(x, 0),
        ensures
            ie as int == digits_end(x, 0),
        decreases n - ie,
    {
        if ie >= n {
            break ;
        }
        if !(('0' as u32) <= (lex.get_char(ie) as u32) && (lex.get_char(ie) as u32) <= ('9'
            as u32)) {
            break ;
        }
        ie = ie + 1;
    }
    let mut a: usize = 0;
    loop
        invariant
            0 <= a <= ie,
            ie as int == digits_end(x, 0),
            n == x.len(),
            n < 0xFFFF_FFFF,
            x == lex@,
            ie <= n,
            lead_zeros_end(x, a as int, ie as int) == lead_zeros_end(x, 0, ie as int),
        ensures
            a as int == lead_zeros_end(x, 0, ie as int),
        decreases ie - a,
    {
        if !(a + 1 < ie) {
            break ;
        }
        if lex.get_char(a) != '0' {
            break ;
        }
        a = a + 1;
    }
    let mut k: usize = n;
    loop
        invariant
            ie as int == digits_end(x, 0),
            ie <= k <= n,
            n == x.len(),
            n < 0xFFFF_FFFF,
            x == lex@,
            frac_keep_end(x, k as int, ie as int) == frac_keep_end(x, n as int, ie as int),
        ensures
            k as int == frac_keep_end(x, n as int, ie as int),
        decreases k,
    {
        if !(k > ie + 1) {
            break ;
        }
        if lex.get_char(k - 1) != '0' {
            break ;
        }
        proof {
            lemma_digits_end(x, 0);
        }
        k = k - 1;
    }
    let b: usize = if k == ie + 1 {
        ie
    } else {
        k
    };
    proof {
        lemma_lead_zeros_le(x, 0, ie as int);
    }
    lex.substring_char(a, b).to_owned()
}

pub proof fn lemma_lead_zeros_le(x: Seq<char>, j: int, ie: int)
    requires
        j <= ie,
    ensures
        j <= lead_zeros_end(x, j, ie),
        lead_zeros_end(x, j, ie) <= ie - 1 || lead_zeros_end(x, j, ie) == j,
        lead_zeros_end(x, j, ie) + 1 < ie ==> x[lead_zeros_end(x, j, ie)] != '0',
    decreases ie - j,
{
    if j + 1 < ie && x[j] == '0' {
        lemma_lead_zeros_le(x, j + 1, ie);
    }
}

pub proof fn lemma_frac_keep(x: Seq<char>, k: int, ie: int)
    requires
        0 <= ie,
        ie + 1 <= k,
    ensures
        ie + 1 <= frac_keep_end(x, k, ie) <= k,
        frac_keep_end(x, k, ie) > ie + 1 ==> x[frac_keep_end(x, k, ie) - 1] != '0',
    decreases k,
{
    if k > ie + 1 && x[k - 1] == '0' {
        lemma_frac_keep(x, k - 1, ie);
    }
}

/// Canonicalizing a number lexeme yields a number lexeme that is already
/// canonical: every number literal the scanner emits carries its final,
/// stable text.
pub proof fn lemma_canon_idempotent(x: Seq<char>)
    requires
        is_num_lexeme(x),
    ensures
        is_num_lexeme(canon_num(x)),
        canon_num(canon_num(x)) == canon_num(x),
{
    let n = x.len() as int;
    let ie = num_int_end(x);
    lemma_digits_end(x, 0);
    lemma_lead_zeros_le(x, 0, ie);
    let a = lead_zeros_end(x, 0, ie);
    let k0 = frac_keep_end(x, n, ie);
    if ie < n {
        lemma_digits_end(x, ie + 1);
        lemma_frac_keep(x, n, ie);
    }
    let b = if k0 == ie + 1 {
        ie
    } else {
        k0
    };
    if b == ie {
        // only the integer digits stay
        let y = x.subrange(a, ie);
        assert(forall|m: int| 0 <= m < y.len() ==> is_digit_char(y[m]));
        lemma_digits_end_eq(y, 0, y.len() as int);
        assert(is_num_lexeme(y));
        assert(lead_zeros_end(y, 0, y.len() as int) == 0);
        assert(frac_keep_end(y, y.len() as int, y.len() as int) == y.len());
        assert(canon_num(y) =~= y);
    } else {
        // integer digits, the point, and at least one fraction digit stay
        let y = x.subrange(a, k0);
        let ly = k0 - a;
        let iey = ie - a;
        assert(forall|m: int| 0 <= m < iey ==> is_digit_char(y[m]));
        assert(y[iey] == '.');
        lemma_digits_end_eq(y, 0, iey);
        assert(forall|m: int| iey + 1 <= m < ly ==> is_digit_char(y[m]));
        lemma_digits_end_eq(y, iey + 1, ly);
        assert(num_int_end(y) == iey);
        assert(is_num_lexeme(y));
        assert(lead_zeros_end(y, 0, iey) == 0);
        assert(y[ly - 1] == x[k0 - 1]);
        assert(frac_keep_end(y, ly, iey) == ly);
        assert(canon_num(y) =~= y);
    }
}

/// The scanner: owns the source text and a cursor into it; consumed by one
/// scan, as the cursor cannot be rewound.
pub struct Scanner {
    source: String,
    tokens: Vec<Token>,
    start: usize,
    current: usize,
    line: u32,
}

impl Scanner {
    /// The source text this scanner reads.
    pub closed spec fn src(&self) -> Seq<char> {
        self.source@
    }

    /// A scanner that has not consumed anything yet.
    pub closed spec fn fresh(&self) -> bool {
        &&& self.start == 0
        &&& self.current == 0
        &&& self.line == 1
        &&& self.tokens@ == Seq::<Token>::empty()
        &&& self.source@.len() < 0xFFFF_FFFF
    }

    /// Mid-scan well-formedness: the cursor is inside the source and the
    /// line counter matches the newlines passed so far.
    spec fn inv(&self) -> bool {
        &&& self.current as int <= self.source@.len()
        &&& self.source@.len() < 0xFFFF_FFFF
        &&& self.line as int == line_at(self.source@, self.current as int)
    }

    /// A scanner over `source`.  The length bound keeps the 32-bit line
    /// counter from overflowing: there is at most one line per character.
    pub fn new(source: &str) -> (r: Scanner)
        requires
            source@.len() < 0xFFFF_FFFF,
        ensures
            r.src() == source@,
            r.fresh(),
    {
        Scanner {
            source: source.to_owned(),
            tokens: Vec::new(),
            start: 0,
            current: 0,
            line: 1,
        }
    }

    /// Whether the cursor has passed the last character.
    fn is_at_end(&self) -> (r: bool)
        ensures
            r == (self.current as int >= self.source@.len()),
    {
        self.current >= self.source.as_str().unicode_len()
    }

    /// Consumes and returns the character under the cursor.
    fn advance(&mut self) -> (c: char)
        requires
            (old(self).current as int) < old(self).source@.len(),
            old(self).source@.len() < 0xFFFF_FFFF,
        ensures
            final(self).source@ == old(self).source@,
            final(self).tokens == old(self).tokens,
            final(self).start == old(self).start,
            final(self).line == old(self).line,
            final(self).current == old(self).current + 1,
            c == old(self).source@[old(self).current as int],
    {
        let c = self.source.as_str().get_char(self.current);
        self.current = self.current + 1;
        c
    }

    /// Reads the character under the cursor without consuming it; a NUL
    /// stands for the end of input.
    fn peek(&self) -> (c: char)
        ensures
            c == (if (self.current as int) < self.source@.len() {
                self.source@[self.current as int]
            } else {
                '\0'
            }),
    {
        if self.is_at_end() {
            '\0'
        } else {
            self.source.as_str().get_char(self.current)
        }
    }

    /// Reads one character past the cursor without consuming; a NUL stands
    /// for the end of input.
    fn peek_next(&self) -> (c: char)
        requires
            self.current as int <= self.source@.len(),
            self.source@.len() < 0xFFFF_FFFF,
        ensures
            c == (if (self.current + 1) < self.source@.len() {
                self.source@[self.current + 1]
            } else {
                '\0'
            }),
    {
        if self.current + 1 >= self.source.as_str().unicode_len() {
            '\0'
        } else {
            self.source.as_str().get_char(self.current + 1)
        }
    }

    /// Consumes the next character only when it is `expected`.
    fn match_next(&mut self, expected: char) -> (r: bool)
        requires
            old(self).current as int <= old(self).source@.len(),
            old(self).source@.len() < 0xFFFF_FFFF,
        ensures
            final(self).source@ == old(self).source@,
            final(self).tokens == old(self).tokens,
            final(self).start == old(self).start,
            final(self).line == old(self).line,
            r == ((old(self).current as int) < old(self).source@.len() && old(self).source@[old(
                self,
            ).current as int] == expected),
            final(self).current as int == (if r {
                old(self).current + 1
            } else {
                old(self).current as int
            }),
    {
        if self.is_at_end() {
            false
        } else if self.source.as_str().get_char(self.current) != expected {
            false
        } else {
            self.current = self.current + 1;
            true
        }
    }

    /// The source substring `[start, current)`: the lexeme being scanned.
    fn source_substring(&self) -> (r: String)
        requires
            self.start <= self.current,
            self.current as int <= self.source@.len(),
        ensures
            r@ == self.source@.subrange(self.start as int, self.current as int),
    {
        self.source.as_str().substring_char(self.start, self.current).to_owned()
    }

    /// A decimal digit.
    fn is_digit(&self, c: char) -> (r: bool)
        ensures
            r == is_digit_char(c),
    {
        ('0' as u32) <= (c as u32) && (c as u32) <= ('9' as u32)
    }

    /// A letter or underscore.
    fn is_alpha(&self, c: char) -> (r: bool)
        ensures
            r == is_alpha_char(c),
    {
        (('a' as u32) <= (c as u32) && (c as u32) <= ('z' as u32)) || (('A' as u32) <= (c as u32)
            && (c as u32) <= ('Z' as u32)) || c == '_'
    }

    /// A letter, digit or underscore.
    fn is_alpha_numeric(&self, c: char) -> (r: bool)
        ensures
            r == is_alnum_char(c),
    {
        self.is_alpha(c) || self.is_digit(c)
    }

    /// Appends a token for the lexeme `[start, current)` on the current
    /// line, with the given literal value or none.
    fn add_token(&mut self, type_of: TokenType, literal: Option<Value>)
        requires
            old(self).start <= old(self).current,
            old(self).current as int <= old(self).source@.len(),
        ensures
            final(self).source@ == old(self).source@,
            final(self).start == old(self).start,
            final(self).current == old(self).current,
            final(self).line == old(self).line,
            final(self).tokens@.map_values(|t: Token| t@) == old(self).tokens@.map_values(
                |t: Token| t@,
            ).push(
                TokenModel {
                    type_of,
                    lexeme: old(self).source@.subrange(
                        old(self).start as int,
                        old(self).current as int,
                    ),
                    literal: match literal {
                        Option::Some(l) => l@,
                        Option::None => ValueModel::Null,
                    },
                    line: old(self).line,
                },
            ),
    {
        let text = self.source_substring();
        let tok = match literal {
            Option::Some(l) => Token::new(type_of, text.as_str(), l, self.line),
            Option::None => Token::new(type_of, text.as_str(), Value::Null, self.line),
        };
        self.tokens.push(tok);
        proof {
            assert(self.tokens@.map_values(|t: Token| t@) =~= old(self).tokens@.map_values(
                |t: Token| t@,
            ).push(self.tokens@.last()@));
        }
    }

    /// Scans the rest of a string literal; the opening quote is already
    /// consumed.  Newlines inside are permitted; an unterminated string is
    /// reported and scanning goes on.
    fn string(&mut self, lox: &mut Lox)
        requires
            old(self).inv(),
            old(self).current == old(self).start + 1,
            (old(self).start as int) < old(self).source@.len(),
            old(self).source@[old(self).start as int] == '"',
        ensures
            final(self).inv(),
            final(self).source@ == old(self).source@,
            final(self).current as int == string_step(
                old(self).source@,
                old(self).start as int,
            ).next,
            final(self).tokens@.map_values(|t: Token| t@) == old(self).tokens@.map_values(
                |t: Token| t@,
            ) + opt_seq(string_step(old(self).source@, old(self).start as int).token),
            final(lox)@.diags == old(lox)@.diags + opt_seq(
                string_step(old(self).source@, old(self).start as int).diag,
            ),
            final(lox)@.had_error == (old(lox)@.had_error || opt_seq(
                string_step(old(self).source@, old(self).start as int).diag,
            ).len() > 0),
    {
        broadcast use lemma_opt_concat;

        let ghost s = self.source@;
        let ghost i = self.start as int;
        let ghost toks0 = self.tokens@;
        loop
            invariant
                self.source@ == s,
                self.start as int == i,
                self.tokens@ == toks0,
                i + 1 <= self.current as int <= s.len(),
                s.len() < 0xFFFF_FFFF,
                string_end(s, self.current as int) == string_end(s, i + 1),
                self.line as int == line_at(s, self.current as int),
            ensures
                self.source@ == s,
                self.start as int == i,
                self.tokens@ == toks0,
                self.current as int == string_end(s, i + 1),
                self.current as int <= s.len(),
                self.line as int == line_at(s, self.current as int),
            decreases s.len() - self.current,
        {
            if self.is_at_end() {
                break ;
            }
            let c = self.peek();
            if c == '"' {
                break ;
            }
            if c == '\n' {
                proof {
                    lemma_newlines_bounds(s, 0, self.current as int);
                }
                self.line = self.line + 1;
            }
            let ghost cur0 = self.current as int;
            let _ = self.advance();
            proof {
                lemma_newlines_snoc(s, 0, cur0);
            }
        }
        let ghost e = string_end(s, i + 1);
        proof {
            lemma_string_end(s, i + 1);
        }
        if self.is_at_end() {
            lox.error(self.line, "Unterminated string.");
            return ;
        }
        let _ = self.advance();
        proof {
            lemma_newlines_snoc(s, 0, e);
        }
        let value = self.source.as_str().substring_char(self.start + 1, self.current - 1).to_owned();
        self.add_token(TokenType::String, Some(Value::Text(value)));
    }

    /// Scans the rest of a number literal; the first digit is already
    /// consumed.  A fractional part is taken only when the point is
    /// followed by a digit.
    fn number(&mut self)
        requires
            old(self).inv(),
            old(self).current == old(self).start + 1,
            (old(self).start as int) < old(self).source@.len(),
            is_digit_char(old(self).source@[old(self).start as int]),
        ensures
            final(self).inv(),
            final(self).source@ == old(self).source@,
            final(self).current as int == number_step(
                old(self).source@,
                old(self).start as int,
            ).next,
            final(self).tokens@.map_values(|t: Token| t@) == old(self).tokens@.map_values(
                |t: Token| t@,
            ) + opt_seq(number_step(old(self).source@, old(self).start as int).token),
    {
        broadcast use lemma_opt_concat;

        let ghost s = self.source@;
        let ghost i = self.start as int;
        let ghost toks0 = self.tokens@;
        let ghost line0 = self.line;
        proof {
            lemma_digits_end(s, i);
        }
        loop
            invariant
                self.source@ == s,
                self.start as int == i,
                self.tokens@ == toks0,
                self.line == line0,
                i + 1 <= self.current as int <= s.len(),
                s.len() < 0xFFFF_FFFF,
                digits_end(s, self.current as int) == digits_end(s, i),
                self.line as int == line_at(s, self.current as int),
            ensures
                self.source@ == s,
                self.start as int == i,
                self.tokens@ == toks0,
                self.line == line0,
                self.current as int == digits_end(s, i),
                self.current as int <= s.len(),
                self.line as int == line_at(s, self.current as int),
            decreases s.len() - self.current,
        {
            if self.is_at_end() {
                break ;
            }
            let c = self.peek();
            if !self.is_digit(c) {
                break ;
            }
            let ghost cur0 = self.current as int;
            let _ = self.advance();
            proof {
                lemma_newlines_snoc(s, 0, cur0);
            }
        }
        let ghost d = digits_end(s, i);
        let p = self.peek();
        let pn = self.peek_next();
        if p == '.' && self.is_digit(pn) {
            let ghost cur0 = self.current as int;
            let _ = self.advance();
            proof {
                lemma_newlines_snoc(s, 0, cur0);
                lemma_digits_end(s, d + 1);
            }
            loop
                invariant
                    self.source@ == s,
                    self.start as int == i,
                    self.tokens@ == toks0,
                    self.line == line0,
                    d + 1 <= self.current as int <= s.len(),
                    s.len() < 0xFFFF_FFFF,
                    digits_end(s, self.current as int) == digits_end(s, d + 1),
                    self.line as int == line_at(s, self.current as int),
                ensures
                    self.source@ == s,
                    self.start as int == i,
                    self.tokens@ == toks0,
                    self.line == line0,
                    self.current as int == digits_end(s, d + 1),
                    self.current as int <= s.len(),
                    self.line as int == line_at(s, self.current as int),
                decreases s.len() - self.current,
            {
                if self.is_at_end() {
                    break ;
                }
                let c = self.peek();
                if !self.is_digit(c) {
                    break ;
                }
                let ghost cur0 = self.current as int;
                let _ = self.advance();
                proof {
                    lemma_newlines_snoc(s, 0, cur0);
                }
            }
        }
        let ghost lex = s.subrange(i, self.current as int);
        proof {
            lemma_digits_end(s, i);
            if self.current as int != d {
                lemma_digits_end(s, d + 1);
                assert(forall|k: int| 0 <= k < d - i ==> lex[k] == s[i + k] && is_digit_char(
                    lex[k],
                ));
                lemma_digits_end_eq(lex, 0, d - i);
                assert(forall|k: int| d + 1 - i <= k < lex.len() ==> lex[k] == s[i + k]
                    && is_digit_char(lex[k]));
                lemma_digits_end_eq(lex, d + 1 - i, lex.len() as int);
            } else {
                assert(forall|k: int| 0 <= k < lex.len() ==> lex[k] == s[i + k] && is_digit_char(
                    lex[k],
                ));
                lemma_digits_end_eq(lex, 0, lex.len() as int);
            }
        }
        let lexeme = self.source_substring();
        let canon = canon_number(lexeme.as_str());
        self.add_token(TokenType::Number, Some(Value::Number(canon)));
    }

    /// Scans the rest of an identifier or keyword; the first letter is
    /// already consumed.
    fn identifier(&mut self)
        requires
            old(self).inv(),
            old(self).current == old(self).start + 1,
            (old(self).start as int) < old(self).source@.len(),
            is_alpha_char(old(self).source@[old(self).start as int]),
        ensures
            final(self).inv(),
            final(self).source@ == old(self).source@,
            final(self).current as int == ident_step(
                old(self).source@,
                old(self).start as int,
            ).next,
            final(self).tokens@.map_values(|t: Token| t@) == old(self).tokens@.map_values(
                |t: Token| t@,
            ) + opt_seq(ident_step(old(self).source@, old(self).start as int).token),
    {
        broadcast use lemma_opt_concat;

        let ghost s = self.source@;
        let ghost i = self.start as int;
        let ghost toks0 = self.tokens@;
        let ghost line0 = self.line;
        proof {
            lemma_ident_end(s, i);
        }
        loop
            invariant
                self.source@ == s,
                self.start as int == i,
                self.tokens@ == toks0,
                self.line == line0,
                i + 1 <= self.current as int <= s.len(),
                s.len() < 0xFFFF_FFFF,
                ident_end(s, self.current as int) == ident_end(s, i),
                self.line as int == line_at(s, self.current as int),
            ensures
                self.source@ == s,
                self.start as int == i,
                self.tokens@ == toks0,
                self.line == line0,
                self.current as int == ident_end(s, i),
                self.current as int <= s.len(),
                self.line as int == line_at(s, self.current as int),
            decreases s.len() - self.current,
        {
            if self.is_at_end() {
                break ;
            }
            let c = self.peek();
            if !self.is_alpha_numeric(c) {
                break ;
            }
            let ghost cur0 = self.current as int;
            let _ = self.advance();
            proof {
                lemma_newlines_snoc(s, 0, cur0);
            }
        }
        let text = self.source_substring();
        let t = keyword_lookup(text.as_str());
        self.add_token(t, None);
    }

    /// One classification step: consumes one lexeme (or discardable text)
    /// and emits at most one token and at most one diagnostic, exactly as
    /// `scan_step` says.
    fn scan_token(&mut self, lox: &mut Lox)
        requires
            old(self).inv(),
            old(self).start == old(self).current,
            (old(self).current as int) < old(self).source@.len(),
        ensures
            final(self).inv(),
            final(self).source@ == old(self).source@,
            final(self).current as int == scan_step(
                old(self).source@,
                old(self).start as int,
            ).next,
            final(self).tokens@.map_values(|t: Token| t@) == old(self).tokens@.map_values(
                |t: Token| t@,
            ) + opt_seq(scan_step(old(self).source@, old(self).start as int).token),
            final(lox)@.diags == old(lox)@.diags + opt_seq(
                scan_step(old(self).source@, old(self).start as int).diag,
            ),
            final(lox)@.had_error == (old(lox)@.had_error || opt_seq(
                scan_step(old(self).source@, old(self).start as int).diag,
            ).len() > 0),
    {
        broadcast use lemma_opt_concat;

        let ghost s = self.source@;
        let ghost i = self.start as int;
        let c = self.advance();
        proof {
            lemma_newlines_snoc(s, 0, i);
        }
        match c {
            '(' => self.add_token(TokenType::LeftParen, None),
            ')' => self.add_token(TokenType::RightParen, None),
            '{' => self.add_token(TokenType::LeftBrace, None),
            '}' => self.add_token(TokenType::RightBrace, None),
            ',' => self.add_token(TokenType::Comma, None),
            '.' => self.add_token(TokenType::Dot, None),
            '-' => self.add_token(TokenType::Minus, None),
            '+' => self.add_token(TokenType::Plus, None),
            ';' => self.add_token(TokenType::Semicolon, None),
            '*' => self.add_token(TokenType::Star, None),
            '!' => {
                if self.match_next('=') {
                    proof {
                        lemma_newlines_snoc(s, 0, i + 1);
                    }
                    self.add_token(TokenType::BangEqual, None);
                } else {
                    self.add_token(TokenType::Bang, None);
                }
            },
            '=' => {
                if self.match_next('=') {
                    proof {
                        lemma_newlines_snoc(s, 0, i + 1);
                    }
                    self.add_token(TokenType::EqualEqual, None);
                } else {
                    self.add_token(TokenType::Equal, None);
                }
            },
            '<' => {
                if self.match_next('=') {
                    proof {
                        lemma_newlines_snoc(s, 0, i + 1);
                    }
                    self.add_token(TokenType::LessEqual, None);
                } else {
                    self.add_token(TokenType::Less, None);
                }
            },
            '>' => {
                if self.match_next('=') {
                    proof {
                        lemma_newlines_snoc(s, 0, i + 1);
                    }
                    self.add_token(TokenType::GreaterEqual, None);
                } else {
                    self.add_token(TokenType::Greater, None);
                }
            },
            '/' => {
                if self.match_next('/') {
                    // a line comment runs to (not including) the next
                    // newline and is discarded whole
                    let ghost toks0 = self.tokens@;
                    let ghost line0 = self.line;
                    proof {
                        lemma_newlines_snoc(s, 0, i + 1);
                    }
                    loop
                        invariant
                            self.source@ == s,
                            self.start as int == i,
                            self.tokens@ == toks0,
                            self.line == line0,
                            i + 2 <= self.current as int <= s.len(),
                            s.len() < 0xFFFF_FFFF,
                            comment_end(s, self.current as int) == comment_end(s, i + 2),
                            self.line as int == line_at(s, self.current as int),
                        ensures
                            self.source@ == s,
                            self.start as int == i,
                            self.tokens@ == toks0,
                            self.line == line0,
                            self.current as int == comment_end(s, i + 2),
                            self.current as int <= s.len(),
                            self.line as int == line_at(s, self.current as int),
                        decreases s.len() - self.current,
                    {
                        if self.is_at_end() {
                            break ;
                        }
                        if self.peek() == '\n' {
                            break ;
                        }
                        let ghost cur0 = self.current as int;
                        let _ = self.advance();
                        proof {
                            lemma_newlines_snoc(s, 0, cur0);
                        }
                    }
                } else {
                    self.add_token(TokenType::Slash, None);
                }
            },
            ' ' => (),
            '\r' => (),
            '\t' => (),
            '\n' => {
                proof {
                    lemma_newlines_bounds(s, 0, i);
                }
                self.line = self.line + 1;
            },
            '"' => self.string(lox),
            _ => {
                if self.is_digit(c) {
                    self.number();
                } else if self.is_alpha(c) {
                    self.identifier();
                } else {
                    lox.error(self.line, "Unexpected character.");
                }
            },
        }
    }

    /// Scans the whole source: marks the start of each lexeme, classifies
    /// it, and appends the terminating `Eof` token carrying the final line.
    /// Consumes the scanner; the cursor cannot be rewound.  Every
    /// diagnostic found on the way is recorded in `lox`, and the result is
    /// always a well-formed, `Eof`-terminated stream.
    pub fn scan_tokens(self, lox: &mut Lox) -> (tokens: Vec<Token>)
        requires
            self.fresh(),
        ensures
            tokens@.map_values(|t: Token| t@) == scan_model(self.src()).tokens,
            tokens_wf(tokens@.map_values(|t: Token| t@)),
            final(lox)@.diags == old(lox)@.diags + scan_model(self.src()).diags,
            final(lox)@.had_error == (old(lox)@.had_error || scan_model(
                self.src(),
            ).diags.len() > 0),
    {
        let mut this = self;
        broadcast use lemma_opt_concat;

        let ghost s = this.source@;
        let ghost d0 = old(lox)@.diags;
        let ghost h0 = old(lox)@.had_error;
        proof {
            assert(this.tokens@.map_values(|t: Token| t@) =~= Seq::<TokenModel>::empty());
            assert(scan_from(s, 0).tokens =~= this.tokens@.map_values(|t: Token| t@) + scan_from(
                s,
                0,
            ).tokens);
            assert(lox@.diags.skip(d0.len() as int) =~= Seq::<DiagModel>::empty());
            assert(scan_from(s, 0).diags =~= lox@.diags.skip(d0.len() as int) + scan_from(
                s,
                0,
            ).diags);
            assert(d0.is_prefix_of(lox@.diags));
        }
        loop
            invariant
                this.inv(),
                this.source@ == s,
                scan_from(s, 0).tokens == this.tokens@.map_values(|t: Token| t@) + scan_from(
                    s,
                    this.current as int,
                ).tokens,
                d0.is_prefix_of(lox@.diags),
                scan_from(s, 0).diags == lox@.diags.skip(d0.len() as int) + scan_from(
                    s,
                    this.current as int,
                ).diags,
                lox@.had_error == (h0 || lox@.diags.len() > d0.len()),
            ensures
                this.inv(),
                this.source@ == s,
                this.current as int == s.len(),
                scan_from(s, 0).tokens == this.tokens@.map_values(|t: Token| t@) + scan_from(
                    s,
                    this.current as int,
                ).tokens,
                d0.is_prefix_of(lox@.diags),
                scan_from(s, 0).diags == lox@.diags.skip(d0.len() as int) + scan_from(
                    s,
                    this.current as int,
                ).diags,
                lox@.had_error == (h0 || lox@.diags.len() > d0.len()),
            decreases s.len() - this.current,
        {
            if this.is_at_end() {
                break ;
            }
            this.start = this.current;
            let ghost cur0 = this.current as int;
            let ghost toksb = this.tokens@.map_values(|t: Token| t@);
            let ghost diagb = lox@.diags;
            this.scan_token(lox);
            proof {
                lemma_scan_step_in_range(s, cur0);
                let step = scan_step(s, cur0);
                assert(scan_from(s, 0).tokens =~= this.tokens@.map_values(|t: Token| t@)
                    + scan_from(s, this.current as int).tokens) by {
                    assert(scan_from(s, cur0).tokens == opt_seq(step.token) + scan_from(
                        s,
                        step.next,
                    ).tokens);
                    assert(toksb + (opt_seq(step.token) + scan_from(s, step.next).tokens) =~= (
                    toksb + opt_seq(step.token)) + scan_from(s, step.next).tokens);
                }
                assert(d0.is_prefix_of(lox@.diags)) by {
                    assert(lox@.diags == diagb + opt_seq(step.diag));
                    assert(forall|k: int| 0 <= k < diagb.len() ==> lox@.diags[k] == diagb[k]);
                    assert(d0 =~= lox@.diags.take(d0.len() as int));
                }
                assert(scan_from(s, 0).diags =~= lox@.diags.skip(d0.len() as int) + scan_from(
                    s,
                    this.current as int,
                ).diags) by {
                    assert(scan_from(s, cur0).diags == opt_seq(step.diag) + scan_from(
                        s,
                        step.next,
                    ).diags);
                    assert(lox@.diags.skip(d0.len() as int) =~= diagb.skip(d0.len() as int)
                        + opt_seq(step.diag));
                    assert((diagb.skip(d0.len() as int) + opt_seq(step.diag)) + scan_from(
                        s,
                        step.next,
                    ).diags =~= diagb.skip(d0.len() as int) + (opt_seq(step.diag) + scan_from(
                        s,
                        step.next,
                    ).diags));
                }
            }
        }
        let ghost pre_map = this.tokens@.map_values(|t: Token| t@);
        let eof_line = this.line;
        let tok = Token::new(TokenType::Eof, "", Value::Null, eof_line);
        this.tokens.push(tok);
        proof {
            let toks = this.tokens@.map_values(|t: Token| t@);
            assert(tok@ == eof_token(s));
            assert(toks =~= pre_map.push(eof_token(s)));
            assert(scan_from(s, s.len() as int).tokens == seq![eof_token(s)]);
            assert(toks =~= scan_from(s, 0).tokens) by {
                assert(toks =~= pre_map + seq![eof_token(s)]);
            }
            assert(scan_from(s, s.len() as int).diags.len() == 0);
            assert(lox@.diags =~= d0 + lox@.diags.skip(d0.len() as int));
            assert(lox@.diags =~= d0 + scan_from(s, 0).diags);
            lemma_scan_from_wf(s, 0);
        }
        this.tokens
    }
}

} // verus!

