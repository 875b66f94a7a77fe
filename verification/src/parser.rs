//! The parser: recursive descent with precedence climbing over a token
//! stream, producing an expression tree or a parse error recorded in the
//! diagnostics sink.
//!
//! The spec side models the grammar directly: `parse_binary` handles one
//! left-associative binary-operator level and descends into the next finer
//! one, `parse_unary` and `parse_primary` the tighter rules.  The exec
//! parser is proved to return exactly what the model says, token for token.

use vstd::prelude::*;

use crate::ast::Binary;
use crate::ast::Expr;
use crate::ast::ExprModel;
use crate::ast::Grouping;
use crate::ast::Literal;
use crate::ast::Unary;
use crate::ast::expr_model;
use crate::diag::DiagModel;
use crate::diag::Lox;
use crate::diag::LoxModel;
use crate::diag::reported;
use crate::token::Token;
use crate::token::TokenModel;
use crate::token::TokenType;
use crate::token::Value;
use crate::token::ValueModel;
use crate::token::tokens_wf;

verus! {

/// The binary-operator precedence levels, loosest binding first.
#[derive(Clone, Copy, PartialEq, Eq, Structural, Debug)]
pub enum BinLevel {
    Equality,
    Comparison,
    Term,
    Factor,
}

/// Which operators a level folds.
pub open spec fn level_op(l: BinLevel, t: TokenType) -> bool {
    match l {
        BinLevel::Equality => t == TokenType::BangEqual || t == TokenType::EqualEqual,
        BinLevel::Comparison => t == TokenType::Greater || t == TokenType::GreaterEqual || t
            == TokenType::Less || t == TokenType::LessEqual,
        BinLevel::Term => t == TokenType::Minus || t == TokenType::Plus,
        BinLevel::Factor => t == TokenType::Slash || t == TokenType::Star,
    }
}

/// The next tighter-binding level below `l`; `Factor` descends into the
/// unary rule instead.
pub open spec fn finer(l: BinLevel) -> BinLevel {
    match l {
        BinLevel::Equality => BinLevel::Comparison,
        BinLevel::Comparison => BinLevel::Term,
        BinLevel::Term => BinLevel::Factor,
        BinLevel::Factor => BinLevel::Factor,
    }
}

/// Termination rank of a level's rule.
pub open spec fn level_rank(l: BinLevel) -> int {
    match l {
        BinLevel::Equality => 10,
        BinLevel::Comparison => 8,
        BinLevel::Term => 6,
        BinLevel::Factor => 4,
    }
}

/// What a parse rule produces: a tree and the cursor after it, or a parse
/// error carrying its message and the diagnostic it reports.
pub enum PResult {
    Parsed { expr: ExprModel, next: int },
    Failed { message: Seq<char>, diag: DiagModel },
}

/// The location note of a parse error: at the offending token's lexeme, or
/// at the end of input.
pub open spec fn err_location(t: TokenModel) -> Seq<char> {
    if t.type_of == TokenType::Eof {
        " at end"@
    } else {
        " at '"@ + t.lexeme + "'"@
    }
}

/// A parse error at token `t`.
pub open spec fn parse_error(t: TokenModel, message: Seq<char>) -> PResult {
    PResult::Failed {
        message,
        diag: DiagModel { line: t.line, location: err_location(t), message },
    }
}

/// The token under cursor position `j`; the cursor never passes the final
/// `Eof`, so past-the-end positions read the last token.
pub open spec fn tok_at(ts: Seq<TokenModel>, j: int) -> TokenModel {
    if j < ts.len() {
        ts[j]
    } else {
        ts.last()
    }
}

/// One left-associative binary level: parse one operand at the next finer
/// level, then fold further operands under this level's operators.
pub open spec fn parse_binary(ts: Seq<TokenModel>, i: int, l: BinLevel) -> PResult
    decreases ts.len() - i, level_rank(l), 1int,
    when 0 <= i < ts.len()
{
    let sub = if l == BinLevel::Factor {
        parse_unary(ts, i)
    } else {
        parse_binary(ts, i, finer(l))
    };
    match sub {
        PResult::Parsed { expr, next } => {
            if i < next && next <= ts.len() {
                parse_binary_rest(ts, next, l, expr)
            } else {
                // dead: every rule consumes at least one token
                sub
            }
        },
        PResult::Failed { message, diag } => sub,
    }
}

/// The `(op operand)*` fold of one binary level, with `left` already built:
/// while the upcoming token is one of the level's operators, consume it,
/// parse the next operand one level finer, and fold a `Binary` node whose
/// left child is everything built so far.
pub open spec fn parse_binary_rest(ts: Seq<TokenModel>, i: int, l: BinLevel, left: ExprModel) -> PResult
    decreases ts.len() - i, level_rank(l), 0int,
    when 0 <= i <= ts.len()
{
    if i < ts.len() && level_op(l, ts[i].type_of) {
        let sub = if l == BinLevel::Factor {
            parse_unary(ts, i + 1)
        } else {
            parse_binary(ts, i + 1, finer(l))
        };
        match sub {
            PResult::Parsed { expr, next } => {
                let folded = ExprModel::Binary {
                    left: Box::new(left),
                    operator: ts[i],
                    right: Box::new(expr),
                };
                if i + 1 < next && next <= ts.len() {
                    parse_binary_rest(ts, next, l, folded)
                } else {
                    // dead: every rule consumes at least one token
                    PResult::Parsed { expr: folded, next }
                }
            },
            PResult::Failed { message, diag } => sub,
        }
    } else {
        PResult::Parsed { expr: left, next: i }
    }
}

/// The unary rule: `!` or `-` applied to a unary operand, or a primary.
pub open spec fn parse_unary(ts: Seq<TokenModel>, i: int) -> PResult
    decreases ts.len() - i, 2int, 0int,
    when 0 <= i < ts.len()
{
    if ts[i].type_of == TokenType::Bang || ts[i].type_of == TokenType::Minus {
        if i + 1 < ts.len() {
            match parse_unary(ts, i + 1) {
                PResult::Parsed { expr, next } => PResult::Parsed {
                    expr: ExprModel::Unary { operator: ts[i], right: Box::new(expr) },
                    next,
                },
                err => err,
            }
        } else {
            // dead: the operator is never the final Eof token
            parse_error(ts[i], "Expected expression."@)
        }
    } else {
        parse_primary(ts, i)
    }
}

/// The primary rule: a literal, or a parenthesized expression.  A missing
/// closing parenthesis reports "Expected ')' after expression."; a token
/// that starts no expression reports "Expected expression."
pub open spec fn parse_primary(ts: Seq<TokenModel>, i: int) -> PResult
    decreases ts.len() - i, 1int, 0int,
    when 0 <= i < ts.len()
{
    let t = ts[i];
    if t.type_of == TokenType::False {
        PResult::Parsed { expr: ExprModel::Literal { value: ValueModel::Boolean(false) }, next: i + 1 }
    } else if t.type_of == TokenType::True {
        PResult::Parsed { expr: ExprModel::Literal { value: ValueModel::Boolean(true) }, next: i + 1 }
    } else if t.type_of == TokenType::Nil {
        PResult::Parsed { expr: ExprModel::Literal { value: ValueModel::Null }, next: i + 1 }
    } else if t.type_of == TokenType::Number || t.type_of == TokenType::String {
        PResult::Parsed { expr: ExprModel::Literal { value: t.literal }, next: i + 1 }
    } else if t.type_of == TokenType::LeftParen {
        if i + 1 < ts.len() {
            match parse_binary(ts, i + 1, BinLevel::Equality) {
                PResult::Parsed { expr, next } => {
                    if next < ts.len() && ts[next].type_of == TokenType::RightParen {
                        PResult::Parsed {
                            expr: ExprModel::Grouping { expression: Box::new(expr) },
                            next: next + 1,
                        }
                    } else {
                        parse_error(tok_at(ts, next), "Expected ')' after expression."@)
                    }
                },
                err => err,
            }
        } else {
            // dead: the parenthesis is never the final Eof token
            parse_error(ts[i], "Expected expression."@)
        }
    } else {
        parse_error(t, "Expected expression."@)
    }
}

/// The whole expression grammar, entered at the loosest binary level.
pub open spec fn parse_expression_at(ts: Seq<TokenModel>, i: int) -> PResult {
    parse_binary(ts, i, BinLevel::Equality)
}

/// A statement boundary for panic-mode recovery.
pub open spec fn is_sync_point(t: TokenType) -> bool {
    t == TokenType::Class || t == TokenType::Fun || t == TokenType::Var || t == TokenType::For || t
        == TokenType::If || t == TokenType::While || t == TokenType::Print || t
        == TokenType::Return
}

/// The first position at or after `j` holding a statement-start keyword or
/// the final `Eof`: where panic-mode recovery stops discarding.
pub open spec fn sync_from(ts: Seq<TokenModel>, j: int) -> int
    decreases ts.len() - j,
    when 0 <= j <= ts.len()
{
    if j >= ts.len() || ts[j].type_of == TokenType::Eof || is_sync_point(ts[j].type_of) {
        j
    } else {
        sync_from(ts, j + 1)
    }
}

/// The relation every exec parse rule maintains with its spec rule `out`:
/// on success the returned tree and final cursor are exactly the model's,
/// at least one token was consumed, and no diagnostic was recorded; on
/// failure the error message and the recorded diagnostic are exactly the
/// model's.
pub open spec fn rule_post(
    out: PResult,
    r: Result<Expr, ParseError>,
    c0: int,
    c1: int,
    l0: LoxModel,
    l1: LoxModel,
) -> bool {
    match r {
        Result::Ok(e) => {
            &&& out == (PResult::Parsed { expr: expr_model(e), next: c1 })
            &&& c0 < c1
            &&& l1 == l0
        },
        Result::Err(pe) => {
            &&& out matches PResult::Failed { message, diag } && message == pe@ && l1 == reported(
                l0,
                diag.line,
                diag.location,
                diag.message,
            )
        },
    }
}

/// An atom token: one the primary rule turns into a literal node.
pub open spec fn is_atom(t: TokenType) -> bool {
    t == TokenType::Number || t == TokenType::String || t == TokenType::True || t
        == TokenType::False || t == TokenType::Nil
}

/// The literal node an atom token parses to.
pub open spec fn atom_expr(t: TokenModel) -> ExprModel {
    if t.type_of == TokenType::False {
        ExprModel::Literal { value: ValueModel::Boolean(false) }
    } else if t.type_of == TokenType::True {
        ExprModel::Literal { value: ValueModel::Boolean(true) }
    } else if t.type_of == TokenType::Nil {
        ExprModel::Literal { value: ValueModel::Null }
    } else {
        ExprModel::Literal { value: t.literal }
    }
}

/// Whether `t` is an operator of `l` or of any finer level.
pub open spec fn op_at_or_below(l: BinLevel, t: TokenType) -> bool
    decreases level_rank(l),
{
    match l {
        BinLevel::Equality => level_op(l, t) || op_at_or_below(BinLevel::Comparison, t),
        BinLevel::Comparison => level_op(l, t) || op_at_or_below(BinLevel::Term, t),
        BinLevel::Term => level_op(l, t) || op_at_or_below(BinLevel::Factor, t),
        BinLevel::Factor => level_op(l, t),
    }
}

/// The next looser-binding level above `l`.
pub open spec fn coarser(l: BinLevel) -> BinLevel {
    match l {
        BinLevel::Equality => BinLevel::Equality,
        BinLevel::Comparison => BinLevel::Equality,
        BinLevel::Term => BinLevel::Comparison,
        BinLevel::Factor => BinLevel::Term,
    }
}

/// An atom followed by no operator of level `l` or finer parses, at level
/// `l`, to its literal node alone.
pub proof fn lemma_parse_atom(ts: Seq<TokenModel>, i: int, l: BinLevel)
    requires
        tokens_wf(ts),
        0 <= i < ts.len(),
        is_atom(ts[i].type_of),
        i + 1 < ts.len(),
        !op_at_or_below(l, ts[i + 1].type_of),
    ensures
        parse_binary(ts, i, l) == (PResult::Parsed { expr: atom_expr(ts[i]), next: i + 1 }),
    decreases level_rank(l),
{
    assert(parse_primary(ts, i) == (PResult::Parsed { expr: atom_expr(ts[i]), next: i + 1 }));
    assert(parse_unary(ts, i) == (PResult::Parsed { expr: atom_expr(ts[i]), next: i + 1 }));
    if l != BinLevel::Factor {
        lemma_parse_atom(ts, i, finer(l));
    }
    assert(parse_binary_rest(ts, i + 1, l, atom_expr(ts[i])) == (PResult::Parsed {
        expr: atom_expr(ts[i]),
        next: i + 1,
    }));
}

/// A result already parsed at level `l` and stopped at the final `Eof` is
/// the result at every looser level too: the looser folds find no operator.
proof fn lemma_climb(ts: Seq<TokenModel>, l: BinLevel, e: ExprModel, n: int)
    requires
        tokens_wf(ts),
        0 < n < ts.len(),
        ts[n].type_of == TokenType::Eof,
        parse_binary(ts, 0, l) == (PResult::Parsed { expr: e, next: n }),
    ensures
        parse_binary(ts, 0, BinLevel::Equality) == (PResult::Parsed { expr: e, next: n }),
    decreases 10 - level_rank(l),
{
    if l != BinLevel::Equality {
        let up = coarser(l);
        assert(finer(up) == l);
        assert(parse_binary_rest(ts, n, up, e) == (PResult::Parsed { expr: e, next: n }));
        assert(parse_binary(ts, 0, up) == (PResult::Parsed { expr: e, next: n }));
        lemma_climb(ts, up, e, n);
    }
}

/// Left-associativity holds at every binary precedence level: a stream
/// `a op1 b op2 c Eof` whose atoms are joined by two operators of the same
/// level parses to `((a op1 b) op2 c)` — the first operator's node is the
/// left child of the second's.
pub proof fn lemma_left_associative(ts: Seq<TokenModel>, l: BinLevel)
    requires
        tokens_wf(ts),
        ts.len() == 6,
        is_atom(ts[0].type_of),
        is_atom(ts[2].type_of),
        is_atom(ts[4].type_of),
        level_op(l, ts[1].type_of),
        level_op(l, ts[3].type_of),
    ensures
        parse_expression_at(ts, 0) == (PResult::Parsed {
            expr: ExprModel::Binary {
                left: Box::new(
                    ExprModel::Binary {
                        left: Box::new(atom_expr(ts[0])),
                        operator: ts[1],
                        right: Box::new(atom_expr(ts[2])),
                    },
                ),
                operator: ts[3],
                right: Box::new(atom_expr(ts[4])),
            },
            next: 5,
        }),
{
    reveal_with_fuel(op_at_or_below, 5);
    assert(!op_at_or_below(BinLevel::Equality, ts[5].type_of));
    assert(!op_at_or_below(l, ts[5].type_of));
    let a0 = atom_expr(ts[0]);
    let a2 = atom_expr(ts[2]);
    let a4 = atom_expr(ts[4]);
    let folded1 = ExprModel::Binary {
        left: Box::new(a0),
        operator: ts[1],
        right: Box::new(a2),
    };
    let folded2 = ExprModel::Binary {
        left: Box::new(folded1),
        operator: ts[3],
        right: Box::new(a4),
    };
    if l == BinLevel::Factor {
        assert(parse_primary(ts, 0) == (PResult::Parsed { expr: a0, next: 1 }));
        assert(parse_primary(ts, 2) == (PResult::Parsed { expr: a2, next: 3 }));
        assert(parse_primary(ts, 4) == (PResult::Parsed { expr: a4, next: 5 }));
        assert(parse_unary(ts, 0) == (PResult::Parsed { expr: a0, next: 1 }));
        assert(parse_unary(ts, 2) == (PResult::Parsed { expr: a2, next: 3 }));
        assert(parse_unary(ts, 4) == (PResult::Parsed { expr: a4, next: 5 }));
    } else {
        // the levels' operator sets are disjoint, so an operator of `l`
        // stops every finer fold
        assert(!op_at_or_below(finer(l), ts[1].type_of));
        assert(!op_at_or_below(finer(l), ts[3].type_of));
        assert(!op_at_or_below(finer(l), ts[5].type_of));
        lemma_parse_atom(ts, 0, finer(l));
        lemma_parse_atom(ts, 2, finer(l));
        lemma_parse_atom(ts, 4, finer(l));
    }
    assert(parse_binary_rest(ts, 5, l, folded2) == (PResult::Parsed { expr: folded2, next: 5 }));
    assert(parse_binary_rest(ts, 3, l, folded1) == (PResult::Parsed { expr: folded2, next: 5 }));
    assert(parse_binary_rest(ts, 1, l, a0) == (PResult::Parsed { expr: folded2, next: 5 }));
    assert(parse_binary(ts, 0, l) == (PResult::Parsed { expr: folded2, next: 5 }));
    lemma_climb(ts, l, folded2, 5);
}

/// The next tighter-binding level as executable code; agrees with `finer`.
fn finer_level(l: BinLevel) -> (r: BinLevel)
    ensures
        r == finer(l),
{
    match l {
        BinLevel::Equality => BinLevel::Comparison,
        BinLevel::Comparison => BinLevel::Term,
        BinLevel::Term => BinLevel::Factor,
        BinLevel::Factor => BinLevel::Factor,
    }
}

/// The recursive-descent parser: a read-only token stream and a cursor
/// that only moves forward, never past the final `Eof`.
pub struct Parser {
    tokens: Vec<Token>,
    current: usize,
}

impl Parser {
    /// The token stream, as models.
    pub closed spec fn toks(&self) -> Seq<TokenModel> {
        self.tokens@.map_values(|t: Token| t@)
    }

    /// The cursor.
    pub closed spec fn cur(&self) -> int {
        self.current as int
    }

    /// Well-formedness: the stream is `Eof`-terminated and the cursor has
    /// not passed the `Eof` token.
    pub open spec fn wf(&self) -> bool {
        &&& tokens_wf(self.toks())
        &&& 0 <= self.cur() < self.toks().len()
    }

    /// A parser over `tokens`, with the cursor at the first token.
    pub fn new(tokens: Vec<Token>) -> (p: Parser)
        requires
            tokens_wf(tokens@.map_values(|t: Token| t@)),
        ensures
            p.toks() == tokens@.map_values(|t: Token| t@),
            p.cur() == 0,
            p.wf(),
    {
        Parser { tokens, current: 0 }
    }

    /// The token under the cursor, without consuming it.
    fn peek(&self) -> (t: &Token)
        requires
            self.wf(),
        ensures
            t@ == self.toks()[self.cur()],
    {
        let t = &self.tokens[self.current];
        proof {
            assert(self.toks()[self.cur()] == self.tokens@[self.current as int]@);
        }
        t
    }

    /// The token just consumed.
    fn previous(&self) -> (t: &Token)
        requires
            self.wf(),
            self.cur() >= 1,
        ensures
            t@ == self.toks()[self.cur() - 1],
    {
        let t = &self.tokens[self.current - 1];
        proof {
            assert(self.toks()[self.cur() - 1] == self.tokens@[self.current - 1]@);
        }
        t
    }

    /// Whether the stream is exhausted: the upcoming token is `Eof`.
    fn is_at_end(&self) -> (r: bool)
        requires
            self.wf(),
        ensures
            r == (self.toks()[self.cur()].type_of == TokenType::Eof),
    {
        self.peek().type_of == TokenType::Eof
    }

    /// Whether the upcoming token has the given kind; `Eof` never matches.
    fn check(&self, token_type: TokenType) -> (r: bool)
        requires
            self.wf(),
        ensures
            r == (self.toks()[self.cur()].type_of == token_type && self.toks()[self.cur()].type_of
                != TokenType::Eof),
    {
        if self.is_at_end() {
            false
        } else {
            self.peek().type_of == token_type
        }
    }

    /// Consumes the upcoming token (unless it is `Eof`) and returns the
    /// token just consumed.
    fn advance(&mut self) -> (t: Token)
        requires
            old(self).wf(),
            old(self).toks()[old(self).cur()].type_of != TokenType::Eof || old(self).cur() >= 1,
        ensures
            final(self).toks() == old(self).toks(),
            final(self).wf(),
            final(self).cur() == (if old(self).toks()[old(self).cur()].type_of != TokenType::Eof {
                old(self).cur() + 1
            } else {
                old(self).cur()
            }),
            t@ == final(self).toks()[final(self).cur() - 1],
    {
        proof {
            assert(self.tokens.len() == self.tokens@.len());
        }
        if !self.is_at_end() {
            self.current = self.current + 1;
        }
        self.previous().duplicate()
    }

    /// Consumes the upcoming token and reports true only when its kind is
    /// one of `types`; `Eof` never matches.
    fn match_types(&mut self, types: Vec<TokenType>) -> (r: bool)
        requires
            old(self).wf(),
        ensures
            final(self).toks() == old(self).toks(),
            final(self).wf(),
            ({
                let t = old(self).toks()[old(self).cur()].type_of;
                if types@.contains(t) && t != TokenType::Eof {
                    r && final(self).cur() == old(self).cur() + 1
                } else {
                    !r && *final(self) == *old(self)
                }
            }),
    {
        let n = types.len();
        let mut k: usize = 0;
        while k < n
            invariant
                0 <= k <= n,
                n == types@.len(),
                *self == *old(self),
                self.wf(),
                forall|m: int|
                    0 <= m < k ==> !(self.toks()[self.cur()].type_of == types@[m]
                        && self.toks()[self.cur()].type_of != TokenType::Eof),
            decreases n - k,
        {
            if self.check(types[k]) {
                proof {
                    assert(types@.contains(old(self).toks()[old(self).cur()].type_of));
                }
                let _ = self.advance();
                return true;
            }
            k = k + 1;
        }
        false
    }

    /// Reports a parse error against `token` and returns it as a value: the
    /// diagnostic carries the token's line, a location note naming the
    /// offending lexeme (or the end of input), and the message.
    fn error(&self, token: &Token, message: &str, lox: &mut Lox) -> (pe: ParseError)
        ensures
            pe@ == message@,
            final(lox)@ == reported(old(lox)@, token@.line, err_location(token@), message@),
    {
        let mut location = String::new();
        if token.type_of == TokenType::Eof {
            location.append(" at end");
        } else {
            location.append(" at '");
            location.append(token.lexeme.as_str());
            location.append("'");
        }
        proof {
            assert(location@ =~= err_location(token@));
        }
        lox.report(token.line, location.as_str(), message);
        ParseError(message.to_owned())
    }

    /// Requires the upcoming token to have the given kind: consumes and
    /// returns it, or reports `err` against the upcoming token.
    fn consume(&mut self, token_type: TokenType, err: &str, lox: &mut Lox) -> (r: Result<
        Token,
        ParseError,
    >)
        requires
            old(self).wf(),
        ensures
            final(self).toks() == old(self).toks(),
            final(self).wf(),
            ({
                let t = old(self).toks()[old(self).cur()];
                if t.type_of == token_type && t.type_of != TokenType::Eof {
                    &&& r matches Result::Ok(tok) && tok@ == t
                    &&& final(self).cur() == old(self).cur() + 1
                    &&& *final(lox) == *old(lox)
                } else {
                    &&& r matches Result::Err(pe) && pe@ == err@
                    &&& *final(self) == *old(self)
                    &&& final(lox)@ == reported(old(lox)@, t.line, err_location(t), err@)
                }
            }),
    {
        if self.check(token_type) {
            Result::Ok(self.advance())
        } else {
            let t = self.peek().duplicate();
            Result::Err(self.error(&t, err, lox))
        }
    }

    /// Parses one expression from the cursor on: the entry point.  On
    /// success the returned tree is exactly what the grammar model says;
    /// on failure the error is recorded in `lox` and returned as a value.
    pub fn parse(&mut self, lox: &mut Lox) -> (r: Result<Expr, ParseError>)
        requires
            old(self).wf(),
        ensures
            final(self).toks() == old(self).toks(),
            final(self).wf(),
            rule_post(
                parse_expression_at(old(self).toks(), old(self).cur()),
                r,
                old(self).cur(),
                final(self).cur(),
                old(lox)@,
                final(lox)@,
            ),
    {
        self.expression(lox)
    }

    /// The `expression` rule: an equality.
    fn expression(&mut self, lox: &mut Lox) -> (r: Result<Expr, ParseError>)
        requires
            old(self).wf(),
        ensures
            final(self).toks() == old(self).toks(),
            final(self).wf(),
            rule_post(
                parse_expression_at(old(self).toks(), old(self).cur()),
                r,
                old(self).cur(),
                final(self).cur(),
                old(lox)@,
                final(lox)@,
            ),
        decreases self.toks().len() - self.cur(), 12int, 0int,
    {
        self.equality(lox)
    }

    /// The `equality` rule: `comparison (("!=" | "==") comparison)*`.
    fn equality(&mut self, lox: &mut Lox) -> (r: Result<Expr, ParseError>)
        requires
            old(self).wf(),
        ensures
            final(self).toks() == old(self).toks(),
            final(self).wf(),
            rule_post(
                parse_binary(old(self).toks(), old(self).cur(), BinLevel::Equality),
                r,
                old(self).cur(),
                final(self).cur(),
                old(lox)@,
                final(lox)@,
            ),
        decreases self.toks().len() - self.cur(), 11int, 0int,
    {
        self.binary_level(BinLevel::Equality, lox)
    }

    /// One left-associative binary level, `equality` down to `factor`:
    /// parse one operand one level finer, then while the upcoming token is
    /// one of this level's operators, consume it and fold a `Binary` node
    /// with everything built so far as its left child.
    fn binary_level(&mut self, l: BinLevel, lox: &mut Lox) -> (r: Result<Expr, ParseError>)
        requires
            old(self).wf(),
        ensures
            final(self).toks() == old(self).toks(),
            final(self).wf(),
            rule_post(
                parse_binary(old(self).toks(), old(self).cur(), l),
                r,
                old(self).cur(),
                final(self).cur(),
                old(lox)@,
                final(lox)@,
            ),
        decreases self.toks().len() - self.cur(), level_rank(l), 1int,
    {
        let ghost ts = self.toks();
        let ghost c0 = self.cur();
        let sub = if l == BinLevel::Factor {
            self.unary(lox)
        } else {
            self.binary_level(finer_level(l), lox)
        };
        let mut expr = match sub {
            Result::Ok(v) => v,
            Result::Err(e) => {
                return Result::Err(e);
            },
        };
        loop
            invariant
                self.wf(),
                self.toks() == ts,
                old(self).toks() == ts,
                old(self).cur() == c0,
                tokens_wf(ts),
                c0 < self.cur(),
                0 <= c0 < ts.len(),
                parse_binary(ts, c0, l) == parse_binary_rest(ts, self.cur(), l, expr_model(expr)),
                lox@ == old(lox)@,
            ensures
                self.wf(),
                self.toks() == ts,
                c0 < self.cur(),
                parse_binary(ts, c0, l) == (PResult::Parsed {
                    expr: expr_model(expr),
                    next: self.cur(),
                }),
                lox@ == old(lox)@,
            decreases ts.len() - self.cur(),
        {
            let matched = match l {
                BinLevel::Equality => self.match_types(
                    vec![TokenType::BangEqual, TokenType::EqualEqual],
                ),
                BinLevel::Comparison => self.match_types(
                    vec![
                        TokenType::Greater,
                        TokenType::GreaterEqual,
                        TokenType::Less,
                        TokenType::LessEqual,
                    ],
                ),
                BinLevel::Term => self.match_types(vec![TokenType::Minus, TokenType::Plus]),
                BinLevel::Factor => self.match_types(vec![TokenType::Slash, TokenType::Star]),
            };
            let ghost j = self.cur() - 1;
            if !matched {
                proof {
                    assert(!(self.cur() < ts.len() && level_op(l, ts[self.cur()].type_of)));
                }
                break ;
            }
            proof {
                assert(level_op(l, ts[j].type_of));
            }
            let operator = self.previous().duplicate();
            let sub2 = if l == BinLevel::Factor {
                self.unary(lox)
            } else {
                self.binary_level(finer_level(l), lox)
            };
            let right = match sub2 {
                Result::Ok(v) => v,
                Result::Err(e) => {
                    return Result::Err(e);
                },
            };
            expr = Binary::new(Box::new(expr), operator, Box::new(right));
        }
        Result::Ok(expr)
    }

    /// The `unary` rule: `("!" | "-") unary | primary`.
    fn unary(&mut self, lox: &mut Lox) -> (r: Result<Expr, ParseError>)
        requires
            old(self).wf(),
        ensures
            final(self).toks() == old(self).toks(),
            final(self).wf(),
            rule_post(
                parse_unary(old(self).toks(), old(self).cur()),
                r,
                old(self).cur(),
                final(self).cur(),
                old(lox)@,
                final(lox)@,
            ),
        decreases self.toks().len() - self.cur(), 2int, 0int,
    {
        if self.match_types(vec![TokenType::Bang, TokenType::Minus]) {
            let operator = self.previous().duplicate();
            let right = match self.unary(lox) {
                Result::Ok(v) => v,
                Result::Err(e) => {
                    return Result::Err(e);
                },
            };
            Result::Ok(Unary::new(operator, Box::new(right)))
        } else {
            self.primary(lox)
        }
    }

    /// The `primary` rule: a literal or a parenthesized expression.
    fn primary(&mut self, lox: &mut Lox) -> (r: Result<Expr, ParseError>)
        requires
            old(self).wf(),
        ensures
            final(self).toks() == old(self).toks(),
            final(self).wf(),
            rule_post(
                parse_primary(old(self).toks(), old(self).cur()),
                r,
                old(self).cur(),
                final(self).cur(),
                old(lox)@,
                final(lox)@,
            ),
        decreases self.toks().len() - self.cur(), 1int, 0int,
    {
        if self.match_types(vec![TokenType::False]) {
            return Result::Ok(Literal::new(Value::Boolean(false)));
        }
        if self.match_types(vec![TokenType::True]) {
            return Result::Ok(Literal::new(Value::Boolean(true)));
        }
        if self.match_types(vec![TokenType::Nil]) {
            return Result::Ok(Literal::new(Value::Null));
        }
        if self.match_types(vec![TokenType::Number, TokenType::String]) {
            let v = self.previous().literal.duplicate();
            return Result::Ok(Literal::new(v));
        }
        if self.match_types(vec![TokenType::LeftParen]) {
            let inner = match self.expression(lox) {
                Result::Ok(v) => v,
                Result::Err(e) => {
                    return Result::Err(e);
                },
            };
            match self.consume(TokenType::RightParen, "Expected ')' after expression.", lox) {
                Result::Ok(_) => Result::Ok(Grouping::new(Box::new(inner))),
                Result::Err(e) => Result::Err(e),
            }
        } else {
            let t = self.peek().duplicate();
            Result::Err(self.error(&t, "Expected expression.", lox))
        }
    }

    /// Panic-mode recovery: discards tokens until a statement-start keyword
    /// or the end of input, so that one malformed expression does not block
    /// later input.
    pub fn synchronize(&mut self)
        requires
            old(self).wf(),
        ensures
            final(self).toks() == old(self).toks(),
            final(self).wf(),
            final(self).cur() == sync_from(
                old(self).toks(),
                (if old(self).toks()[old(self).cur()].type_of == TokenType::Eof {
                    old(self).cur()
                } else {
                    old(self).cur() + 1
                }),
            ),
    {
        let ghost ts = self.toks();
        if !self.is_at_end() {
            let _ = self.advance();
        }
        let ghost j0 = self.cur();
        loop
            invariant
                self.wf(),
                self.toks() == ts,
                tokens_wf(ts),
                j0 <= self.cur(),
                0 <= j0 <= ts.len(),
                sync_from(ts, self.cur()) == sync_from(ts, j0),
            ensures
                self.wf(),
                self.toks() == ts,
                self.cur() == sync_from(ts, j0),
            decreases ts.len() - self.cur(),
        {
            if self.is_at_end() {
                break ;
            }
            let t = self.peek().type_of;
            if t == TokenType::Class || t == TokenType::Fun || t == TokenType::Var || t
                == TokenType::For || t == TokenType::If || t == TokenType::While || t
                == TokenType::Print || t == TokenType::Return {
                break ;
            }
            let _ = self.advance();
        }
    }
}

/// A parse error as a value: the message of the diagnostic it was reported
/// with.
#[derive(Debug)]
pub struct ParseError(String);

impl View for ParseError {
    type V = Seq<char>;

    closed spec fn view(&self) -> Seq<char> {
        self.0@
    }
}

impl ParseError {
    /// The error's message.
    pub fn message(&self) -> (m: &String)
        ensures
            m@ == self@,
    {
        &self.0
    }
}

} // verus!

