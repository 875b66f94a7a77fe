//! The pretty-printer: the first visitor consumer.  Renders a tree as fully
//! parenthesized prefix notation, e.g. `(* (- 123) (group 12.5))`.

use vstd::prelude::*;

use crate::ast::Binary;
use crate::ast::Expr;
use crate::ast::ExprModel;
use crate::ast::Grouping;
use crate::ast::Literal;
use crate::ast::Unary;
use crate::ast::Visitor;
use crate::ast::binary_model;
use crate::ast::expr_model;
use crate::ast::grouping_model;
use crate::ast::literal_model;
use crate::ast::unary_model;
use crate::parser::BinLevel;
use crate::parser::PResult;
use crate::parser::atom_expr;
use crate::parser::lemma_parse_atom;
use crate::parser::op_at_or_below;
use crate::parser::parse_expression_at;
use crate::scanner::canon_num;
use crate::scanner::digits_end;
use crate::scanner::eof_token;
use crate::scanner::is_digit_char;
use crate::scanner::is_num_lexeme;
use crate::scanner::lemma_digits_end;
use crate::scanner::lemma_scan_from_wf;
use crate::scanner::line_at;
use crate::scanner::num_int_end;
use crate::scanner::number_step;
use crate::scanner::scan_from;
use crate::scanner::scan_model;
use crate::scanner::scan_step;
use crate::token::TokenModel;
use crate::token::TokenType;
use crate::token::ValueModel;
use crate::token::value_text;

verus! {

/// Each part of a parenthesized group, preceded by one space.
pub open spec fn spaced(parts: Seq<Seq<char>>) -> Seq<char>
    decreases parts.len(),
{
    if parts.len() == 0 {
        Seq::<char>::empty()
    } else {
        " "@ + parts.first() + spaced(parts.drop_first())
    }
}

/// A parenthesized group: the name, then each part after one space.
pub open spec fn paren_text(name: Seq<char>, parts: Seq<Seq<char>>) -> Seq<char> {
    "("@ + name + spaced(parts) + ")"@
}

/// The rendering of an expression tree: operators parenthesize their
/// children under the operator's lexeme, a grouping under the word `group`,
/// and a literal renders as its textual form.
pub open spec fn render(e: ExprModel) -> Seq<char>
    decreases e,
{
    match e {
        ExprModel::Binary { left, operator, right } => paren_text(
            operator.lexeme,
            seq![render(*left), render(*right)],
        ),
        ExprModel::Grouping { expression } => paren_text("group"@, seq![render(*expression)]),
        ExprModel::Literal { value } => value_text(value),
        ExprModel::Unary { operator, right } => paren_text(operator.lexeme, seq![render(*right)]),
    }
}

proof fn lemma_spaced_push(ps: Seq<Seq<char>>, p: Seq<char>)
    ensures
        spaced(ps.push(p)) == spaced(ps) + " "@ + p,
    decreases ps.len(),
{
    if ps.len() == 0 {
        assert(ps.push(p).drop_first() =~= Seq::<Seq<char>>::empty());
        assert(spaced(Seq::<Seq<char>>::empty()) == Seq::<char>::empty());
        assert(ps.push(p).first() == p);
        assert(spaced(ps.push(p)) =~= spaced(ps) + " "@ + p);
    } else {
        assert(ps.push(p).drop_first() =~= ps.drop_first().push(p));
        assert(ps.push(p).first() == ps.first());
        lemma_spaced_push(ps.drop_first(), p);
        assert(spaced(ps.push(p)) =~= spaced(ps) + " "@ + p);
    }
}

/// Round trip for a number literal: its rendering is its canonical decimal
/// text, and scanning and re-parsing that text reproduces the very same
/// tree, with nothing reported.  This is the one literal whose rendering
/// ranges over all its values and stays in the expression grammar: a text
/// literal renders without its quotes, and operator nodes render in prefix
/// notation, which the grammar does not read back.
pub proof fn lemma_number_literal_round_trip(x: Seq<char>)
    requires
        is_num_lexeme(x),
        canon_num(x) == x,
    ensures
        ({
            let e = ExprModel::Literal { value: ValueModel::Number(x) };
            let out = scan_model(render(e));
            &&& out.diags.len() == 0
            &&& parse_expression_at(out.tokens, 0) == (PResult::Parsed { expr: e, next: 1 })
        }),
{
    let e = ExprModel::Literal { value: ValueModel::Number(x) };
    assert(render(e) == x);
    // the first character is a digit, so the scan takes the number branch
    // and the whole text is one number token
    let ie = num_int_end(x);
    lemma_digits_end(x, 0);
    assert(is_digit_char(x[0]));
    let step = scan_step(x, 0);
    assert(step == number_step(x, 0));
    if ie < x.len() {
        lemma_digits_end(x, ie + 1);
        assert(is_digit_char(x[ie + 1]));
    }
    assert(step.next == x.len());
    assert(x.subrange(0, x.len() as int) =~= x);
    let tok = TokenModel {
        type_of: TokenType::Number,
        lexeme: x,
        literal: ValueModel::Number(x),
        line: line_at(x, x.len() as int) as u32,
    };
    assert(step.token == Some(tok));
    let out = scan_model(x);
    assert(scan_from(x, x.len() as int).tokens == seq![eof_token(x)]);
    assert(out.tokens =~= seq![tok, eof_token(x)]);
    assert(out.diags.len() == 0);
    // a number token is an atom and the next token is the final Eof, so
    // every parse level passes the literal through unchanged
    lemma_scan_from_wf(x, 0);
    reveal_with_fuel(op_at_or_below, 5);
    assert(!op_at_or_below(BinLevel::Equality, eof_token(x).type_of));
    lemma_parse_atom(out.tokens, 0, BinLevel::Equality);
    assert(atom_expr(out.tokens[0]) == e);
}

/// Renders expression trees as fully parenthesized prefix notation.
pub struct PrettyPrinter;

impl Visitor<String> for PrettyPrinter {
    /// This visitor returns exactly the rendering of the node.
    open spec fn visits(&self, e: ExprModel, r: String) -> bool {
        r@ == render(e)
    }

    fn visit_binary(&self, binary: &Binary) -> (r: String)
        ensures
            self.visits(binary_model(*binary), r),
    {
        self.render_binary(binary)
    }

    fn visit_grouping(&self, grouping: &Grouping) -> (r: String)
        ensures
            self.visits(grouping_model(*grouping), r),
    {
        self.render_grouping(grouping)
    }

    fn visit_literal(&self, literal: &Literal) -> (r: String)
        ensures
            self.visits(literal_model(*literal), r),
    {
        literal.value.to_string()
    }

    fn visit_unary(&self, unary: &Unary) -> (r: String)
        ensures
            self.visits(unary_model(*unary), r),
    {
        self.render_unary(unary)
    }
}

impl PrettyPrinter {
    pub fn new() -> PrettyPrinter {
        PrettyPrinter {}
    }

    /// Renders a whole tree, dispatching through the visitor contract.
    pub fn print(&self, expr: Expr) -> (r: String)
        ensures
            r@ == render(expr_model(expr)),
    {
        expr.accept(self)
    }

    /// The recursive worker: renders one node and its children.
    fn render_expr(&self, e: &Expr) -> (r: String)
        ensures
            r@ == render(expr_model(*e)),
        decreases *e,
    {
        match e {
            Expr::Binary(b) => self.render_binary(b),
            Expr::Grouping(g) => self.render_grouping(g),
            Expr::Literal(l) => l.value.to_string(),
            Expr::Unary(u) => self.render_unary(u),
        }
    }

    fn render_binary(&self, b: &Binary) -> (r: String)
        ensures
            r@ == render(binary_model(*b)),
        decreases *b,
    {
        let left = self.render_expr(&b.left);
        let right = self.render_expr(&b.right);
        let parts = vec![left, right];
        proof {
            assert(parts@.map_values(|p: String| p@) =~= seq![
                render(expr_model(*b.left)),
                render(expr_model(*b.right)),
            ]);
        }
        self.parenthesize(b.operator.lexeme.as_str(), parts)
    }

    fn render_grouping(&self, g: &Grouping) -> (r: String)
        ensures
            r@ == render(grouping_model(*g)),
        decreases *g,
    {
        let inner = self.render_expr(&g.expression);
        let parts = vec![inner];
        proof {
            assert(parts@.map_values(|p: String| p@) =~= seq![
                render(expr_model(*g.expression)),
            ]);
        }
        self.parenthesize("group", parts)
    }

    fn render_unary(&self, u: &Unary) -> (r: String)
        ensures
            r@ == render(unary_model(*u)),
        decreases *u,
    {
        let right = self.render_expr(&u.right);
        let parts = vec![right];
        proof {
            assert(parts@.map_values(|p: String| p@) =~= seq![render(expr_model(*u.right))]);
        }
        self.parenthesize(u.operator.lexeme.as_str(), parts)
    }

    /// Joins a group name and already-rendered parts as `(name part...)`.
    fn parenthesize(&self, name: &str, parts: Vec<String>) -> (r: String)
        ensures
            r@ == paren_text(name@, parts@.map_values(|p: String| p@)),
    {
        let ghost models = parts@.map_values(|p: String| p@);
        let mut builder = String::new();
        builder.append("(");
        builder.append(name);
        let mut i: usize = 0;
        while i < parts.len()
            invariant
                0 <= i <= parts.len(),
                models == parts@.map_values(|p: String| p@),
                builder@ == "("@ + name@ + spaced(models.take(i as int)),
            decreases parts.len() - i,
        {
            builder.append(" ");
            builder.append(parts[i].as_str());
            proof {
                assert(models.take(i + 1) =~= models.take(i as int).push(models[i as int]));
                lemma_spaced_push(models.take(i as int), models[i as int]);
                assert(builder@ =~= "("@ + name@ + spaced(models.take(i + 1)));
            }
            i = i + 1;
        }
        builder.append(")");
        proof {
            assert(models.take(parts@.len() as int) =~= models);
            assert(builder@ =~= paren_text(name@, models));
        }
        builder
    }
}

} // verus!
