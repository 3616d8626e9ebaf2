//! The parser: tokens to a syntax tree.
//!
//! Statements are recognised by their leading token; assignment needs one
//! token of lookahead past an identifier. Expressions are parsed by
//! precedence climbing over the tiers, lowest first: `or`; `and`;
//! comparisons; `+ - .. ..=`; `* /`; `$ $$`; then the postfix `? !`, the
//! postfix index and dot-index, and prefix operators, which bind tightest.
//! All infix operators are left-associative.

use vstd::prelude::*;
use crate::ast::{group_seq_views, opt_stmt_view, exprs_view, stmts_view, funcs_view, conds_view,
    arms_view, expr_entries_view, names_view, Program, Function, NormalClosure, Closure, Statement, SetStatement, SetOp,
    DefineStatement, DefineAndSetStatement, WhileStatement, ForStatement, IfExpression, Expression,
    Operation, Operator, PrefixedExpression, PrefixOp, PostfixedExpression, PostfixOp, Block,
    MapExpression, FunctionCall, ExpressionsArray, ExpressionsTable, Value, Val, ClosV, ExprV,
    StmtV, FuncV, BlockV, IfV, PostOpV, ProgramV};
use crate::lexer::{Token, TokV, toks_view, sp_lex, lex};
use crate::bytes::dup_bytes;

verus! {

/// Where parsing stopped: the byte offset of a malformed token, or the
/// index of the token that could not be used.
pub struct ParseError {
    pub pos: usize,
}

/// One item of a statement list: a plain statement, or a function
/// definition to hoist.
pub enum Item {
    Stmt(Statement),
    Func(Function),
}

// ---------------------------------------------------------------------------
// The mathematical parser: what parsing a token sequence yields, stated as
// total functions over the token models. Each executable function below is
// proved to return exactly what its counterpart here says.
//
// A step that continues from a position returned by a recursive call first
// checks that the position moved forward and stayed in bounds; the
// executable parser shows those checks can never fail, but writing them
// down makes each function visibly total.
// ---------------------------------------------------------------------------

/// Model of one parsed item: a statement or a hoisted function definition.
pub enum ItemV {
    Stmt(StmtV),
    Func(FuncV),
}

/// The model of an executable expression-parse result.
pub open spec fn expr_res_view(r: Result<(Expression, usize), ParseError>) -> Result<
    (ExprV, int),
    int,
> {
    match r {
        Result::Ok(p) => Result::Ok((p.0@, p.1 as int)),
        Result::Err(e) => Result::Err(e.pos as int),
    }
}

/// The model of an executable statement-parse result.
pub open spec fn stmt_res_view(r: Result<(Statement, usize), ParseError>) -> Result<
    (StmtV, int),
    int,
> {
    match r {
        Result::Ok(p) => Result::Ok((p.0@, p.1 as int)),
        Result::Err(e) => Result::Err(e.pos as int),
    }
}

/// The model of an executable item-parse result.
pub open spec fn item_res_view(r: Result<(Item, usize), ParseError>) -> Result<(ItemV, int), int> {
    match r {
        Result::Ok(p) => Result::Ok(
            (
                match p.0 {
                    Item::Stmt(st) => ItemV::Stmt(st@),
                    Item::Func(f) => ItemV::Func(f@),
                },
                p.1 as int,
            ),
        ),
        Result::Err(e) => Result::Err(e.pos as int),
    }
}

/// The infix tier a token belongs to, 0 when it is no infix operator.
pub open spec fn sp_tier(t: TokV) -> int {
    match t {
        TokV::KwOr => 1,
        TokV::KwAnd => 2,
        TokV::EqEq => 3,
        TokV::NotEq => 3,
        TokV::Lt => 3,
        TokV::Gt => 3,
        TokV::Le => 3,
        TokV::Ge => 3,
        TokV::Plus => 4,
        TokV::Minus => 4,
        TokV::DotDot => 4,
        TokV::DotDotEq => 4,
        TokV::Star => 5,
        TokV::Slash => 5,
        TokV::Dollar => 6,
        TokV::DollarDollar => 6,
        _ => 0,
    }
}

/// The operator a token stands for.
pub open spec fn sp_op(t: TokV) -> Operator {
    match t {
        TokV::KwOr => Operator::Or,
        TokV::KwAnd => Operator::And,
        TokV::EqEq => Operator::Eq,
        TokV::NotEq => Operator::Neq,
        TokV::Lt => Operator::Lt,
        TokV::Gt => Operator::Gt,
        TokV::Le => Operator::Lte,
        TokV::Ge => Operator::Gte,
        TokV::Plus => Operator::Add,
        TokV::Minus => Operator::Sub,
        TokV::DotDot => Operator::ExclusiveRange,
        TokV::DotDotEq => Operator::InclusiveRange,
        TokV::Star => Operator::Mul,
        TokV::Slash => Operator::Div,
        TokV::Dollar => Operator::Dollar,
        TokV::DollarDollar => Operator::DoubleDollar,
        _ => Operator::Add,
    }
}

/// Parse an expression, by the model.
pub open spec fn sp_expr(tv: Seq<TokV>, i: int) -> Result<(ExprV, int), int>
    decreases tv.len() - i, 9int, 0int, 0int,
{
    sp_binary(tv, i, 1)
}

/// Parse at an infix tier and above, by the model.
pub open spec fn sp_binary(tv: Seq<TokV>, i: int, tier: int) -> Result<(ExprV, int), int>
    decreases tv.len() - i, 8int, 2 * (7 - tier) + 1, 0int,
{
    if i < 0 || i > tv.len() || tier < 1 || tier > 6 {
        Result::Err(i)
    } else {
        let operand = if tier == 6 {
            sp_postfix_print(tv, i)
        } else {
            sp_binary(tv, i, tier + 1)
        };
        match operand {
            Result::Err(p) => Result::Err(p),
            Result::Ok((lhs, j)) => if j <= i || j > tv.len() {
                Result::Err(j)
            } else {
                sp_binary_more(tv, i, lhs, j, tier)
            },
        }
    }
}

/// Fold further operators of one tier onto a parsed left operand.
pub open spec fn sp_binary_more(tv: Seq<TokV>, i: int, lhs: ExprV, j: int, tier: int) -> Result<
    (ExprV, int),
    int,
>
    decreases tv.len() - i, 8int, 2 * (7 - tier), tv.len() - j,
{
    if j <= i || j > tv.len() || tier < 1 || tier > 6 {
        Result::Err(j)
    } else if j == tv.len() || sp_tier(tv[j]) != tier {
        Result::Ok((lhs, j))
    } else {
        let op = sp_op(tv[j]);
        let operand = if tier == 6 {
            sp_postfix_print(tv, j + 1)
        } else {
            sp_binary(tv, j + 1, tier + 1)
        };
        match operand {
            Result::Err(p) => Result::Err(p),
            Result::Ok((rhs, j2)) => if j2 <= j || j2 > tv.len() {
                Result::Err(j2)
            } else {
                sp_binary_more(
                    tv,
                    i,
                    ExprV::Infix { lhs: Box::new(lhs), op, rhs: Box::new(rhs) },
                    j2,
                    tier,
                )
            },
        }
    }
}

/// Parse the postfix debug and print tier, by the model.
pub open spec fn sp_postfix_print(tv: Seq<TokV>, i: int) -> Result<(ExprV, int), int>
    decreases tv.len() - i, 7int, 1int, 0int,
{
    if i < 0 || i > tv.len() {
        Result::Err(i)
    } else {
        match sp_postfix_index(tv, i) {
            Result::Err(p) => Result::Err(p),
            Result::Ok((e, j)) => if j <= i || j > tv.len() {
                Result::Err(j)
            } else {
                sp_postfix_print_more(tv, i, e, j)
            },
        }
    }
}

/// Fold further debug and print operators onto a parsed operand.
pub open spec fn sp_postfix_print_more(tv: Seq<TokV>, i: int, e: ExprV, j: int) -> Result<
    (ExprV, int),
    int,
>
    decreases tv.len() - i, 7int, 0int, tv.len() - j,
{
    if j <= i || j > tv.len() {
        Result::Err(j)
    } else if j == tv.len() || !(tv[j] is Question || tv[j] is Bang) {
        Result::Ok((e, j))
    } else {
        let op = if tv[j] is Question {
            PostOpV::Debug
        } else {
            PostOpV::Print
        };
        sp_postfix_print_more(tv, i, ExprV::Postfix { expr: Box::new(e), op }, j + 1)
    }
}

/// Parse the postfix index and dot-index tier, by the model.
pub open spec fn sp_postfix_index(tv: Seq<TokV>, i: int) -> Result<(ExprV, int), int>
    decreases tv.len() - i, 6int, 1int, 0int,
{
    if i < 0 || i > tv.len() {
        Result::Err(i)
    } else {
        match sp_unary(tv, i) {
            Result::Err(p) => Result::Err(p),
            Result::Ok((e, j)) => if j <= i || j > tv.len() {
                Result::Err(j)
            } else {
                sp_postfix_index_more(tv, i, e, j)
            },
        }
    }
}

/// Fold further index and dot-index operators onto a parsed operand.
pub open spec fn sp_postfix_index_more(tv: Seq<TokV>, i: int, e: ExprV, j: int) -> Result<
    (ExprV, int),
    int,
>
    decreases tv.len() - i, 6int, 0int, tv.len() - j,
{
    if j <= i || j > tv.len() {
        Result::Err(j)
    } else if j == tv.len() || !(tv[j] is LBracket || tv[j] is Dot) {
        Result::Ok((e, j))
    } else if tv[j] is LBracket {
        match sp_expr(tv, j + 1) {
            Result::Err(p) => Result::Err(p),
            Result::Ok((idx, j2)) => if j2 < tv.len() && tv[j2] is RBracket {
                if j2 <= j {
                    Result::Err(j2)
                } else {
                    sp_postfix_index_more(
                        tv,
                        i,
                        ExprV::Postfix { expr: Box::new(e), op: PostOpV::Index(Box::new(idx)) },
                        j2 + 1,
                    )
                }
            } else {
                Result::Err(j2)
            },
        }
    } else {
        if j + 1 < tv.len() && tv[j + 1] is Ident {
            sp_postfix_index_more(
                tv,
                i,
                ExprV::Postfix { expr: Box::new(e), op: PostOpV::DotIndex(tv[j + 1]->Ident_0) },
                j + 2,
            )
        } else {
            Result::Err(j + 1)
        }
    }
}

/// Parse prefix operators, which bind tightest, by the model.
pub open spec fn sp_unary(tv: Seq<TokV>, i: int) -> Result<(ExprV, int), int>
    decreases tv.len() - i, 5int, 0int, 0int,
{
    if i < 0 || i >= tv.len() {
        Result::Err(i)
    } else {
        let op = match tv[i] {
            TokV::Minus => Option::Some(PrefixOp::Negate),
            TokV::Bang => Option::Some(PrefixOp::Not),
            TokV::HashOne => Option::Some(PrefixOp::Hash),
            TokV::HashTwo => Option::Some(PrefixOp::DoubleHash),
            TokV::HashThree => Option::Some(PrefixOp::TripleHash),
            _ => Option::None,
        };
        match op {
            Option::Some(p) => match sp_unary(tv, i + 1) {
                Result::Err(q) => Result::Err(q),
                Result::Ok((e, j)) => Result::Ok((ExprV::Prefix { op: p, expr: Box::new(e) }, j)),
            },
            Option::None => sp_primary(tv, i),
        }
    }
}

/// Parse a comma-separated expression list up to its closing token, by the
/// model.
pub open spec fn sp_expr_list(tv: Seq<TokV>, j: int, close_bracket: bool, acc: Seq<ExprV>) -> Result<
    (Seq<ExprV>, int),
    int,
>
    decreases tv.len() - j, 13int, 0int, 0int,
{
    if j < 0 || j > tv.len() {
        Result::Err(j)
    } else if acc.len() == 0 && j < tv.len() && ((close_bracket && tv[j] is RBracket) || (
    !close_bracket && tv[j] is RParen)) {
        Result::Ok((acc, j + 1))
    } else {
        match sp_expr(tv, j) {
            Result::Err(p) => Result::Err(p),
            Result::Ok((e, j2)) => if j2 <= j || j2 > tv.len() {
                Result::Err(j2)
            } else if j2 < tv.len() && tv[j2] is Comma {
                if j2 + 1 >= tv.len() {
                    Result::Err(j2 + 1)
                } else {
                    sp_expr_list(tv, j2 + 1, close_bracket, acc.push(e))
                }
            } else if j2 < tv.len() && ((close_bracket && tv[j2] is RBracket) || (!close_bracket
                && tv[j2] is RParen)) {
                Result::Ok((acc.push(e), j2 + 1))
            } else {
                Result::Err(j2)
            },
        }
    }
}

/// Parse the entries of a table literal, by the model.
pub open spec fn sp_table_entries(tv: Seq<TokV>, j: int, acc: Seq<(Seq<u8>, ExprV)>) -> Result<
    (Seq<(Seq<u8>, ExprV)>, int),
    int,
>
    decreases tv.len() - j, 13int, 0int, 0int,
{
    if j < 0 || j >= tv.len() {
        Result::Err(j)
    } else if !(tv[j] is Ident) {
        Result::Err(j)
    } else if !(j + 1 < tv.len() && tv[j + 1] is Colon) {
        Result::Err(j + 1)
    } else {
        let key = tv[j]->Ident_0;
        match sp_expr(tv, j + 2) {
            Result::Err(p) => Result::Err(p),
            Result::Ok((e, j2)) => if j2 <= j || j2 > tv.len() {
                Result::Err(j2)
            } else if j2 < tv.len() && tv[j2] is Comma {
                sp_table_entries(tv, j2 + 1, acc.push((key, e)))
            } else if j2 < tv.len() && tv[j2] is RBrace {
                Result::Ok((acc.push((key, e)), j2 + 1))
            } else {
                Result::Err(j2)
            },
        }
    }
}

/// Parse closure parameters after the opening bar, by the model.
pub open spec fn sp_pipe_params(tv: Seq<TokV>, j: int, acc: Seq<Seq<u8>>) -> Result<
    (Seq<Seq<u8>>, int),
    int,
>
    decreases tv.len() - j, 1int, 0int, 0int,
{
    if j < 0 || j >= tv.len() {
        Result::Err(j)
    } else if tv[j] is Pipe {
        Result::Ok((acc, j + 1))
    } else if tv[j] is Ident {
        let name = tv[j]->Ident_0;
        if j + 1 < tv.len() && tv[j + 1] is Comma {
            sp_pipe_params(tv, j + 2, acc.push(name))
        } else {
            sp_pipe_params(tv, j + 1, acc.push(name))
        }
    } else {
        Result::Err(j)
    }
}

/// Parse function parameters after the opening parenthesis, by the model.
pub open spec fn sp_fn_params(tv: Seq<TokV>, j: int, acc: Seq<Seq<u8>>) -> Result<
    (Seq<Seq<u8>>, int),
    int,
>
    decreases tv.len() - j, 1int, 0int, 0int,
{
    if j < 0 || j >= tv.len() {
        Result::Err(j)
    } else if tv[j] is RParen {
        Result::Ok((acc, j + 1))
    } else if tv[j] is Ident {
        let name = tv[j]->Ident_0;
        if j + 1 < tv.len() && tv[j + 1] is Comma {
            sp_fn_params(tv, j + 2, acc.push(name))
        } else {
            sp_fn_params(tv, j + 1, acc.push(name))
        }
    } else {
        Result::Err(j)
    }
}

/// Parse the cases of one match arm up to the arrow, by the model.
pub open spec fn sp_cases(tv: Seq<TokV>, j: int, acc: Seq<ExprV>) -> Result<(Seq<ExprV>, int), int>
    decreases tv.len() - j, 13int, 0int, 0int,
{
    if j < 0 || j > tv.len() {
        Result::Err(j)
    } else {
        match sp_expr(tv, j) {
            Result::Err(p) => Result::Err(p),
            Result::Ok((case, j2)) => if j2 <= j || j2 > tv.len() {
                Result::Err(j2)
            } else if j2 < tv.len() && tv[j2] is Comma {
                if j2 + 1 >= tv.len() {
                    Result::Err(j2 + 1)
                } else {
                    sp_cases(tv, j2 + 1, acc.push(case))
                }
            } else if j2 < tv.len() && tv[j2] is Arrow {
                Result::Ok((acc.push(case), j2 + 1))
            } else {
                Result::Err(j2)
            },
        }
    }
}

/// Parse match arms up to the closing brace, by the model.
pub open spec fn sp_arms(
    tv: Seq<TokV>,
    j: int,
    input: ExprV,
    acc: Seq<(Seq<ExprV>, ExprV)>,
) -> Result<(ExprV, int), int>
    decreases tv.len() - j, 13int, 1int, 0int,
{
    if j < 0 || j >= tv.len() {
        Result::Err(j)
    } else if tv[j] is RBrace {
        Result::Ok((ExprV::Match { input: Box::new(input), arms: acc }, j + 1))
    } else {
        match sp_cases(tv, j, Seq::empty()) {
            Result::Err(p) => Result::Err(p),
            Result::Ok((cases, j1)) => if j1 <= j || j1 > tv.len() {
                Result::Err(j1)
            } else {
                match sp_expr(tv, j1) {
                    Result::Err(p) => Result::Err(p),
                    Result::Ok((value, j2)) => if j2 <= j1 || j2 > tv.len() {
                        Result::Err(j2)
                    } else {
                        let j3 = if j2 < tv.len() && tv[j2] is Semi {
                            j2 + 1
                        } else {
                            j2
                        };
                        sp_arms(tv, j3, input, acc.push((cases, value)))
                    },
                }
            },
        }
    }
}

/// Parse the elif branches of a conditional, by the model.
pub open spec fn sp_elifs(tv: Seq<TokV>, j: int, acc: Seq<(ExprV, StmtV)>) -> Result<
    (Seq<(ExprV, StmtV)>, int),
    int,
>
    decreases tv.len() - j, 13int, 0int, 0int,
{
    if j < 0 || j > tv.len() {
        Result::Err(j)
    } else if j >= tv.len() || !(tv[j] is KwElif) {
        Result::Ok((acc, j))
    } else {
        match sp_expr(tv, j + 1) {
            Result::Err(p) => Result::Err(p),
            Result::Ok((c, j1)) => if j1 <= j || j1 > tv.len() {
                Result::Err(j1)
            } else {
                match sp_stmt(tv, j1) {
                    Result::Err(p) => Result::Err(p),
                    Result::Ok((s, j2)) => if j2 <= j || j2 > tv.len() {
                        Result::Err(j2)
                    } else {
                        sp_elifs(tv, j2, acc.push((c, s)))
                    },
                }
            },
        }
    }
}

/// Parse a table literal, by the model.
pub open spec fn sp_table_expr(tv: Seq<TokV>, i: int) -> Result<(ExprV, int), int>
    decreases tv.len() - i, 3int, 0int, 0int,
{
    if i < 0 || i >= tv.len() {
        Result::Err(i)
    } else if i + 1 < tv.len() && tv[i + 1] is RBrace {
        Result::Ok((ExprV::Table(Seq::empty()), i + 2))
    } else {
        match sp_table_entries(tv, i + 1, Seq::empty()) {
            Result::Err(p) => Result::Err(p),
            Result::Ok((entries, j)) => Result::Ok((ExprV::Table(entries), j)),
        }
    }
}

/// Parse a closure literal, by the model.
pub open spec fn sp_closure_expr(tv: Seq<TokV>, i: int) -> Result<(ExprV, int), int>
    decreases tv.len() - i, 3int, 0int, 0int,
{
    if i < 0 || i >= tv.len() {
        Result::Err(i)
    } else {
        match sp_pipe_params(tv, i + 1, Seq::empty()) {
            Result::Err(p) => Result::Err(p),
            Result::Ok((params, j)) => if j <= i || j > tv.len() {
                Result::Err(j)
            } else {
                match sp_expr(tv, j) {
                    Result::Err(p) => Result::Err(p),
                    Result::Ok((body, j2)) => Result::Ok(
                        (
                            ExprV::Value(Val::Clos(ClosV::Script { params, body: Box::new(body) })),
                            j2,
                        ),
                    ),
                }
            },
        }
    }
}

/// Parse a match expression, by the model.
pub open spec fn sp_match_expr(tv: Seq<TokV>, i: int) -> Result<(ExprV, int), int>
    decreases tv.len() - i, 3int, 0int, 0int,
{
    if i < 0 || i >= tv.len() {
        Result::Err(i)
    } else {
        match sp_expr(tv, i + 1) {
            Result::Err(p) => Result::Err(p),
            Result::Ok((input, j0)) => if !(j0 < tv.len() && tv[j0] is LBrace) {
                Result::Err(j0)
            } else if j0 <= i {
                Result::Err(j0)
            } else {
                sp_arms(tv, j0 + 1, input, Seq::empty())
            },
        }
    }
}

/// Parse a conditional expression, by the model.
pub open spec fn sp_if_expr(tv: Seq<TokV>, i: int) -> Result<(ExprV, int), int>
    decreases tv.len() - i, 3int, 0int, 0int,
{
    if i < 0 || i >= tv.len() {
        Result::Err(i)
    } else {
        match sp_expr(tv, i + 1) {
            Result::Err(p) => Result::Err(p),
            Result::Ok((cond, j0)) => if j0 <= i || j0 > tv.len() {
                Result::Err(j0)
            } else {
                match sp_stmt(tv, j0) {
                    Result::Err(p) => Result::Err(p),
                    Result::Ok((branch, j1)) => if j1 <= i || j1 > tv.len() {
                        Result::Err(j1)
                    } else {
                        match sp_elifs(tv, j1, seq![(cond, branch)]) {
                            Result::Err(p) => Result::Err(p),
                            Result::Ok((conds, j2)) => if j2 <= i || j2 > tv.len() {
                                Result::Err(j2)
                            } else if j2 < tv.len() && tv[j2] is KwElse {
                                match sp_stmt(tv, j2 + 1) {
                                    Result::Err(p) => Result::Err(p),
                                    Result::Ok((s2, j3)) => Result::Ok(
                                        (
                                            ExprV::If(
                                                IfV { conds, otherwise: Option::Some(Box::new(s2)) },
                                            ),
                                            j3,
                                        ),
                                    ),
                                }
                            } else {
                                Result::Ok((ExprV::If(IfV { conds, otherwise: Option::None }), j2))
                            },
                        }
                    },
                }
            },
        }
    }
}

/// Parse a primary expression, by the model.
pub open spec fn sp_primary(tv: Seq<TokV>, i: int) -> Result<(ExprV, int), int>
    decreases tv.len() - i, 4int, 0int, 0int,
{
    if i < 0 || i >= tv.len() {
        Result::Err(i)
    } else {
        match tv[i] {
            TokV::Num(n) => Result::Ok((ExprV::Value(Val::Num(n as int)), i + 1)),
            TokV::Str(s) => Result::Ok((ExprV::Value(Val::Str(s)), i + 1)),
            TokV::KwTrue => Result::Ok((ExprV::Value(Val::Bool(true)), i + 1)),
            TokV::KwFalse => Result::Ok((ExprV::Value(Val::Bool(false)), i + 1)),
            TokV::KwNil => Result::Ok((ExprV::Value(Val::Nil), i + 1)),
            TokV::Ident(name) => {
                if i + 1 < tv.len() && tv[i + 1] is LParen {
                    match sp_expr_list(tv, i + 2, false, Seq::empty()) {
                        Result::Err(p) => Result::Err(p),
                        Result::Ok((args, j)) => Result::Ok((ExprV::Call { name, args }, j)),
                    }
                } else {
                    Result::Ok((ExprV::Ident(name), i + 1))
                }
            }
            TokV::LParen => match sp_expr(tv, i + 1) {
                Result::Err(p) => Result::Err(p),
                Result::Ok((e, j)) => if j < tv.len() && tv[j] is RParen {
                    Result::Ok((e, j + 1))
                } else {
                    Result::Err(j)
                },
            },
            TokV::LBracket => match sp_expr_list(tv, i + 1, true, Seq::empty()) {
                Result::Err(p) => Result::Err(p),
                Result::Ok((elems, j)) => Result::Ok((ExprV::Array(elems), j)),
            },
            TokV::LBrace => match sp_block_items(tv, i + 1, Seq::empty(), Seq::empty()) {
                Result::Err(p) => Result::Err(p),
                Result::Ok((stmts, funcs, j)) => Result::Ok(
                    (ExprV::Block(BlockV { stmts, funcs }), j),
                ),
            },
            TokV::TableOpen => sp_table_expr(tv, i),
            TokV::Pipe => sp_closure_expr(tv, i),
            TokV::KwMatch => sp_match_expr(tv, i),
            TokV::KwIf => sp_if_expr(tv, i),
            _ => Result::Err(i),
        }
    }
}

/// Parse one statement, by the model.
pub open spec fn sp_stmt(tv: Seq<TokV>, i: int) -> Result<(StmtV, int), int>
    decreases tv.len() - i, 10int, 0int, 0int,
{
    if i < 0 || i >= tv.len() {
        Result::Err(i)
    } else {
        match tv[i] {
            TokV::KwLet => {
                if !(i + 1 < tv.len()) {
                    Result::Err(i + 1)
                } else if !(tv[i + 1] is Ident) {
                    Result::Err(i + 1)
                } else {
                    let name = tv[i + 1]->Ident_0;
                    if i + 2 < tv.len() && tv[i + 2] is Assign {
                        match sp_expr(tv, i + 3) {
                            Result::Err(p) => Result::Err(p),
                            Result::Ok((e, j)) => Result::Ok(
                                (StmtV::DefineAndSet { name, expr: e }, j),
                            ),
                        }
                    } else {
                        Result::Ok((StmtV::Define { name }, i + 2))
                    }
                }
            }
            TokV::KwWhile => match sp_expr(tv, i + 1) {
                Result::Err(p) => Result::Err(p),
                Result::Ok((cond, j)) => if j <= i || j > tv.len() {
                    Result::Err(j)
                } else {
                    match sp_stmt(tv, j) {
                        Result::Err(p) => Result::Err(p),
                        Result::Ok((body, j2)) => Result::Ok(
                            (StmtV::While { cond, body: Box::new(body) }, j2),
                        ),
                    }
                },
            },
            TokV::KwFor => match sp_stmt(tv, i + 1) {
                Result::Err(p) => Result::Err(p),
                Result::Ok((init, j0)) => if !(j0 < tv.len() && tv[j0] is Semi) {
                    Result::Err(j0)
                } else if j0 <= i {
                    Result::Err(j0)
                } else {
                    match sp_expr(tv, j0 + 1) {
                        Result::Err(p) => Result::Err(p),
                        Result::Ok((cond, j1)) => if !(j1 < tv.len() && tv[j1] is Semi) {
                            Result::Err(j1)
                        } else if j1 <= j0 {
                            Result::Err(j1)
                        } else {
                            match sp_stmt(tv, j1 + 1) {
                                Result::Err(p) => Result::Err(p),
                                Result::Ok((step, j2)) => if j2 <= j1 || j2 > tv.len() {
                                    Result::Err(j2)
                                } else {
                                    match sp_stmt(tv, j2) {
                                        Result::Err(p) => Result::Err(p),
                                        Result::Ok((body, j3)) => Result::Ok(
                                            (
                                                StmtV::For {
                                                    init: Box::new(init),
                                                    cond,
                                                    step: Box::new(step),
                                                    body: Box::new(body),
                                                },
                                                j3,
                                            ),
                                        ),
                                    }
                                },
                            }
                        },
                    }
                },
            },
            TokV::Ident(name) => {
                let set_op: Option<SetOp> = if i + 1 < tv.len() {
                    match tv[i + 1] {
                        TokV::Assign => Option::Some(SetOp::Assign),
                        TokV::PlusAssign => Option::Some(SetOp::Increment),
                        TokV::MinusAssign => Option::Some(SetOp::Decrement),
                        _ => Option::None,
                    }
                } else {
                    Option::None
                };
                match set_op {
                    Option::Some(op) => match sp_expr(tv, i + 2) {
                        Result::Err(p) => Result::Err(p),
                        Result::Ok((e, j)) => Result::Ok((StmtV::Assign { name, op, expr: e }, j)),
                    },
                    Option::None => match sp_expr(tv, i) {
                        Result::Err(p) => Result::Err(p),
                        Result::Ok((e, j)) => Result::Ok((StmtV::Expr(e), j)),
                    },
                }
            }
            _ => match sp_expr(tv, i) {
                Result::Err(p) => Result::Err(p),
                Result::Ok((e, j)) => Result::Ok((StmtV::Expr(e), j)),
            },
        }
    }
}

/// Parse a statement or a function definition, by the model.
pub open spec fn sp_item(tv: Seq<TokV>, i: int) -> Result<(ItemV, int), int>
    decreases tv.len() - i, 11int, 0int, 0int,
{
    if i < 0 || i >= tv.len() {
        Result::Err(i)
    } else if tv[i] is KwFn {
        if !(i + 1 < tv.len()) {
            Result::Err(i + 1)
        } else if !(tv[i + 1] is Ident) {
            Result::Err(i + 1)
        } else if !(i + 2 < tv.len() && tv[i + 2] is LParen) {
            Result::Err(i + 2)
        } else {
            let name = tv[i + 1]->Ident_0;
            match sp_fn_params(tv, i + 3, Seq::empty()) {
                Result::Err(p) => Result::Err(p),
                Result::Ok((params, j)) => if j <= i || j > tv.len() {
                    Result::Err(j)
                } else {
                    match sp_expr(tv, j) {
                        Result::Err(p) => Result::Err(p),
                        Result::Ok((body, j2)) => Result::Ok(
                            (ItemV::Func(FuncV { name, params, body }), j2),
                        ),
                    }
                },
            }
        }
    } else {
        match sp_stmt(tv, i) {
            Result::Err(p) => Result::Err(p),
            Result::Ok((s, j)) => Result::Ok((ItemV::Stmt(s), j)),
        }
    }
}

/// Parse the items of a block up to its closing brace, by the model.
pub open spec fn sp_block_items(
    tv: Seq<TokV>,
    j: int,
    stmts: Seq<StmtV>,
    funcs: Seq<FuncV>,
) -> Result<(Seq<StmtV>, Seq<FuncV>, int), int>
    decreases tv.len() - j, 14int, 0int, 0int,
{
    if j < 0 || j >= tv.len() {
        Result::Err(j)
    } else if tv[j] is RBrace {
        Result::Ok((stmts, funcs, j + 1))
    } else {
        match sp_item(tv, j) {
            Result::Err(p) => Result::Err(p),
            Result::Ok((item, j2)) => if j2 <= j || j2 > tv.len() {
                Result::Err(j2)
            } else {
                match item {
                    ItemV::Stmt(s) => sp_block_items(tv, j2, stmts.push(s), funcs),
                    ItemV::Func(f) => sp_block_items(tv, j2, stmts, funcs.push(f)),
                }
            },
        }
    }
}

/// Parse a whole token stream into a program, by the model: top-level
/// function definitions are hoisted out, and the other statements keep
/// their order.
pub open spec fn sp_program(
    tv: Seq<TokV>,
    j: int,
    stmts: Seq<StmtV>,
    funcs: Seq<FuncV>,
) -> Result<ProgramV, int>
    decreases tv.len() - j, 14int, 0int, 0int,
{
    if j < 0 || j > tv.len() {
        Result::Err(j)
    } else if j == tv.len() {
        Result::Ok(ProgramV { stmts, funcs })
    } else {
        match sp_item(tv, j) {
            Result::Err(p) => Result::Err(p),
            Result::Ok((item, j2)) => if j2 <= j || j2 > tv.len() {
                Result::Err(j2)
            } else {
                match item {
                    ItemV::Stmt(s) => sp_program(tv, j2, stmts.push(s), funcs),
                    ItemV::Func(f) => sp_program(tv, j2, stmts, funcs.push(f)),
                }
            },
        }
    }
}

/// The infix tier of a token, 0 when it is no infix operator.
fn infix_tier(t: &Token) -> (r: u8)
    ensures
        r <= 6,
        r as int == sp_tier(t@),
{
    match t {
        Token::KwOr => 1,
        Token::KwAnd => 2,
        Token::EqEq => 3,
        Token::NotEq => 3,
        Token::Lt => 3,
        Token::Gt => 3,
        Token::Le => 3,
        Token::Ge => 3,
        Token::Plus => 4,
        Token::Minus => 4,
        Token::DotDot => 4,
        Token::DotDotEq => 4,
        Token::Star => 5,
        Token::Slash => 5,
        Token::Dollar => 6,
        Token::DollarDollar => 6,
        _ => 0,
    }
}

/// The operator a token stands for; addition for tokens that stand for none.
fn infix_op(t: &Token) -> (r: Operator)
    ensures
        r == sp_op(t@),
{
    match t {
        Token::KwOr => Operator::Or,
        Token::KwAnd => Operator::And,
        Token::EqEq => Operator::Eq,
        Token::NotEq => Operator::Neq,
        Token::Lt => Operator::Lt,
        Token::Gt => Operator::Gt,
        Token::Le => Operator::Lte,
        Token::Ge => Operator::Gte,
        Token::Plus => Operator::Add,
        Token::Minus => Operator::Sub,
        Token::DotDot => Operator::ExclusiveRange,
        Token::DotDotEq => Operator::InclusiveRange,
        Token::Star => Operator::Mul,
        Token::Slash => Operator::Div,
        Token::Dollar => Operator::Dollar,
        Token::DollarDollar => Operator::DoubleDollar,
        _ => Operator::Add,
    }
}

/// Parse an expression; the result is exactly what the mathematical parser
/// says of the token sequence.
#[verifier::spinoff_prover]
pub(crate) fn parse_expression(toks: &Vec<Token>, i: usize) -> (r: Result<
    (Expression, usize),
    ParseError,
>)
    requires
        i <= toks@.len(),
    ensures
        r matches Ok(p) ==> i < p.1 <= toks@.len(),
        expr_res_view(r) == sp_expr(toks_view(toks@), i as int),
    decreases toks@.len() - i, 9int, 0int,
{
    parse_binary(toks, i, 1)
}

/// Parse at an infix tier and above.
#[verifier::loop_isolation(false)]
#[verifier::spinoff_prover]
pub(crate) fn parse_binary(toks: &Vec<Token>, i: usize, tier: u8) -> (r: Result<
    (Expression, usize),
    ParseError,
>)
    requires
        i <= toks@.len(),
        1 <= tier <= 6,
    ensures
        r matches Ok(p) ==> i < p.1 <= toks@.len(),
        expr_res_view(r) == sp_binary(toks_view(toks@), i as int, tier as int),
    decreases toks@.len() - i, 8int, 7int - tier,
{
    let ghost tv = toks_view(toks@);
    let ghost target = sp_binary(tv, i as int, tier as int);
    let mut lhs: Expression;
    let mut j: usize;
    let operand = if tier == 6 {
        parse_postfix_print(toks, i)
    } else {
        parse_binary(toks, i, tier + 1)
    };
    match operand {
        Result::Ok((e, j2)) => {
            lhs = e;
            j = j2;
        }
        Result::Err(e) => {
            return Result::Err(e);
        }
    }
    proof {
        assert(target == sp_binary_more(tv, i as int, lhs@, j as int, tier as int));
    }
    while j < toks.len() && infix_tier(&toks[j]) == tier
        invariant
            i < j <= toks@.len(),
            target == sp_binary_more(tv, i as int, lhs@, j as int, tier as int),
        decreases toks@.len() - j,
    {
        let op = infix_op(&toks[j]);
        let rhs_r = if tier == 6 {
            parse_postfix_print(toks, j + 1)
        } else {
            parse_binary(toks, j + 1, tier + 1)
        };
        match rhs_r {
            Result::Ok((rhs, j2)) => {
                lhs = Expression::Infixed(Operation {
                    lhs: Box::new(lhs),
                    infix: op,
                    rhs: Box::new(rhs),
                });
                j = j2;
            }
            Result::Err(e) => {
                return Result::Err(e);
            }
        }
    }
    Result::Ok((lhs, j))
}

/// Parse the postfix debug and print tier.
#[verifier::loop_isolation(false)]
#[verifier::spinoff_prover]
pub(crate) fn parse_postfix_print(toks: &Vec<Token>, i: usize) -> (r: Result<
    (Expression, usize),
    ParseError,
>)
    requires
        i <= toks@.len(),
    ensures
        r matches Ok(p) ==> i < p.1 <= toks@.len(),
        expr_res_view(r) == sp_postfix_print(toks_view(toks@), i as int),
    decreases toks@.len() - i, 7int, 0int,
{
    let ghost tv = toks_view(toks@);
    let ghost target = sp_postfix_print(tv, i as int);
    let mut e: Expression;
    let mut j: usize;
    match parse_postfix_index(toks, i) {
        Result::Ok((e2, j2)) => {
            e = e2;
            j = j2;
        }
        Result::Err(err) => {
            return Result::Err(err);
        }
    }
    proof {
        assert(target == sp_postfix_print_more(tv, i as int, e@, j as int));
    }
    while j < toks.len() && (matches!(&toks[j], Token::Question) || matches!(
        &toks[j],
        Token::Bang,
    ))
        invariant
            i < j <= toks@.len(),
            target == sp_postfix_print_more(tv, i as int, e@, j as int),
        decreases toks@.len() - j,
    {
        let ghost e0 = e@;
        let op = if matches!(&toks[j], Token::Question) {
            PostfixOp::Debug
        } else {
            PostfixOp::Print
        };
        e = Expression::Postfixed(PostfixedExpression { expression: Box::new(e), op });
        proof {
            let opv = if tv[j as int] is Question {
                PostOpV::Debug
            } else {
                PostOpV::Print
            };
            assert(e is Postfixed);
            assert((e->Postfixed_0).op == op);
            assert(op@ == opv);
            assert((*(e->Postfixed_0).expression)@ == e0);
            assert(e@ == ExprV::Postfix { expr: Box::new(e0), op: opv });
            assert(sp_postfix_print_more(tv, i as int, e0, j as int)
                == sp_postfix_print_more(tv, i as int, e@, j + 1));
        }
        j = j + 1;
    }
    Result::Ok((e, j))
}

/// Parse the postfix index and dot-index tier.
#[verifier::loop_isolation(false)]
#[verifier::spinoff_prover]
pub(crate) fn parse_postfix_index(toks: &Vec<Token>, i: usize) -> (r: Result<
    (Expression, usize),
    ParseError,
>)
    requires
        i <= toks@.len(),
    ensures
        r matches Ok(p) ==> i < p.1 <= toks@.len(),
        expr_res_view(r) == sp_postfix_index(toks_view(toks@), i as int),
    decreases toks@.len() - i, 6int, 0int,
{
    let ghost tv = toks_view(toks@);
    let ghost target = sp_postfix_index(tv, i as int);
    let mut e: Expression;
    let mut j: usize;
    match parse_unary(toks, i) {
        Result::Ok((e2, j2)) => {
            e = e2;
            j = j2;
        }
        Result::Err(err) => {
            return Result::Err(err);
        }
    }
    proof {
        assert(target == sp_postfix_index_more(tv, i as int, e@, j as int));
    }
    while j < toks.len() && (matches!(&toks[j], Token::LBracket) || matches!(
        &toks[j],
        Token::Dot,
    ))
        invariant
            i < j <= toks@.len(),
            target == sp_postfix_index_more(tv, i as int, e@, j as int),
        decreases toks@.len() - j,
    {
        let ghost e0 = e@;
        let ghost j0 = j as int;
        if matches!(&toks[j], Token::LBracket) {
            match parse_expression(toks, j + 1) {
                Result::Ok((idx, j2)) => {
                    if j2 < toks.len() && matches!(&toks[j2], Token::RBracket) {
                        let ghost idxv = idx@;
                        e = Expression::Postfixed(PostfixedExpression {
                            expression: Box::new(e),
                            op: PostfixOp::Index(Box::new(idx)),
                        });
                        proof {
                            assert(e is Postfixed);
                            assert((e->Postfixed_0).op@ == PostOpV::Index(Box::new(idxv)));
                            assert((*(e->Postfixed_0).expression)@ == e0);
                            assert(e@ == ExprV::Postfix {
                                expr: Box::new(e0),
                                op: PostOpV::Index(Box::new(idxv)),
                            });
                            assert(sp_postfix_index_more(tv, i as int, e0, j0)
                                == sp_postfix_index_more(tv, i as int, e@, j2 + 1));
                        }
                        j = j2 + 1;
                    } else {
                        return Result::Err(ParseError { pos: j2 });
                    }
                }
                Result::Err(err) => {
                    return Result::Err(err);
                }
            }
        } else {
            if j + 1 < toks.len() {
                match &toks[j + 1] {
                    Token::Ident(name) => {
                        e = Expression::Postfixed(PostfixedExpression {
                            expression: Box::new(e),
                            op: PostfixOp::DotIndex(dup_bytes(name)),
                        });
                        proof {
                            assert(e is Postfixed);
                            assert((e->Postfixed_0).op@ == PostOpV::DotIndex(
                                tv[j0 + 1]->Ident_0,
                            ));
                            assert((*(e->Postfixed_0).expression)@ == e0);
                            assert(e@ == ExprV::Postfix {
                                expr: Box::new(e0),
                                op: PostOpV::DotIndex(tv[j0 + 1]->Ident_0),
                            });
                            assert(sp_postfix_index_more(tv, i as int, e0, j0)
                                == sp_postfix_index_more(tv, i as int, e@, j0 + 2));
                        }
                        j = j + 2;
                    }
                    _ => {
                        return Result::Err(ParseError { pos: j + 1 });
                    }
                }
            } else {
                return Result::Err(ParseError { pos: j + 1 });
            }
        }
    }
    Result::Ok((e, j))
}

/// Parse prefix operators, which bind tightest.
#[verifier::spinoff_prover]
pub(crate) fn parse_unary(toks: &Vec<Token>, i: usize) -> (r: Result<
    (Expression, usize),
    ParseError,
>)
    requires
        i <= toks@.len(),
    ensures
        r matches Ok(p) ==> i < p.1 <= toks@.len(),
        expr_res_view(r) == sp_unary(toks_view(toks@), i as int),
    decreases toks@.len() - i, 5int, 0int,
{
    if i >= toks.len() {
        return Result::Err(ParseError { pos: i });
    }
    let op = match &toks[i] {
        Token::Minus => Option::Some(PrefixOp::Negate),
        Token::Bang => Option::Some(PrefixOp::Not),
        Token::HashOne => Option::Some(PrefixOp::Hash),
        Token::HashTwo => Option::Some(PrefixOp::DoubleHash),
        Token::HashThree => Option::Some(PrefixOp::TripleHash),
        _ => Option::None,
    };
    match op {
        Option::Some(p) => {
            match parse_unary(toks, i + 1) {
                Result::Ok((e, j)) => Result::Ok((
                    Expression::Prefixed(PrefixedExpression { op: p, expression: Box::new(e) }),
                    j,
                )),
                Result::Err(err) => Result::Err(err),
            }
        }
        Option::None => parse_primary(toks, i),
    }
}

/// Parse a comma-separated expression list up to a closing token, which is
/// consumed. `close_bracket` selects `]` over `)`.
#[verifier::loop_isolation(false)]
#[verifier::spinoff_prover]
pub(crate) fn parse_expr_list(toks: &Vec<Token>, i: usize, close_bracket: bool) -> (r: Result<
    (Vec<Expression>, usize),
    ParseError,
>)
    requires
        i <= toks@.len(),
    ensures
        r matches Ok(p) ==> i < p.1 <= toks@.len(),
        ({
            let o = sp_expr_list(toks_view(toks@), i as int, close_bracket, Seq::empty());
            &&& (r matches Ok(p) ==> o == Result::<(Seq<ExprV>, int), int>::Ok(
                (exprs_view(p.0@), p.1 as int),
            ))
            &&& (r matches Err(pe) ==> o == Result::<(Seq<ExprV>, int), int>::Err(pe.pos as int))
        }),
    decreases toks@.len() - i, 13int, 0int,
{
    broadcast use group_seq_views;

    let ghost tv = toks_view(toks@);
    let ghost target = sp_expr_list(tv, i as int, close_bracket, Seq::empty());
    let mut out: Vec<Expression> = Vec::new();
    let mut j = i;
    proof {
        assert(exprs_view(out@) =~= Seq::<ExprV>::empty());
    }
    if j < toks.len() && ((close_bracket && matches!(&toks[j], Token::RBracket)) || (!close_bracket
        && matches!(&toks[j], Token::RParen))) {
        return Result::Ok((out, j + 1));
    }
    loop
        invariant
            i <= j <= toks@.len(),
            target == sp_expr_list(tv, j as int, close_bracket, exprs_view(out@)),
            out@.len() == 0 ==> j == i,
            out@.len() == 0 ==> !(j < tv.len() && ((close_bracket && tv[j as int] is RBracket)
                || (!close_bracket && tv[j as int] is RParen))),
        decreases toks@.len() - j,
    {
        match parse_expression(toks, j) {
            Result::Ok((e, j2)) => {
                let ghost acc0 = exprs_view(out@);
                out.push(e);
                proof {
                    assert(exprs_view(out@) =~= acc0.push(e@));
                }
                if j2 < toks.len() && matches!(&toks[j2], Token::Comma) {
                    j = j2 + 1;
                    if j >= toks.len() {
                        return Result::Err(ParseError { pos: j });
                    }
                } else if j2 < toks.len() && ((close_bracket && matches!(
                    &toks[j2],
                    Token::RBracket,
                )) || (!close_bracket && matches!(&toks[j2], Token::RParen))) {
                    return Result::Ok((out, j2 + 1));
                } else {
                    return Result::Err(ParseError { pos: j2 });
                }
            }
            Result::Err(err) => {
                return Result::Err(err);
            }
        }
    }
}

/// Parse a table literal.
#[verifier::loop_isolation(false)]
#[verifier::spinoff_prover]
pub(crate) fn parse_table_expr(toks: &Vec<Token>, i: usize) -> (r: Result<
    (Expression, usize),
    ParseError,
>)
    requires
        i < toks@.len(),
        toks@[i as int] is TableOpen,
    ensures
        r matches Ok(p) ==> i < p.1 <= toks@.len(),
        expr_res_view(r) == sp_table_expr(toks_view(toks@), i as int),
    decreases toks@.len() - i, 3int, 0int,
{
    broadcast use group_seq_views;

    // Anchor the token count so the position arithmetic below is in bounds.
    let _anchor = toks.len();
    let ghost tv = toks_view(toks@);
    let mut entries: Vec<(Vec<u8>, Expression)> = Vec::new();
    let mut j = i + 1;
    proof {
        assert(expr_entries_view(entries@) =~= Seq::<(Seq<u8>, ExprV)>::empty());
    }
    if j < toks.len() && matches!(&toks[j], Token::RBrace) {
        return Result::Ok((Expression::Table(ExpressionsTable { entries }), j + 1));
    }
    let ghost target = sp_table_entries(tv, i + 1, Seq::empty());
    proof {
        assert(sp_table_expr(tv, i as int) == (match target {
            Result::Err(p) => Result::<(ExprV, int), int>::Err(p),
            Result::Ok(pr) => Result::<(ExprV, int), int>::Ok((ExprV::Table(pr.0), pr.1)),
        }));
    }
    loop
        invariant
            i < j <= toks@.len(),
            target == sp_table_entries(tv, j as int, expr_entries_view(entries@)),
        decreases toks@.len() - j,
    {
        if j >= toks.len() {
            return Result::Err(ParseError { pos: j });
        }
        let key = match &toks[j] {
            Token::Ident(name) => dup_bytes(name),
            _ => {
                return Result::Err(ParseError { pos: j });
            }
        };
        if !(j + 1 < toks.len() && matches!(&toks[j + 1], Token::Colon)) {
            return Result::Err(ParseError { pos: j + 1 });
        }
        match parse_expression(toks, j + 2) {
            Result::Ok((e, j2)) => {
                let ghost acc0 = expr_entries_view(entries@);
                entries.push((key, e));
                proof {
                    assert(expr_entries_view(entries@) =~= acc0.push((key@, e@)));
                }
                if j2 < toks.len() && matches!(&toks[j2], Token::Comma) {
                    j = j2 + 1;
                } else if j2 < toks.len() && matches!(&toks[j2], Token::RBrace) {
                    return Result::Ok((
                        Expression::Table(ExpressionsTable { entries }),
                        j2 + 1,
                    ));
                } else {
                    return Result::Err(ParseError { pos: j2 });
                }
            }
            Result::Err(err) => {
                return Result::Err(err);
            }
        }
    }
}

/// Parse a closure literal.
#[verifier::loop_isolation(false)]
#[verifier::spinoff_prover]
pub(crate) fn parse_closure_expr(toks: &Vec<Token>, i: usize) -> (r: Result<
    (Expression, usize),
    ParseError,
>)
    requires
        i < toks@.len(),
        toks@[i as int] is Pipe,
    ensures
        r matches Ok(p) ==> i < p.1 <= toks@.len(),
        expr_res_view(r) == sp_closure_expr(toks_view(toks@), i as int),
    decreases toks@.len() - i, 3int, 0int,
{
    broadcast use group_seq_views;

    // Anchor the token count so the position arithmetic below is in bounds.
    let _anchor = toks.len();
    let ghost tv = toks_view(toks@);
    let ghost target = sp_pipe_params(tv, i + 1, Seq::empty());
    let mut params: Vec<Vec<u8>> = Vec::new();
    let mut j = i + 1;
    let mut params_done = false;
    proof {
        assert(names_view(params@) =~= Seq::<Seq<u8>>::empty());
    }
    while !params_done
        invariant
            i < j <= toks@.len(),
            !params_done ==> target == sp_pipe_params(tv, j as int, names_view(params@)),
            params_done ==> target == Result::<(Seq<Seq<u8>>, int), int>::Ok(
                (names_view(params@), j as int),
            ),
        decreases toks@.len() - j,
    {
        if j >= toks.len() {
            return Result::Err(ParseError { pos: j });
        }
        match &toks[j] {
            Token::Pipe => {
                j = j + 1;
                params_done = true;
            }
            Token::Ident(name) => {
                let ghost acc0 = names_view(params@);
                params.push(dup_bytes(name));
                proof {
                    assert(names_view(params@) =~= acc0.push(name@));
                }
                if j + 1 < toks.len() && matches!(&toks[j + 1], Token::Comma) {
                    j = j + 2;
                } else {
                    j = j + 1;
                }
            }
            _ => {
                return Result::Err(ParseError { pos: j });
            }
        }
    }
    match parse_expression(toks, j) {
        Result::Ok((body, j2)) => {
            let ghost paramsv = names_view(params@);
            let ghost bodyv = body@;
            let node = Expression::Value(Value::Closure(Closure::Normal(NormalClosure {
                params,
                body: Box::new(body),
            })));
            proof {
                assert(node is Value);
                assert(node->Value_0 is Closure);
                assert((node->Value_0)->Closure_0 is Normal);
                assert(names_view(
                    (((node->Value_0)->Closure_0)->Normal_0).params@,
                ) == paramsv);
                assert((*(((node->Value_0)->Closure_0)->Normal_0).body)@ == bodyv);
                assert(((node->Value_0)->Closure_0)@ == ClosV::Script {
                    params: paramsv,
                    body: Box::new(bodyv),
                });
                assert((node->Value_0)@ == Val::Clos(
                    ClosV::Script { params: paramsv, body: Box::new(bodyv) },
                ));
                assert(node@ == ExprV::Value(
                    Val::Clos(ClosV::Script { params: paramsv, body: Box::new(bodyv) }),
                ));
            }
            Result::Ok((node, j2))
        }
        Result::Err(err) => Result::Err(err),
    }
}

/// Parse the comma-separated cases of one match arm, up to the arrow.
#[verifier::loop_isolation(false)]
#[verifier::spinoff_prover]
pub(crate) fn parse_case_list(toks: &Vec<Token>, i: usize) -> (r: Result<
    (Vec<Expression>, usize),
    ParseError,
>)
    requires
        i <= toks@.len(),
    ensures
        r matches Ok(p) ==> i < p.1 <= toks@.len(),
        ({
            let o = sp_cases(toks_view(toks@), i as int, Seq::empty());
            &&& (r matches Ok(p) ==> o == Result::<(Seq<ExprV>, int), int>::Ok(
                (exprs_view(p.0@), p.1 as int),
            ))
            &&& (r matches Err(pe) ==> o == Result::<(Seq<ExprV>, int), int>::Err(pe.pos as int))
        }),
    decreases toks@.len() - i, 13int, 0int,
{
    broadcast use group_seq_views;

    let ghost tv = toks_view(toks@);
    let ghost target = sp_cases(tv, i as int, Seq::empty());
    let mut cases: Vec<Expression> = Vec::new();
    let mut j = i;
    proof {
        assert(exprs_view(cases@) =~= Seq::<ExprV>::empty());
    }
    loop
        invariant
            i <= j <= toks@.len(),
            cases@.len() > 0 ==> i < j,
            target == sp_cases(tv, j as int, exprs_view(cases@)),
        decreases toks@.len() - j,
    {
        match parse_expression(toks, j) {
            Result::Ok((case, j2)) => {
                let ghost acc0 = exprs_view(cases@);
                cases.push(case);
                proof {
                    assert(exprs_view(cases@) =~= acc0.push(case@));
                }
                if j2 < toks.len() && matches!(&toks[j2], Token::Comma) {
                    j = j2 + 1;
                    if j >= toks.len() {
                        return Result::Err(ParseError { pos: j });
                    }
                } else if j2 < toks.len() && matches!(&toks[j2], Token::Arrow) {
                    return Result::Ok((cases, j2 + 1));
                } else {
                    return Result::Err(ParseError { pos: j2 });
                }
            }
            Result::Err(err) => {
                return Result::Err(err);
            }
        }
    }
}

/// Parse match arms up to the closing brace, building the match node around
/// the already parsed input.
#[verifier::loop_isolation(false)]
#[verifier::spinoff_prover]
pub(crate) fn parse_match_arms(toks: &Vec<Token>, i: usize, input: Expression) -> (r: Result<
    (Expression, usize),
    ParseError,
>)
    requires
        i <= toks@.len(),
    ensures
        r matches Ok(p) ==> i < p.1 <= toks@.len(),
        ({
            let o = sp_arms(toks_view(toks@), i as int, input@, Seq::empty());
            &&& (r matches Ok(p) ==> o == Result::<(ExprV, int), int>::Ok((p.0@, p.1 as int)))
            &&& (r matches Err(pe) ==> o == Result::<(ExprV, int), int>::Err(pe.pos as int))
        }),
    decreases toks@.len() - i, 13int, 2int,
{
    broadcast use group_seq_views;

    let ghost tv = toks_view(toks@);
    let ghost inputv = input@;
    let ghost target = sp_arms(tv, i as int, inputv, Seq::empty());
    let mut arms: Vec<(Vec<Expression>, Expression)> = Vec::new();
    let mut j = i;
    proof {
        assert(arms_view(arms@) =~= Seq::<(Seq<ExprV>, ExprV)>::empty());
    }
    loop
        invariant
            i <= j <= toks@.len(),
            inputv == input@,
            target == sp_arms(tv, j as int, inputv, arms_view(arms@)),
        decreases toks@.len() - j,
    {
        if j >= toks.len() {
            return Result::Err(ParseError { pos: j });
        }
        if matches!(&toks[j], Token::RBrace) {
            let node = Expression::Match(MapExpression { input: Box::new(input), map: arms });
            proof {
                assert(node is Match);
                assert(arms_view((node->Match_0).map@) == arms_view(arms@));
                assert((*(node->Match_0).input)@ == inputv);
                assert(node@ == ExprV::Match {
                    input: Box::new(inputv),
                    arms: arms_view(arms@),
                });
            }
            return Result::Ok((node, j + 1));
        }
        match parse_case_list(toks, j) {
            Result::Ok((cases, j1)) => {
                match parse_expression(toks, j1) {
                    Result::Ok((value, j2)) => {
                        let ghost acc0 = arms_view(arms@);
                        let ghost casesv = exprs_view(cases@);
                        arms.push((cases, value));
                        proof {
                            assert(arms_view(arms@) =~= acc0.push((casesv, value@)));
                        }
                        if j2 < toks.len() && matches!(&toks[j2], Token::Semi) {
                            j = j2 + 1;
                        } else {
                            j = j2;
                        }
                    }
                    Result::Err(err) => {
                        return Result::Err(err);
                    }
                }
            }
            Result::Err(err) => {
                return Result::Err(err);
            }
        }
    }
}

/// Parse a match expression.
#[verifier::spinoff_prover]
pub(crate) fn parse_match_expr(toks: &Vec<Token>, i: usize) -> (r: Result<
    (Expression, usize),
    ParseError,
>)
    requires
        i < toks@.len(),
        toks@[i as int] is KwMatch,
    ensures
        r matches Ok(p) ==> i < p.1 <= toks@.len(),
        expr_res_view(r) == sp_match_expr(toks_view(toks@), i as int),
    decreases toks@.len() - i, 3int, 0int,
{
    // Anchor the token count so the position arithmetic below is in bounds.
    let _anchor = toks.len();
    match parse_expression(toks, i + 1) {
        Result::Ok((input, j0)) => {
            if !(j0 < toks.len() && matches!(&toks[j0], Token::LBrace)) {
                return Result::Err(ParseError { pos: j0 });
            }
            parse_match_arms(toks, j0 + 1, input)
        }
        Result::Err(err) => Result::Err(err),
    }
}

/// Parse the elif branches of a conditional, extending the given branch
/// list.
#[verifier::loop_isolation(false)]
#[verifier::spinoff_prover]
pub(crate) fn parse_elif_branches(
    toks: &Vec<Token>,
    i: usize,
    conditionals: Vec<(Expression, Statement)>,
) -> (r: Result<(Vec<(Expression, Statement)>, usize), ParseError>)
    requires
        i <= toks@.len(),
    ensures
        r matches Ok(p) ==> i <= p.1 <= toks@.len(),
        ({
            let o = sp_elifs(toks_view(toks@), i as int, conds_view(conditionals@));
            &&& (r matches Ok(p) ==> o == Result::<(Seq<(ExprV, StmtV)>, int), int>::Ok(
                (conds_view(p.0@), p.1 as int),
            ))
            &&& (r matches Err(pe) ==> o == Result::<(Seq<(ExprV, StmtV)>, int), int>::Err(
                pe.pos as int,
            ))
        }),
    decreases toks@.len() - i, 13int, 0int,
{
    broadcast use group_seq_views;

    let ghost tv = toks_view(toks@);
    let ghost target = sp_elifs(tv, i as int, conds_view(conditionals@));
    let mut conds = conditionals;
    let mut j = i;
    while j < toks.len() && matches!(&toks[j], Token::KwElif)
        invariant
            i <= j <= toks@.len(),
            target == sp_elifs(tv, j as int, conds_view(conds@)),
        decreases toks@.len() - j,
    {
        match parse_expression(toks, j + 1) {
            Result::Ok((c2, j2)) => {
                match parse_statement(toks, j2) {
                    Result::Ok((s2, j3)) => {
                        let ghost acc0 = conds_view(conds@);
                        let ghost c2v = c2@;
                        let ghost s2v = s2@;
                        conds.push((c2, s2));
                        proof {
                            assert(conds_view(conds@) =~= acc0.push((c2v, s2v)));
                        }
                        j = j3;
                    }
                    Result::Err(err) => {
                        return Result::Err(err);
                    }
                }
            }
            Result::Err(err) => {
                return Result::Err(err);
            }
        }
    }
    Result::Ok((conds, j))
}

/// Parse a conditional expression.
#[verifier::spinoff_prover]
#[verifier::rlimit(100)]
pub(crate) fn parse_if_expr(toks: &Vec<Token>, i: usize) -> (r: Result<
    (Expression, usize),
    ParseError,
>)
    requires
        i < toks@.len(),
        toks@[i as int] is KwIf,
    ensures
        r matches Ok(p) ==> i < p.1 <= toks@.len(),
        expr_res_view(r) == sp_if_expr(toks_view(toks@), i as int),
    decreases toks@.len() - i, 3int, 0int,
{
    broadcast use group_seq_views;

    // Anchor the token count so the position arithmetic below is in bounds.
    let _anchor = toks.len();
    let ghost tv = toks_view(toks@);
    match parse_expression(toks, i + 1) {
        Result::Ok((cond, j0)) => {
            match parse_statement(toks, j0) {
                Result::Ok((branch, j1)) => {
                    let ghost condv = cond@;
                    let ghost branchv = branch@;
                    let mut conditionals: Vec<(Expression, Statement)> = Vec::new();
                    conditionals.push((cond, branch));
                    proof {
                        assert(conds_view(conditionals@) =~= seq![(condv, branchv)]);
                    }
                    match parse_elif_branches(toks, j1, conditionals) {
                        Result::Ok((conds, je)) => {
                            let mut j = je;
                            let ghost condsv = conds_view(conds@);
                            let otherwise = if j < toks.len() && matches!(
                                &toks[j],
                                Token::KwElse,
                            ) {
                                match parse_statement(toks, j + 1) {
                                    Result::Ok((s2, j2)) => {
                                        j = j2;
                                        Option::Some(Box::new(s2))
                                    }
                                    Result::Err(err) => {
                                        return Result::Err(err);
                                    }
                                }
                            } else {
                                Option::None
                            };
                            let ghost otherwisev = crate::ast::opt_stmt_view(otherwise);
                            let node = Expression::If(
                                Box::new(IfExpression { conditionals: conds, otherwise }),
                            );
                            proof {
                                assert(node is If);
                                assert((*(node->If_0))@ == IfV {
                                    conds: condsv,
                                    otherwise: otherwisev,
                                });
                                assert(node@ == ExprV::If(
                                    IfV { conds: condsv, otherwise: otherwisev },
                                ));
                            }
                            Result::Ok((node, j))
                        }
                        Result::Err(err) => Result::Err(err),
                    }
                }
                Result::Err(err) => Result::Err(err),
            }
        }
        Result::Err(err) => Result::Err(err),
    }
}

/// Parse a primary expression.
#[verifier::loop_isolation(false)]
#[verifier::spinoff_prover]
#[verifier::rlimit(100)]
pub(crate) fn parse_primary(toks: &Vec<Token>, i: usize) -> (r: Result<
    (Expression, usize),
    ParseError,
>)
    requires
        i <= toks@.len(),
    ensures
        r matches Ok(p) ==> i < p.1 <= toks@.len(),
        expr_res_view(r) == sp_primary(toks_view(toks@), i as int),
    decreases toks@.len() - i, 4int, 0int,
{
    if i >= toks.len() {
        return Result::Err(ParseError { pos: i });
    }
    let ghost tv = toks_view(toks@);
    match &toks[i] {
        Token::Num(n) => {
            let node = Expression::Value(Value::Number(*n));
            proof {
                assert(node is Value);
                assert(node->Value_0 is Number);
                assert((node->Value_0)@ == Val::Num(*n as int));
                assert(node@ == ExprV::Value(Val::Num(*n as int)));
                assert(tv[i as int] == TokV::Num(*n));
            }
            Result::Ok((node, i + 1))
        }
        Token::Str(s) => {
            let node = Expression::Value(Value::String(dup_bytes(s)));
            proof {
                assert(node is Value);
                assert(node->Value_0 is String);
                assert((node->Value_0)@ == Val::Str(s@));
                assert(node@ == ExprV::Value(Val::Str(s@)));
                assert(tv[i as int] == TokV::Str(s@));
            }
            Result::Ok((node, i + 1))
        }
        Token::KwTrue => {
            let node = Expression::Value(Value::Boolean(true));
            proof {
                assert(node is Value);
                assert((node->Value_0)@ == Val::Bool(true));
                assert(node@ == ExprV::Value(Val::Bool(true)));
            }
            Result::Ok((node, i + 1))
        }
        Token::KwFalse => {
            let node = Expression::Value(Value::Boolean(false));
            proof {
                assert(node is Value);
                assert((node->Value_0)@ == Val::Bool(false));
                assert(node@ == ExprV::Value(Val::Bool(false)));
            }
            Result::Ok((node, i + 1))
        }
        Token::KwNil => {
            let node = Expression::Value(Value::Nil);
            proof {
                assert(node is Value);
                assert((node->Value_0)@ == Val::Nil);
                assert(node@ == ExprV::Value(Val::Nil));
            }
            Result::Ok((node, i + 1))
        }
        Token::Ident(name) => {
            proof {
                assert(tv[i as int] == TokV::Ident(name@));
            }
            if i + 1 < toks.len() && matches!(&toks[i + 1], Token::LParen) {
                match parse_expr_list(toks, i + 2, false) {
                    Result::Ok((arguments, j)) => {
                        let node = Expression::FunctionCall(FunctionCall {
                            name: dup_bytes(name),
                            arguments,
                        });
                        proof {
                            assert(node is FunctionCall);
                            assert(node@ == ExprV::Call {
                                name: name@,
                                args: exprs_view((node->FunctionCall_0).arguments@),
                            });
                        }
                        Result::Ok((node, j))
                    }
                    Result::Err(err) => Result::Err(err),
                }
            } else {
                let node = Expression::Identifier(dup_bytes(name));
                proof {
                    assert(node is Identifier);
                    assert((node->Identifier_0)@ == name@);
                    assert(node@ == ExprV::Ident(name@));
                }
                Result::Ok((node, i + 1))
            }
        }
        Token::LParen => {
            match parse_expression(toks, i + 1) {
                Result::Ok((e, j)) => {
                    if j < toks.len() && matches!(&toks[j], Token::RParen) {
                        Result::Ok((e, j + 1))
                    } else {
                        Result::Err(ParseError { pos: j })
                    }
                }
                Result::Err(err) => Result::Err(err),
            }
        }
        Token::LBracket => {
            match parse_expr_list(toks, i + 1, true) {
                Result::Ok((elements, j)) => {
                    let node = Expression::Array(ExpressionsArray { elements });
                    proof {
                        assert(node is Array);
                        assert(node@ == ExprV::Array(
                            exprs_view((node->Array_0).elements@),
                        ));
                    }
                    Result::Ok((node, j))
                }
                Result::Err(err) => Result::Err(err),
            }
        }
        Token::LBrace => {
            match parse_block_items(toks, i + 1) {
                Result::Ok((statements, functions, j)) => {
                    let ghost sv = stmts_view(statements@);
                    let ghost fv = funcs_view(functions@);
                    let node = Expression::Block(Block { statements, functions });
                    proof {
                        assert(node is Block);
                        assert((node->Block_0)@ == BlockV { stmts: sv, funcs: fv });
                        assert(node@ == ExprV::Block(BlockV { stmts: sv, funcs: fv }));
                    }
                    Result::Ok((node, j))
                }
                Result::Err(err) => Result::Err(err),
            }
        }
        Token::TableOpen => parse_table_expr(toks, i),
        Token::Pipe => parse_closure_expr(toks, i),
        Token::KwMatch => parse_match_expr(toks, i),
        Token::KwIf => parse_if_expr(toks, i),
        _ => Result::Err(ParseError { pos: i }),
    }
}

/// Parse one statement.
#[verifier::spinoff_prover]
pub(crate) fn parse_statement(toks: &Vec<Token>, i: usize) -> (r: Result<
    (Statement, usize),
    ParseError,
>)
    requires
        i <= toks@.len(),
    ensures
        r matches Ok(p) ==> i < p.1 <= toks@.len(),
        stmt_res_view(r) == sp_stmt(toks_view(toks@), i as int),
    decreases toks@.len() - i, 10int, 0int,
{
    if i >= toks.len() {
        return Result::Err(ParseError { pos: i });
    }
    match &toks[i] {
        Token::KwLet => {
            if !(i + 1 < toks.len()) {
                return Result::Err(ParseError { pos: i + 1 });
            }
            let name = match &toks[i + 1] {
                Token::Ident(name) => dup_bytes(name),
                _ => {
                    return Result::Err(ParseError { pos: i + 1 });
                }
            };
            if i + 2 < toks.len() && matches!(&toks[i + 2], Token::Assign) {
                match parse_expression(toks, i + 3) {
                    Result::Ok((e, j)) => Result::Ok((
                        Statement::DefineAndSet(DefineAndSetStatement {
                            identifier: name,
                            expression: e,
                        }),
                        j,
                    )),
                    Result::Err(err) => Result::Err(err),
                }
            } else {
                Result::Ok((Statement::Define(DefineStatement { identifier: name }), i + 2))
            }
        }
        Token::KwWhile => {
            match parse_expression(toks, i + 1) {
                Result::Ok((cond, j)) => {
                    match parse_statement(toks, j) {
                        Result::Ok((body, j2)) => Result::Ok((
                            Statement::While(WhileStatement {
                                expression: cond,
                                statement: Box::new(body),
                            }),
                            j2,
                        )),
                        Result::Err(err) => Result::Err(err),
                    }
                }
                Result::Err(err) => Result::Err(err),
            }
        }
        Token::KwFor => {
            match parse_statement(toks, i + 1) {
                Result::Ok((init, j0)) => {
                    if !(j0 < toks.len() && matches!(&toks[j0], Token::Semi)) {
                        return Result::Err(ParseError { pos: j0 });
                    }
                    match parse_expression(toks, j0 + 1) {
                        Result::Ok((cond, j1)) => {
                            if !(j1 < toks.len() && matches!(&toks[j1], Token::Semi)) {
                                return Result::Err(ParseError { pos: j1 });
                            }
                            match parse_statement(toks, j1 + 1) {
                                Result::Ok((step, j2)) => {
                                    match parse_statement(toks, j2) {
                                        Result::Ok((body, j3)) => Result::Ok((
                                            Statement::For(ForStatement {
                                                initializer: Box::new(init),
                                                condition: cond,
                                                increment: Box::new(step),
                                                statement: Box::new(body),
                                            }),
                                            j3,
                                        )),
                                        Result::Err(err) => Result::Err(err),
                                    }
                                }
                                Result::Err(err) => Result::Err(err),
                            }
                        }
                        Result::Err(err) => Result::Err(err),
                    }
                }
                Result::Err(err) => Result::Err(err),
            }
        }
        Token::Ident(name) => {
            let set_op: Option<SetOp> = if i + 1 < toks.len() {
                match &toks[i + 1] {
                    Token::Assign => Option::Some(SetOp::Assign),
                    Token::PlusAssign => Option::Some(SetOp::Increment),
                    Token::MinusAssign => Option::Some(SetOp::Decrement),
                    _ => Option::None,
                }
            } else {
                Option::None
            };
            match set_op {
                Option::Some(op) => {
                    match parse_expression(toks, i + 2) {
                        Result::Ok((e, j)) => Result::Ok((
                            Statement::Assign(SetStatement {
                                identifier: dup_bytes(name),
                                op,
                                expression: e,
                            }),
                            j,
                        )),
                        Result::Err(err) => Result::Err(err),
                    }
                }
                Option::None => {
                    match parse_expression(toks, i) {
                        Result::Ok((e, j)) => Result::Ok((Statement::Expression(e), j)),
                        Result::Err(err) => Result::Err(err),
                    }
                }
            }
        }
        _ => {
            match parse_expression(toks, i) {
                Result::Ok((e, j)) => Result::Ok((Statement::Expression(e), j)),
                Result::Err(err) => Result::Err(err),
            }
        }
    }
}

/// Parse a statement or a function definition.
#[verifier::loop_isolation(false)]
#[verifier::spinoff_prover]
pub(crate) fn parse_item(toks: &Vec<Token>, i: usize) -> (r: Result<(Item, usize), ParseError>)
    requires
        i <= toks@.len(),
    ensures
        r matches Ok(p) ==> i < p.1 <= toks@.len(),
        item_res_view(r) == sp_item(toks_view(toks@), i as int),
    decreases toks@.len() - i, 11int, 0int,
{
    broadcast use group_seq_views;

    let ghost tv = toks_view(toks@);
    if i >= toks.len() {
        return Result::Err(ParseError { pos: i });
    }
    if matches!(&toks[i], Token::KwFn) {
        if !(i + 1 < toks.len()) {
            return Result::Err(ParseError { pos: i + 1 });
        }
        let name = match &toks[i + 1] {
            Token::Ident(name) => dup_bytes(name),
            _ => {
                return Result::Err(ParseError { pos: i + 1 });
            }
        };
        if !(i + 2 < toks.len() && matches!(&toks[i + 2], Token::LParen)) {
            return Result::Err(ParseError { pos: i + 2 });
        }
        let ghost target = sp_fn_params(tv, i + 3, Seq::empty());
        let mut params: Vec<Vec<u8>> = Vec::new();
        let mut j = i + 3;
        let mut params_done = false;
        proof {
            assert(names_view(params@) =~= Seq::<Seq<u8>>::empty());
        }
        while !params_done
            invariant
                i < j <= toks@.len(),
                !params_done ==> target == sp_fn_params(tv, j as int, names_view(params@)),
                params_done ==> target == Result::<(Seq<Seq<u8>>, int), int>::Ok(
                    (names_view(params@), j as int),
                ),
            decreases toks@.len() - j,
        {
            if j >= toks.len() {
                return Result::Err(ParseError { pos: j });
            }
            match &toks[j] {
                Token::RParen => {
                    j = j + 1;
                    params_done = true;
                }
                Token::Ident(name2) => {
                    let ghost acc0 = names_view(params@);
                    params.push(dup_bytes(name2));
                    proof {
                        assert(names_view(params@) =~= acc0.push(name2@));
                    }
                    if j + 1 < toks.len() && matches!(&toks[j + 1], Token::Comma) {
                        j = j + 2;
                    } else {
                        j = j + 1;
                    }
                }
                _ => {
                    return Result::Err(ParseError { pos: j });
                }
            }
        }
        match parse_expression(toks, j) {
            Result::Ok((body, j2)) => Result::Ok((
                Item::Func(Function {
                    name,
                    closure: NormalClosure { params, body: Box::new(body) },
                }),
                j2,
            )),
            Result::Err(err) => Result::Err(err),
        }
    } else {
        match parse_statement(toks, i) {
            Result::Ok((s, j)) => Result::Ok((Item::Stmt(s), j)),
            Result::Err(err) => Result::Err(err),
        }
    }
}

/// Parse the items of a block up to its closing brace, which is consumed.
#[verifier::loop_isolation(false)]
#[verifier::spinoff_prover]
pub(crate) fn parse_block_items(toks: &Vec<Token>, i: usize) -> (r: Result<
    (Vec<Statement>, Vec<Function>, usize),
    ParseError,
>)
    requires
        i <= toks@.len(),
    ensures
        r matches Ok(p) ==> i < p.2 <= toks@.len(),
        ({
            let o = sp_block_items(toks_view(toks@), i as int, Seq::empty(), Seq::empty());
            &&& (r matches Ok(p) ==> o == Result::<(Seq<StmtV>, Seq<FuncV>, int), int>::Ok(
                (stmts_view(p.0@), funcs_view(p.1@), p.2 as int),
            ))
            &&& (r matches Err(pe) ==> o == Result::<(Seq<StmtV>, Seq<FuncV>, int), int>::Err(
                pe.pos as int,
            ))
        }),
    decreases toks@.len() - i, 12int, 0int,
{
    broadcast use group_seq_views;

    let ghost tv = toks_view(toks@);
    let ghost target = sp_block_items(tv, i as int, Seq::empty(), Seq::empty());
    let mut statements: Vec<Statement> = Vec::new();
    let mut functions: Vec<Function> = Vec::new();
    let mut j = i;
    proof {
        assert(stmts_view(statements@) =~= Seq::<StmtV>::empty());
        assert(funcs_view(functions@) =~= Seq::<FuncV>::empty());
    }
    loop
        invariant
            i <= j <= toks@.len(),
            target == sp_block_items(tv, j as int, stmts_view(statements@), funcs_view(functions@)),
        decreases toks@.len() - j,
    {
        if j >= toks.len() {
            return Result::Err(ParseError { pos: j });
        }
        if matches!(&toks[j], Token::RBrace) {
            return Result::Ok((statements, functions, j + 1));
        }
        match parse_item(toks, j) {
            Result::Ok((item, j2)) => {
                match item {
                    Item::Stmt(st) => {
                        let ghost acc0 = stmts_view(statements@);
                        statements.push(st);
                        proof {
                            assert(stmts_view(statements@) =~= acc0.push(
                                statements@[statements@.len() - 1]@,
                            ));
                        }
                    }
                    Item::Func(f) => {
                        let ghost acc0 = funcs_view(functions@);
                        functions.push(f);
                        proof {
                            assert(funcs_view(functions@) =~= acc0.push(
                                functions@[functions@.len() - 1]@,
                            ));
                        }
                    }
                }
                j = j2;
            }
            Result::Err(err) => {
                return Result::Err(err);
            }
        }
    }
}

/// Parse a whole token stream into a program: top-level statements with the
/// function definitions hoisted out, in source order.
#[verifier::loop_isolation(false)]
#[verifier::spinoff_prover]
pub fn parse_tokens(toks: &Vec<Token>) -> (r: Result<Program, ParseError>)
    ensures
        ({
            let o = sp_program(toks_view(toks@), 0, Seq::empty(), Seq::empty());
            &&& (r matches Ok(p) ==> o == Result::<ProgramV, int>::Ok(p@))
            &&& (r matches Err(pe) ==> o == Result::<ProgramV, int>::Err(pe.pos as int))
        }),
{
    broadcast use group_seq_views;

    let ghost tv = toks_view(toks@);
    let ghost target = sp_program(tv, 0, Seq::empty(), Seq::empty());
    let mut statements: Vec<Statement> = Vec::new();
    let mut functions: Vec<Function> = Vec::new();
    let mut j: usize = 0;
    proof {
        assert(stmts_view(statements@) =~= Seq::<StmtV>::empty());
        assert(funcs_view(functions@) =~= Seq::<FuncV>::empty());
    }
    while j < toks.len()
        invariant
            j <= toks@.len(),
            target == sp_program(tv, j as int, stmts_view(statements@), funcs_view(functions@)),
        decreases toks@.len() - j,
    {
        match parse_item(toks, j) {
            Result::Ok((item, j2)) => {
                match item {
                    Item::Stmt(st) => {
                        let ghost acc0 = stmts_view(statements@);
                        statements.push(st);
                        proof {
                            assert(stmts_view(statements@) =~= acc0.push(
                                statements@[statements@.len() - 1]@,
                            ));
                        }
                    }
                    Item::Func(f) => {
                        let ghost acc0 = funcs_view(functions@);
                        functions.push(f);
                        proof {
                            assert(funcs_view(functions@) =~= acc0.push(
                                functions@[functions@.len() - 1]@,
                            ));
                        }
                    }
                }
                j = j2;
            }
            Result::Err(err) => {
                return Result::Err(err);
            }
        }
    }
    let r = Result::Ok(Program { statements, functions });
    proof {
        assert(target == Result::<ProgramV, int>::Ok(
            ProgramV { stmts: stmts_view(statements@), funcs: funcs_view(functions@) },
        ));
    }
    r
}

/// Parse a whole source text, by the model: the mathematical lexer's
/// tokens through the mathematical parser.
pub open spec fn sp_parse(s: Seq<u8>) -> Result<ProgramV, int> {
    match sp_lex(s) {
        Result::Err(p) => Result::Err(p),
        Result::Ok(tv) => sp_program(tv, 0, Seq::empty(), Seq::empty()),
    }
}

/// Parse a whole source text into a program: the lexer's tokens, then the
/// token parser. The result is exactly what the mathematical parser says of
/// the input bytes - in particular, parsing is deterministic.
pub fn parse(input: &Vec<u8>) -> (r: Result<Program, ParseError>)
    ensures
        ({
            let o = sp_parse(input@);
            &&& (r matches Ok(p) ==> o == Result::<ProgramV, int>::Ok(p@))
            &&& (r matches Err(pe) ==> o == Result::<ProgramV, int>::Err(pe.pos as int))
        }),
{
    let toks = match lex(input) {
        Result::Ok(toks) => toks,
        Result::Err(e) => {
            return Result::Err(ParseError { pos: e.pos });
        }
    };
    parse_tokens(&toks)
}

} // verus!
