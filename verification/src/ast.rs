//! Abstract syntax tree and runtime values, with their mathematical models.
//!
//! Every executable type here has a ghost mirror (`Val`, `ExprV`, `StmtV`,
//! ...) built from `Seq`, `int` and unbounded structures; contracts all over
//! the crate speak of those mirrors through the `view` (`@`) function.

use vstd::prelude::*;

verus! {

// ---------------------------------------------------------------------------
// Operator tags, shared between the executable tree and its model.
// ---------------------------------------------------------------------------

/// How an assignment statement combines the old and the new value.
#[derive(Clone, Copy, PartialEq, Eq, Structural, Debug)]
pub enum SetOp {
    Assign,
    Increment,
    Decrement,
}

/// Infix operators, lowest-to-highest precedence tiers are decided by the parser.
#[derive(Clone, Copy, PartialEq, Eq, Structural, Debug)]
pub enum Operator {
    Add,
    Sub,
    Mul,
    Div,
    Eq,
    Neq,
    Gt,
    Lt,
    Gte,
    Lte,
    And,
    Or,
    Dollar,
    DoubleDollar,
    ExclusiveRange,
    InclusiveRange,
}

/// Prefix operators.
#[derive(Clone, Copy, PartialEq, Eq, Structural, Debug)]
pub enum PrefixOp {
    Negate,
    Not,
    Hash,
    DoubleHash,
    TripleHash,
}

/// The built-in host operations a native closure can stand for.
#[derive(Clone, Copy, PartialEq, Eq, Structural, Debug)]
pub enum Builtin {
    Print,
}

// ---------------------------------------------------------------------------
// Ghost model of values and of the syntax tree.
// ---------------------------------------------------------------------------

/// Model of a runtime value. Numbers are unbounded integers at this level;
/// text is a byte sequence; a table is an association sequence in first-insertion
/// order whose keys are unique by construction.
#[verifier::ext_equal]
pub enum Val {
    Num(int),
    Str(Seq<u8>),
    Bool(bool),
    Nil,
    Arr(Seq<Val>),
    Tbl(Seq<(Seq<u8>, Val)>),
    ExRange(int, int),
    InRange(int, int),
    Clos(ClosV),
}

/// Model of a callable value.
#[verifier::ext_equal]
pub enum ClosV {
    Script { params: Seq<Seq<u8>>, body: Box<ExprV> },
    Native(Builtin),
}

/// Model of an expression.
#[verifier::ext_equal]
pub enum ExprV {
    Value(Val),
    Infix { lhs: Box<ExprV>, op: Operator, rhs: Box<ExprV> },
    Prefix { op: PrefixOp, expr: Box<ExprV> },
    Postfix { expr: Box<ExprV>, op: PostOpV },
    Ident(Seq<u8>),
    Block(BlockV),
    Match { input: Box<ExprV>, arms: Seq<(Seq<ExprV>, ExprV)> },
    Call { name: Seq<u8>, args: Seq<ExprV> },
    Array(Seq<ExprV>),
    Table(Seq<(Seq<u8>, ExprV)>),
    If(IfV),
}

/// Model of a postfix operator.
#[verifier::ext_equal]
pub enum PostOpV {
    Debug,
    Print,
    Index(Box<ExprV>),
    DotIndex(Seq<u8>),
}

/// Model of a statement.
#[verifier::ext_equal]
pub enum StmtV {
    Expr(ExprV),
    Assign { name: Seq<u8>, op: SetOp, expr: ExprV },
    Define { name: Seq<u8> },
    DefineAndSet { name: Seq<u8>, expr: ExprV },
    While { cond: ExprV, body: Box<StmtV> },
    For { init: Box<StmtV>, cond: ExprV, step: Box<StmtV>, body: Box<StmtV> },
}

/// Model of a conditional expression.
#[verifier::ext_equal]
pub struct IfV {
    pub conds: Seq<(ExprV, StmtV)>,
    pub otherwise: Option<Box<StmtV>>,
}

/// Model of a hoisted function definition.
#[verifier::ext_equal]
pub struct FuncV {
    pub name: Seq<u8>,
    pub params: Seq<Seq<u8>>,
    pub body: ExprV,
}

/// Model of a block: hoisted functions beside the statement list.
#[verifier::ext_equal]
pub struct BlockV {
    pub stmts: Seq<StmtV>,
    pub funcs: Seq<FuncV>,
}

/// Model of a whole program.
#[verifier::ext_equal]
pub struct ProgramV {
    pub stmts: Seq<StmtV>,
    pub funcs: Seq<FuncV>,
}

// ---------------------------------------------------------------------------
// Executable syntax tree.
// ---------------------------------------------------------------------------

/// A whole program: top-level statements with function definitions hoisted out.
pub struct Program {
    pub statements: Vec<Statement>,
    pub functions: Vec<Function>,
}

/// A hoisted function definition.
pub struct Function {
    pub name: Vec<u8>,
    pub closure: NormalClosure,
}

/// A script closure: formal parameter names and a body expression.
pub struct NormalClosure {
    pub params: Vec<Vec<u8>>,
    pub body: Box<Expression>,
}

/// A native closure: stands for one of the host operations of `Builtin`.
pub struct NativeClosure {
    pub builtin: Builtin,
}

/// A callable value, either script-defined or host-provided.
pub enum Closure {
    Normal(NormalClosure),
    Native(NativeClosure),
}

/// A statement.
pub enum Statement {
    Expression(Expression),
    Assign(SetStatement),
    Define(DefineStatement),
    DefineAndSet(DefineAndSetStatement),
    While(WhileStatement),
    For(ForStatement),
}

/// Assignment to an existing binding (or, as a fallback, to a new global).
pub struct SetStatement {
    pub identifier: Vec<u8>,
    pub op: SetOp,
    pub expression: Expression,
}

/// `let name`: a new binding in the top scope, initially nil.
pub struct DefineStatement {
    pub identifier: Vec<u8>,
}

/// `let name = expr`: a new binding in the top scope.
pub struct DefineAndSetStatement {
    pub identifier: Vec<u8>,
    pub expression: Expression,
}

/// `while cond stmt`.
pub struct WhileStatement {
    pub expression: Expression,
    pub statement: Box<Statement>,
}

/// `for init; cond; step stmt`.
pub struct ForStatement {
    pub initializer: Box<Statement>,
    pub condition: Expression,
    pub increment: Box<Statement>,
    pub statement: Box<Statement>,
}

/// `if cond stmt (elif cond stmt)* (else stmt)?` - usable as an expression.
pub struct IfExpression {
    pub conditionals: Vec<(Expression, Statement)>,
    pub otherwise: Option<Box<Statement>>,
}

/// An expression.
pub enum Expression {
    Value(Value),
    Infixed(Operation),
    Prefixed(PrefixedExpression),
    Postfixed(PostfixedExpression),
    Identifier(Vec<u8>),
    Block(Block),
    Match(MapExpression),
    FunctionCall(FunctionCall),
    Array(ExpressionsArray),
    Table(ExpressionsTable),
    If(Box<IfExpression>),
}

/// An infix application.
pub struct Operation {
    pub lhs: Box<Expression>,
    pub infix: Operator,
    pub rhs: Box<Expression>,
}

/// A prefix application.
pub struct PrefixedExpression {
    pub op: PrefixOp,
    pub expression: Box<Expression>,
}

/// A postfix application.
pub struct PostfixedExpression {
    pub expression: Box<Expression>,
    pub op: PostfixOp,
}

/// A postfix operator; indexing carries its index expression.
pub enum PostfixOp {
    Debug,
    Print,
    Index(Box<Expression>),
    DotIndex(Vec<u8>),
}

/// A brace-delimited statement list, with hoisted function definitions.
pub struct Block {
    pub statements: Vec<Statement>,
    pub functions: Vec<Function>,
}

/// `match input { cases => result ... }`.
pub struct MapExpression {
    pub input: Box<Expression>,
    pub map: Vec<(Vec<Expression>, Expression)>,
}

/// A call of a named binding.
pub struct FunctionCall {
    pub name: Vec<u8>,
    pub arguments: Vec<Expression>,
}

/// An array literal.
pub struct ExpressionsArray {
    pub elements: Vec<Expression>,
}

/// A table literal: key/expression entries in source order.
pub struct ExpressionsTable {
    pub entries: Vec<(Vec<u8>, Expression)>,
}

/// A runtime value. Numbers are 64-bit signed integers; text is owned bytes.
pub enum Value {
    Table(ValuesTable),
    ExclusiveRange(i64, i64),
    InclusiveRange(i64, i64),
    Array(ValuesArray),
    Closure(Closure),
    Number(i64),
    String(Vec<u8>),
    Boolean(bool),
    Nil,
}

/// A table value: key/value entries in first-insertion order, keys unique.
pub struct ValuesTable {
    pub entries: Vec<(Vec<u8>, Value)>,
}

/// An array value.
pub struct ValuesArray {
    pub elements: Vec<Value>,
}

// ---------------------------------------------------------------------------
// Sequence-view helpers: the models of vectors of nodes, element by element.
// ---------------------------------------------------------------------------

/// The models of a sequence of parameter names.
pub open spec fn names_view(s: Seq<Vec<u8>>) -> Seq<Seq<u8>> {
    Seq::new(s.len(), |i: int| s[i]@)
}

/// The models of a sequence of values.
pub open spec fn vals_view(s: Seq<Value>) -> Seq<Val>
    decreases s,
{
    if s.len() == 0 {
        Seq::empty()
    } else {
        vals_view(s.subrange(0, s.len() - 1)).push(s[s.len() - 1]@)
    }
}

/// The models of a sequence of table entries.
pub open spec fn val_entries_view(s: Seq<(Vec<u8>, Value)>) -> Seq<(Seq<u8>, Val)>
    decreases s,
{
    if s.len() == 0 {
        Seq::empty()
    } else {
        val_entries_view(s.subrange(0, s.len() - 1)).push(
            (s[s.len() - 1].0@, s[s.len() - 1].1@),
        )
    }
}

/// The models of a sequence of expressions.
pub open spec fn exprs_view(s: Seq<Expression>) -> Seq<ExprV>
    decreases s,
{
    if s.len() == 0 {
        Seq::empty()
    } else {
        exprs_view(s.subrange(0, s.len() - 1)).push(s[s.len() - 1]@)
    }
}

/// The models of a sequence of statements.
pub open spec fn stmts_view(s: Seq<Statement>) -> Seq<StmtV>
    decreases s,
{
    if s.len() == 0 {
        Seq::empty()
    } else {
        stmts_view(s.subrange(0, s.len() - 1)).push(s[s.len() - 1]@)
    }
}

/// The models of a sequence of function definitions.
pub open spec fn funcs_view(s: Seq<Function>) -> Seq<FuncV>
    decreases s,
{
    if s.len() == 0 {
        Seq::empty()
    } else {
        funcs_view(s.subrange(0, s.len() - 1)).push(s[s.len() - 1]@)
    }
}

/// The models of a sequence of conditional branches.
pub open spec fn conds_view(s: Seq<(Expression, Statement)>) -> Seq<(ExprV, StmtV)>
    decreases s,
{
    if s.len() == 0 {
        Seq::empty()
    } else {
        conds_view(s.subrange(0, s.len() - 1)).push(
            (s[s.len() - 1].0@, s[s.len() - 1].1@),
        )
    }
}

/// The models of a sequence of match arms.
pub open spec fn arms_view(s: Seq<(Vec<Expression>, Expression)>) -> Seq<(Seq<ExprV>, ExprV)>
    decreases s,
{
    if s.len() == 0 {
        Seq::empty()
    } else {
        arms_view(s.subrange(0, s.len() - 1)).push(
            (exprs_view(s[s.len() - 1].0@), s[s.len() - 1].1@),
        )
    }
}

/// The models of a sequence of table-literal entries.
pub open spec fn expr_entries_view(s: Seq<(Vec<u8>, Expression)>) -> Seq<(Seq<u8>, ExprV)>
    decreases s,
{
    if s.len() == 0 {
        Seq::empty()
    } else {
        expr_entries_view(s.subrange(0, s.len() - 1)).push(
            (s[s.len() - 1].0@, s[s.len() - 1].1@),
        )
    }
}

// ---------------------------------------------------------------------------
// View implementations.
// ---------------------------------------------------------------------------

impl View for Value {
    type V = Val;

    open spec fn view(&self) -> Val
        decreases self,
    {
        match self {
            Value::Table(_) => Val::Tbl(val_entries_view((self->Table_0).entries@)),
            Value::ExclusiveRange(a, b) => Val::ExRange(*a as int, *b as int),
            Value::InclusiveRange(a, b) => Val::InRange(*a as int, *b as int),
            Value::Array(_) => Val::Arr(vals_view((self->Array_0).elements@)),
            Value::Closure(_) => Val::Clos((self->Closure_0)@),
            Value::Number(n) => Val::Num(*n as int),
            Value::String(_) => Val::Str((self->String_0)@),
            Value::Boolean(b) => Val::Bool(*b),
            Value::Nil => Val::Nil,
        }
    }
}

impl View for Closure {
    type V = ClosV;

    open spec fn view(&self) -> ClosV
        decreases self,
    {
        match self {
            Closure::Normal(_) => ClosV::Script {
                params: names_view((self->Normal_0).params@),
                body: Box::new((*(self->Normal_0).body)@),
            },
            Closure::Native(_) => ClosV::Native((self->Native_0).builtin),
        }
    }
}

impl View for Expression {
    type V = ExprV;

    open spec fn view(&self) -> ExprV
        decreases self,
    {
        match self {
            Expression::Value(_) => ExprV::Value((self->Value_0)@),
            Expression::Infixed(_) => ExprV::Infix {
                lhs: Box::new((*(self->Infixed_0).lhs)@),
                op: (self->Infixed_0).infix,
                rhs: Box::new((*(self->Infixed_0).rhs)@),
            },
            Expression::Prefixed(_) => ExprV::Prefix {
                op: (self->Prefixed_0).op,
                expr: Box::new((*(self->Prefixed_0).expression)@),
            },
            Expression::Postfixed(_) => ExprV::Postfix {
                expr: Box::new((*(self->Postfixed_0).expression)@),
                op: (self->Postfixed_0).op@,
            },
            Expression::Identifier(_) => ExprV::Ident((self->Identifier_0)@),
            Expression::Block(_) => ExprV::Block((self->Block_0)@),
            Expression::Match(_) => ExprV::Match {
                input: Box::new((*(self->Match_0).input)@),
                arms: arms_view((self->Match_0).map@),
            },
            Expression::FunctionCall(_) => ExprV::Call {
                name: (self->FunctionCall_0).name@,
                args: exprs_view((self->FunctionCall_0).arguments@),
            },
            Expression::Array(_) => ExprV::Array(exprs_view((self->Array_0).elements@)),
            Expression::Table(_) => ExprV::Table(expr_entries_view((self->Table_0).entries@)),
            Expression::If(_) => ExprV::If((*(self->If_0))@),
        }
    }
}

impl View for PostfixOp {
    type V = PostOpV;

    open spec fn view(&self) -> PostOpV
        decreases self,
    {
        match self {
            PostfixOp::Debug => PostOpV::Debug,
            PostfixOp::Print => PostOpV::Print,
            PostfixOp::Index(_) => PostOpV::Index(Box::new((*(self->Index_0))@)),
            PostfixOp::DotIndex(_) => PostOpV::DotIndex((self->DotIndex_0)@),
        }
    }
}

impl View for Statement {
    type V = StmtV;

    open spec fn view(&self) -> StmtV
        decreases self,
    {
        match self {
            Statement::Expression(_) => StmtV::Expr((self->Expression_0)@),
            Statement::Assign(_) => StmtV::Assign {
                name: (self->Assign_0).identifier@,
                op: (self->Assign_0).op,
                expr: (self->Assign_0).expression@,
            },
            Statement::Define(_) => StmtV::Define { name: (self->Define_0).identifier@ },
            Statement::DefineAndSet(_) => StmtV::DefineAndSet {
                name: (self->DefineAndSet_0).identifier@,
                expr: (self->DefineAndSet_0).expression@,
            },
            Statement::While(_) => StmtV::While {
                cond: (self->While_0).expression@,
                body: Box::new((*(self->While_0).statement)@),
            },
            Statement::For(_) => StmtV::For {
                init: Box::new((*(self->For_0).initializer)@),
                cond: (self->For_0).condition@,
                step: Box::new((*(self->For_0).increment)@),
                body: Box::new((*(self->For_0).statement)@),
            },
        }
    }
}

/// The model of an optional boxed branch.
pub open spec fn opt_stmt_view(o: Option<Box<Statement>>) -> Option<Box<StmtV>>
    decreases o,
{
    match o {
        Option::Some(_) => Option::Some(Box::new((*(o->Some_0))@)),
        Option::None => Option::None,
    }
}

impl View for IfExpression {
    type V = IfV;

    open spec fn view(&self) -> IfV
        decreases self,
    {
        IfV { conds: conds_view(self.conditionals@), otherwise: opt_stmt_view(self.otherwise) }
    }
}

impl View for Function {
    type V = FuncV;

    open spec fn view(&self) -> FuncV
        decreases self,
    {
        FuncV {
            name: self.name@,
            params: names_view(self.closure.params@),
            body: (*self.closure.body)@,
        }
    }
}

impl View for Block {
    type V = BlockV;

    open spec fn view(&self) -> BlockV
        decreases self,
    {
        BlockV { stmts: stmts_view(self.statements@), funcs: funcs_view(self.functions@) }
    }
}

impl View for Program {
    type V = ProgramV;

    open spec fn view(&self) -> ProgramV
        decreases self,
    {
        ProgramV { stmts: stmts_view(self.statements@), funcs: funcs_view(self.functions@) }
    }
}

// ---------------------------------------------------------------------------
// Pointwise characterisation of the sequence-view helpers.
// ---------------------------------------------------------------------------

pub broadcast proof fn lemma_vals_view(s: Seq<Value>)
    ensures
        (#[trigger] vals_view(s)).len() == s.len(),
        forall|i: int| 0 <= i < s.len() ==> vals_view(s)[i] == s[i]@,
    decreases s.len(),
{
    if s.len() == 0 {
        assert(vals_view(s) == Seq::<Val>::empty());
    } else {
        let pre = s.subrange(0, s.len() - 1);
        lemma_vals_view(pre);
        assert(vals_view(s) == vals_view(pre).push(s[s.len() - 1]@));
        assert forall|i: int| 0 <= i < s.len() implies vals_view(s)[i] == s[i]@ by {
            if i < s.len() - 1 {
                assert(pre[i] == s[i]);
                assert(vals_view(pre).push(s[s.len() - 1]@)[i] == vals_view(pre)[i]);
            }
        }
    }
}

pub broadcast proof fn lemma_val_entries_view(s: Seq<(Vec<u8>, Value)>)
    ensures
        (#[trigger] val_entries_view(s)).len() == s.len(),
        forall|i: int|
            0 <= i < s.len() ==> val_entries_view(s)[i] == (s[i].0@, s[i].1@),
    decreases s.len(),
{
    if s.len() == 0 {
        assert(val_entries_view(s) == Seq::<(Seq<u8>, Val)>::empty());
    } else {
        let pre = s.subrange(0, s.len() - 1);
        lemma_val_entries_view(pre);
        assert(val_entries_view(s) == val_entries_view(pre).push(
            (s[s.len() - 1].0@, s[s.len() - 1].1@),
        ));
        assert forall|i: int|
            0 <= i < s.len() implies val_entries_view(s)[i] == (s[i].0@, s[i].1@) by {
            if i < s.len() - 1 {
                assert(pre[i] == s[i]);
                assert(val_entries_view(s)[i] == val_entries_view(pre)[i]);
            }
        }
    }
}

pub broadcast proof fn lemma_exprs_view(s: Seq<Expression>)
    ensures
        (#[trigger] exprs_view(s)).len() == s.len(),
        forall|i: int| 0 <= i < s.len() ==> exprs_view(s)[i] == s[i]@,
    decreases s.len(),
{
    if s.len() == 0 {
        assert(exprs_view(s) == Seq::<ExprV>::empty());
    } else {
        let pre = s.subrange(0, s.len() - 1);
        lemma_exprs_view(pre);
        assert(exprs_view(s) == exprs_view(pre).push(s[s.len() - 1]@));
        assert forall|i: int| 0 <= i < s.len() implies exprs_view(s)[i] == s[i]@ by {
            if i < s.len() - 1 {
                assert(pre[i] == s[i]);
                assert(exprs_view(s)[i] == exprs_view(pre)[i]);
            }
        }
    }
}

pub broadcast proof fn lemma_stmts_view(s: Seq<Statement>)
    ensures
        (#[trigger] stmts_view(s)).len() == s.len(),
        forall|i: int| 0 <= i < s.len() ==> stmts_view(s)[i] == s[i]@,
    decreases s.len(),
{
    if s.len() == 0 {
        assert(stmts_view(s) == Seq::<StmtV>::empty());
    } else {
        let pre = s.subrange(0, s.len() - 1);
        lemma_stmts_view(pre);
        assert(stmts_view(s) == stmts_view(pre).push(s[s.len() - 1]@));
        assert forall|i: int| 0 <= i < s.len() implies stmts_view(s)[i] == s[i]@ by {
            if i < s.len() - 1 {
                assert(pre[i] == s[i]);
                assert(stmts_view(s)[i] == stmts_view(pre)[i]);
            }
        }
    }
}

pub broadcast proof fn lemma_funcs_view(s: Seq<Function>)
    ensures
        (#[trigger] funcs_view(s)).len() == s.len(),
        forall|i: int| 0 <= i < s.len() ==> funcs_view(s)[i] == s[i]@,
    decreases s.len(),
{
    if s.len() == 0 {
        assert(funcs_view(s) == Seq::<FuncV>::empty());
    } else {
        let pre = s.subrange(0, s.len() - 1);
        lemma_funcs_view(pre);
        assert(funcs_view(s) == funcs_view(pre).push(s[s.len() - 1]@));
        assert forall|i: int| 0 <= i < s.len() implies funcs_view(s)[i] == s[i]@ by {
            if i < s.len() - 1 {
                assert(pre[i] == s[i]);
                assert(funcs_view(s)[i] == funcs_view(pre)[i]);
            }
        }
    }
}

pub broadcast proof fn lemma_conds_view(s: Seq<(Expression, Statement)>)
    ensures
        (#[trigger] conds_view(s)).len() == s.len(),
        forall|i: int| 0 <= i < s.len() ==> conds_view(s)[i] == (s[i].0@, s[i].1@),
    decreases s.len(),
{
    if s.len() == 0 {
        assert(conds_view(s) == Seq::<(ExprV, StmtV)>::empty());
    } else {
        let pre = s.subrange(0, s.len() - 1);
        lemma_conds_view(pre);
        assert(conds_view(s) == conds_view(pre).push((s[s.len() - 1].0@, s[s.len() - 1].1@)));
        assert forall|i: int|
            0 <= i < s.len() implies conds_view(s)[i] == (s[i].0@, s[i].1@) by {
            if i < s.len() - 1 {
                assert(pre[i] == s[i]);
                assert(conds_view(s)[i] == conds_view(pre)[i]);
            }
        }
    }
}

pub broadcast proof fn lemma_arms_view(s: Seq<(Vec<Expression>, Expression)>)
    ensures
        (#[trigger] arms_view(s)).len() == s.len(),
        forall|i: int|
            0 <= i < s.len() ==> arms_view(s)[i] == (exprs_view(s[i].0@), s[i].1@),
    decreases s.len(),
{
    if s.len() == 0 {
        assert(arms_view(s) == Seq::<(Seq<ExprV>, ExprV)>::empty());
    } else {
        let pre = s.subrange(0, s.len() - 1);
        lemma_arms_view(pre);
        assert(arms_view(s) == arms_view(pre).push(
            (exprs_view(s[s.len() - 1].0@), s[s.len() - 1].1@),
        ));
        assert forall|i: int|
            0 <= i < s.len() implies arms_view(s)[i] == (exprs_view(s[i].0@), s[i].1@) by {
            if i < s.len() - 1 {
                assert(pre[i] == s[i]);
                assert(arms_view(s)[i] == arms_view(pre)[i]);
            }
        }
    }
}

pub broadcast proof fn lemma_expr_entries_view(s: Seq<(Vec<u8>, Expression)>)
    ensures
        (#[trigger] expr_entries_view(s)).len() == s.len(),
        forall|i: int|
            0 <= i < s.len() ==> expr_entries_view(s)[i] == (s[i].0@, s[i].1@),
    decreases s.len(),
{
    if s.len() == 0 {
        assert(expr_entries_view(s) == Seq::<(Seq<u8>, ExprV)>::empty());
    } else {
        let pre = s.subrange(0, s.len() - 1);
        lemma_expr_entries_view(pre);
        assert(expr_entries_view(s) == expr_entries_view(pre).push(
            (s[s.len() - 1].0@, s[s.len() - 1].1@),
        ));
        assert forall|i: int|
            0 <= i < s.len() implies expr_entries_view(s)[i] == (s[i].0@, s[i].1@) by {
            if i < s.len() - 1 {
                assert(pre[i] == s[i]);
                assert(expr_entries_view(s)[i] == expr_entries_view(pre)[i]);
            }
        }
    }
}

// ---------------------------------------------------------------------------
// Structure-preserving copies. Values are value-semantic: storing or loading
// one copies it, so every node offers a copy with the same model.
// ---------------------------------------------------------------------------

/// Copy a vector of expressions.
#[verifier::loop_isolation(false)]
pub fn dup_exprs(v: &Vec<Expression>) -> (r: Vec<Expression>)
    ensures
        r@.len() == v@.len(),
        forall|i: int| 0 <= i < v@.len() ==> r@[i]@ == v@[i]@,
    decreases v,
{
    let mut out: Vec<Expression> = Vec::new();
    let mut i: usize = 0;
    while i < v.len()
        invariant
            i <= v.len(),
            out@.len() == i,
            forall|j: int| 0 <= j < i ==> out@[j]@ == v@[j]@,
        decreases v.len() - i,
    {
        out.push(v[i].dup());
        i = i + 1;
    }
    out
}

/// Copy a vector of statements.
#[verifier::loop_isolation(false)]
pub fn dup_stmts(v: &Vec<Statement>) -> (r: Vec<Statement>)
    ensures
        r@.len() == v@.len(),
        forall|i: int| 0 <= i < v@.len() ==> r@[i]@ == v@[i]@,
    decreases v,
{
    let mut out: Vec<Statement> = Vec::new();
    let mut i: usize = 0;
    while i < v.len()
        invariant
            i <= v.len(),
            out@.len() == i,
            forall|j: int| 0 <= j < i ==> out@[j]@ == v@[j]@,
        decreases v.len() - i,
    {
        out.push(v[i].dup());
        i = i + 1;
    }
    out
}

/// Copy a vector of function definitions.
#[verifier::loop_isolation(false)]
pub fn dup_funcs(v: &Vec<Function>) -> (r: Vec<Function>)
    ensures
        r@.len() == v@.len(),
        forall|i: int| 0 <= i < v@.len() ==> r@[i]@ == v@[i]@,
    decreases v,
{
    let mut out: Vec<Function> = Vec::new();
    let mut i: usize = 0;
    while i < v.len()
        invariant
            i <= v.len(),
            out@.len() == i,
            forall|j: int| 0 <= j < i ==> out@[j]@ == v@[j]@,
        decreases v.len() - i,
    {
        out.push(v[i].dup());
        i = i + 1;
    }
    out
}

/// Copy a vector of values.
#[verifier::loop_isolation(false)]
pub fn dup_vals(v: &Vec<Value>) -> (r: Vec<Value>)
    ensures
        r@.len() == v@.len(),
        forall|i: int| 0 <= i < v@.len() ==> r@[i]@ == v@[i]@,
    decreases v,
{
    let mut out: Vec<Value> = Vec::new();
    let mut i: usize = 0;
    while i < v.len()
        invariant
            i <= v.len(),
            out@.len() == i,
            forall|j: int| 0 <= j < i ==> out@[j]@ == v@[j]@,
        decreases v.len() - i,
    {
        out.push(v[i].dup());
        i = i + 1;
    }
    out
}

/// Copy a vector of table entries.
#[verifier::loop_isolation(false)]
pub fn dup_val_entries(v: &Vec<(Vec<u8>, Value)>) -> (r: Vec<(Vec<u8>, Value)>)
    ensures
        r@.len() == v@.len(),
        forall|i: int|
            0 <= i < v@.len() ==> r@[i].0@ == v@[i].0@ && r@[i].1@ == v@[i].1@,
    decreases v,
{
    let mut out: Vec<(Vec<u8>, Value)> = Vec::new();
    let mut i: usize = 0;
    while i < v.len()
        invariant
            i <= v.len(),
            out@.len() == i,
            forall|j: int| 0 <= j < i ==> out@[j].0@ == v@[j].0@ && out@[j].1@ == v@[j].1@,
        decreases v.len() - i,
    {
        let name = crate::bytes::dup_bytes(&v[i].0);
        let value = v[i].1.dup();
        out.push((name, value));
        i = i + 1;
    }
    out
}

/// Copy a vector of table-literal entries.
#[verifier::loop_isolation(false)]
pub fn dup_expr_entries(v: &Vec<(Vec<u8>, Expression)>) -> (r: Vec<(Vec<u8>, Expression)>)
    ensures
        r@.len() == v@.len(),
        forall|i: int|
            0 <= i < v@.len() ==> r@[i].0@ == v@[i].0@ && r@[i].1@ == v@[i].1@,
    decreases v,
{
    let mut out: Vec<(Vec<u8>, Expression)> = Vec::new();
    let mut i: usize = 0;
    while i < v.len()
        invariant
            i <= v.len(),
            out@.len() == i,
            forall|j: int| 0 <= j < i ==> out@[j].0@ == v@[j].0@ && out@[j].1@ == v@[j].1@,
        decreases v.len() - i,
    {
        let name = crate::bytes::dup_bytes(&v[i].0);
        let value = v[i].1.dup();
        out.push((name, value));
        i = i + 1;
    }
    out
}

/// Copy a vector of conditional branches.
#[verifier::loop_isolation(false)]
pub fn dup_conds(v: &Vec<(Expression, Statement)>) -> (r: Vec<(Expression, Statement)>)
    ensures
        r@.len() == v@.len(),
        forall|i: int|
            0 <= i < v@.len() ==> r@[i].0@ == v@[i].0@ && r@[i].1@ == v@[i].1@,
    decreases v,
{
    let mut out: Vec<(Expression, Statement)> = Vec::new();
    let mut i: usize = 0;
    while i < v.len()
        invariant
            i <= v.len(),
            out@.len() == i,
            forall|j: int| 0 <= j < i ==> out@[j].0@ == v@[j].0@ && out@[j].1@ == v@[j].1@,
        decreases v.len() - i,
    {
        let cond = v[i].0.dup();
        let branch = v[i].1.dup();
        out.push((cond, branch));
        i = i + 1;
    }
    out
}

/// Copy a vector of match arms.
#[verifier::loop_isolation(false)]
pub fn dup_arms(v: &Vec<(Vec<Expression>, Expression)>) -> (r: Vec<(Vec<Expression>, Expression)>)
    ensures
        r@.len() == v@.len(),
        forall|i: int|
            0 <= i < v@.len() ==> exprs_view(r@[i].0@) == exprs_view(v@[i].0@) && r@[i].1@
                == v@[i].1@,
    decreases v,
{
    let mut out: Vec<(Vec<Expression>, Expression)> = Vec::new();
    let mut i: usize = 0;
    while i < v.len()
        invariant
            i <= v.len(),
            out@.len() == i,
            forall|j: int|
                0 <= j < i ==> exprs_view(out@[j].0@) == exprs_view(v@[j].0@) && out@[j].1@
                    == v@[j].1@,
        decreases v.len() - i,
    {
        let cases = dup_exprs(&v[i].0);
        let result = v[i].1.dup();
        proof {
            broadcast use group_seq_views;

            assert(exprs_view(cases@) =~= exprs_view(v@[i as int].0@));
        }
        out.push((cases, result));
        i = i + 1;
    }
    out
}

impl Value {
    /// A copy with the same model.
    #[verifier::loop_isolation(false)]
    pub fn dup(&self) -> (r: Value)
        ensures
            r@ == self@,
        decreases self,
    {
        match self {
            Value::Table(t) => {
                let entries = dup_val_entries(&t.entries);
                proof {
                    broadcast use group_seq_views;

                    assert(val_entries_view(entries@) =~= val_entries_view(t.entries@));
                }
                Value::Table(ValuesTable { entries })
            }
            Value::ExclusiveRange(a, b) => Value::ExclusiveRange(*a, *b),
            Value::InclusiveRange(a, b) => Value::InclusiveRange(*a, *b),
            Value::Array(a) => {
                let elements = dup_vals(&a.elements);
                proof {
                    broadcast use group_seq_views;

                    assert(vals_view(elements@) =~= vals_view(a.elements@));
                }
                Value::Array(ValuesArray { elements })
            }
            Value::Closure(c) => Value::Closure(c.dup()),
            Value::Number(n) => Value::Number(*n),
            Value::String(s) => Value::String(crate::bytes::dup_bytes(s)),
            Value::Boolean(b) => Value::Boolean(*b),
            Value::Nil => Value::Nil,
        }
    }
}

impl Closure {
    /// A copy with the same model.
    pub fn dup(&self) -> (r: Closure)
        ensures
            r@ == self@,
        decreases self,
    {
        match self {
            Closure::Normal(nc) => Closure::Normal(nc.dup()),
            Closure::Native(nc) => Closure::Native(NativeClosure { builtin: nc.builtin }),
        }
    }
}

impl NormalClosure {
    /// A copy whose parameter names and body have the same models.
    pub fn dup(&self) -> (r: NormalClosure)
        ensures
            names_view(r.params@) == names_view(self.params@),
            r.body@ == self.body@,
        decreases self,
    {
        let params = crate::bytes::dup_names(&self.params);
        let body = Box::new(self.body.dup());
        proof {
            assert(names_view(params@) =~= names_view(self.params@));
        }
        NormalClosure { params, body }
    }
}

impl Function {
    /// A copy with the same model.
    pub fn dup(&self) -> (r: Function)
        ensures
            r@ == self@,
        decreases self,
    {
        Function { name: crate::bytes::dup_bytes(&self.name), closure: self.closure.dup() }
    }
}

impl Block {
    /// A copy with the same model.
    pub fn dup(&self) -> (r: Block)
        ensures
            r@ == self@,
        decreases self,
    {
        let statements = dup_stmts(&self.statements);
        let functions = dup_funcs(&self.functions);
        proof {
            broadcast use group_seq_views;

            assert(stmts_view(statements@) =~= stmts_view(self.statements@));
            assert(funcs_view(functions@) =~= funcs_view(self.functions@));
        }
        Block { statements, functions }
    }
}

impl IfExpression {
    /// A copy with the same model.
    pub fn dup(&self) -> (r: IfExpression)
        ensures
            r@ == self@,
        decreases self,
    {
        let conditionals = dup_conds(&self.conditionals);
        let otherwise = match &self.otherwise {
            Option::Some(b) => Option::Some(Box::new(b.dup())),
            Option::None => Option::None,
        };
        proof {
            broadcast use group_seq_views;

            assert(conds_view(conditionals@) =~= conds_view(self.conditionals@));
        }
        IfExpression { conditionals, otherwise }
    }
}

impl PostfixOp {
    /// A copy with the same model.
    pub fn dup(&self) -> (r: PostfixOp)
        ensures
            r@ == self@,
        decreases self,
    {
        match self {
            PostfixOp::Debug => PostfixOp::Debug,
            PostfixOp::Print => PostfixOp::Print,
            PostfixOp::Index(e) => PostfixOp::Index(Box::new(e.dup())),
            PostfixOp::DotIndex(name) => PostfixOp::DotIndex(crate::bytes::dup_bytes(name)),
        }
    }
}

impl Statement {
    /// A copy with the same model.
    pub fn dup(&self) -> (r: Statement)
        ensures
            r@ == self@,
        decreases self,
    {
        match self {
            Statement::Expression(e) => Statement::Expression(e.dup()),
            Statement::Assign(s) => Statement::Assign(SetStatement {
                identifier: crate::bytes::dup_bytes(&s.identifier),
                op: s.op,
                expression: s.expression.dup(),
            }),
            Statement::Define(s) => Statement::Define(DefineStatement {
                identifier: crate::bytes::dup_bytes(&s.identifier),
            }),
            Statement::DefineAndSet(s) => Statement::DefineAndSet(DefineAndSetStatement {
                identifier: crate::bytes::dup_bytes(&s.identifier),
                expression: s.expression.dup(),
            }),
            Statement::While(s) => Statement::While(WhileStatement {
                expression: s.expression.dup(),
                statement: Box::new(s.statement.dup()),
            }),
            Statement::For(s) => Statement::For(ForStatement {
                initializer: Box::new(s.initializer.dup()),
                condition: s.condition.dup(),
                increment: Box::new(s.increment.dup()),
                statement: Box::new(s.statement.dup()),
            }),
        }
    }
}

impl Expression {
    /// A copy with the same model.
    pub fn dup(&self) -> (r: Expression)
        ensures
            r@ == self@,
        decreases self,
    {
        match self {
            Expression::Value(v) => Expression::Value(v.dup()),
            Expression::Infixed(o) => Expression::Infixed(Operation {
                lhs: Box::new(o.lhs.dup()),
                infix: o.infix,
                rhs: Box::new(o.rhs.dup()),
            }),
            Expression::Prefixed(p) => Expression::Prefixed(PrefixedExpression {
                op: p.op,
                expression: Box::new(p.expression.dup()),
            }),
            Expression::Postfixed(p) => Expression::Postfixed(PostfixedExpression {
                expression: Box::new(p.expression.dup()),
                op: p.op.dup(),
            }),
            Expression::Identifier(name) => Expression::Identifier(
                crate::bytes::dup_bytes(name),
            ),
            Expression::Block(b) => Expression::Block(b.dup()),
            Expression::Match(m) => {
                let input = Box::new(m.input.dup());
                let arms = dup_arms(&m.map);
                proof {
                    broadcast use group_seq_views;

                    assert(arms_view(arms@) =~= arms_view(m.map@));
                }
                Expression::Match(MapExpression { input, map: arms })
            }
            Expression::FunctionCall(c) => {
                let name = crate::bytes::dup_bytes(&c.name);
                let arguments = dup_exprs(&c.arguments);
                proof {
                    broadcast use group_seq_views;

                    assert(exprs_view(arguments@) =~= exprs_view(c.arguments@));
                }
                Expression::FunctionCall(FunctionCall { name, arguments })
            }
            Expression::Array(a) => {
                let elements = dup_exprs(&a.elements);
                proof {
                    broadcast use group_seq_views;

                    assert(exprs_view(elements@) =~= exprs_view(a.elements@));
                }
                Expression::Array(ExpressionsArray { elements })
            }
            Expression::Table(t) => {
                let entries = dup_expr_entries(&t.entries);
                proof {
                    broadcast use group_seq_views;

                    assert(expr_entries_view(entries@) =~= expr_entries_view(t.entries@));
                }
                Expression::Table(ExpressionsTable { entries })
            }
            Expression::If(i) => Expression::If(Box::new(i.dup())),
        }
    }
}

/// All pointwise view lemmas as one group.
pub broadcast group group_seq_views {
    lemma_vals_view,
    lemma_val_entries_view,
    lemma_exprs_view,
    lemma_stmts_view,
    lemma_funcs_view,
    lemma_conds_view,
    lemma_arms_view,
    lemma_expr_entries_view,
}

} // verus!
