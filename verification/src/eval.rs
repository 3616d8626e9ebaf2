//! The evaluator: a recursive walk of the syntax tree against the scope
//! stack, defined twice over - once as a mathematical interpreter on the
//! models (`sem_*`), once executably - with the executable walk proved to
//! return exactly what the mathematical one says.
//!
//! Every recursive step spends one unit of a step budget ("fuel"); a run
//! whose budget is exhausted reports no result. The budget bounds recursion
//! depth and loop iterations, which is what makes the walk provably total;
//! callers pass a budget far beyond anything a real program reaches.

use vstd::prelude::*;
use crate::ast::{Val, ClosV, ExprV, StmtV, BlockV, FuncV, ProgramV, Builtin, Operator, PrefixOp, PostfixOp, opt_stmt_view,
    PostOpV, SetOp, Expression, Statement, Block, Function, Value, Closure, NormalClosure,
    NativeClosure, IfExpression, PostfixedExpression, vals_view, val_entries_view, exprs_view, stmts_view, funcs_view, conds_view,
    arms_view, expr_entries_view, names_view, group_seq_views};
use crate::storage::{Storage, StoreV, ScopeV, store_get, store_get_opt, store_define, store_set,
    opt_view};
use crate::ops;
use crate::ops::{apply_infix, apply_prefix, add_val, sub_val, eq_val, as_bool_val, index_val,
    dot_index_val, tbl_put};
use crate::fmt::{fmt_print_val, fmt_debug_val, Printable};
use crate::bytes::dup_bytes;

verus! {

/// The reserved name that carries a block's running value.
pub open spec fn underscore() -> Seq<u8> {
    seq![95u8]
}

/// What one evaluation step leaves behind: the scope stack, the text printed
/// so far, and the value - or no value, when the step budget ran out.
#[verifier::ext_equal]
pub struct Outcome {
    pub store: StoreV,
    pub log: Seq<u8>,
    pub result: Option<Val>,
}

/// As `Outcome`, for a list of argument values.
#[verifier::ext_equal]
pub struct OutcomeList {
    pub store: StoreV,
    pub log: Seq<u8>,
    pub results: Option<Seq<Val>>,
}

/// Bind each hoisted function as a script closure in the top scope, in order.
pub open spec fn bind_funcs(funcs: Seq<FuncV>, st: StoreV) -> StoreV
    decreases funcs.len(),
{
    if funcs.len() == 0 {
        st
    } else {
        bind_funcs(
            funcs.subrange(1, funcs.len() as int),
            store_define(
                st,
                funcs[0].name,
                Val::Clos(ClosV::Script { params: funcs[0].params, body: Box::new(funcs[0].body) }),
            ),
        )
    }
}

/// Bind formal parameters, from position `k` on, to their positional
/// arguments in the top scope; missing arguments become nil, extras are
/// ignored.
pub open spec fn bind_params_from(params: Seq<Seq<u8>>, argv: Seq<Val>, k: int, st: StoreV) -> StoreV
    decreases params.len() - k,
{
    if k < 0 || k >= params.len() {
        st
    } else {
        bind_params_from(
            params,
            argv,
            k + 1,
            store_define(
                st,
                params[k],
                if k < argv.len() {
                    argv[k]
                } else {
                    Val::Nil
                },
            ),
        )
    }
}

/// What a native closure does: `Print` appends the printed text of its first
/// argument (nothing when there is none) and returns nil.
pub open spec fn sem_native(b: Builtin, vs: Seq<Val>, st: StoreV, log: Seq<u8>) -> Outcome {
    match b {
        Builtin::Print => Outcome {
            store: st,
            log: if vs.len() > 0 {
                log + fmt_print_val(vs[0])
            } else {
                log
            },
            result: Option::Some(Val::Nil),
        },
    }
}

/// Evaluate an expression.
pub open spec fn sem_expr(e: ExprV, st: StoreV, log: Seq<u8>, fuel: nat) -> Outcome
    decreases fuel,
{
    if fuel == 0 {
        Outcome { store: st, log, result: Option::None }
    } else {
        let f = (fuel - 1) as nat;
        match e {
            ExprV::Value(v) => Outcome { store: st, log, result: Option::Some(v) },
            ExprV::Ident(name) => Outcome {
                store: st,
                log,
                result: Option::Some(store_get(st, name)),
            },
            ExprV::Infix { lhs, op, rhs } => {
                let o1 = sem_expr(*lhs, st, log, f);
                match o1.result {
                    Option::None => o1,
                    Option::Some(a) => {
                        let o2 = sem_expr(*rhs, o1.store, o1.log, f);
                        match o2.result {
                            Option::None => o2,
                            Option::Some(b) => Outcome {
                                store: o2.store,
                                log: o2.log,
                                result: Option::Some(apply_infix(op, a, b)),
                            },
                        }
                    }
                }
            }
            ExprV::Prefix { op, expr } => {
                let o = sem_expr(*expr, st, log, f);
                match o.result {
                    Option::None => o,
                    Option::Some(v) => Outcome {
                        store: o.store,
                        log: o.log,
                        result: Option::Some(apply_prefix(op, v)),
                    },
                }
            }
            ExprV::Postfix { expr, op } => {
                let o = sem_expr(*expr, st, log, f);
                match o.result {
                    Option::None => o,
                    Option::Some(v) => match op {
                        PostOpV::Debug => Outcome {
                            store: o.store,
                            log: o.log + fmt_debug_val(v) + seq![10u8],
                            result: Option::Some(v),
                        },
                        PostOpV::Print => Outcome {
                            store: o.store,
                            log: o.log + fmt_print_val(v) + seq![10u8],
                            result: Option::Some(v),
                        },
                        PostOpV::Index(ie) => {
                            let oi = sem_expr(*ie, o.store, o.log, f);
                            match oi.result {
                                Option::None => oi,
                                Option::Some(i) => Outcome {
                                    store: oi.store,
                                    log: oi.log,
                                    result: Option::Some(index_val(v, i)),
                                },
                            }
                        }
                        PostOpV::DotIndex(name) => Outcome {
                            store: o.store,
                            log: o.log,
                            result: Option::Some(dot_index_val(v, name)),
                        },
                    },
                }
            }
            ExprV::Block(b) => sem_block(b, st, log, f),
            ExprV::Match { input, arms } => {
                let o = sem_expr(*input, st, log, f);
                match o.result {
                    Option::None => o,
                    Option::Some(i) => sem_arms(i, arms, Option::None, o.store, o.log, f),
                }
            }
            ExprV::Call { name, args } => sem_call(name, args, st, log, f),
            ExprV::Array(elems) => {
                let o = sem_args(elems, st, log, f);
                match o.results {
                    Option::None => Outcome { store: o.store, log: o.log, result: Option::None },
                    Option::Some(vs) => Outcome {
                        store: o.store,
                        log: o.log,
                        result: Option::Some(Val::Arr(vs)),
                    },
                }
            }
            ExprV::Table(entries) => sem_table(entries, Seq::empty(), st, log, f),
            ExprV::If(ifv) => {
                let o = sem_conds(
                    ifv.conds,
                    ifv.otherwise,
                    st.push(Seq::empty()),
                    log,
                    f,
                );
                match o.result {
                    Option::None => o,
                    Option::Some(v) => Outcome {
                        store: o.store.subrange(0, o.store.len() - 1),
                        log: o.log,
                        result: Option::Some(v),
                    },
                }
            }
        }
    }
}

/// Evaluate a statement.
pub open spec fn sem_stmt(s: StmtV, st: StoreV, log: Seq<u8>, fuel: nat) -> Outcome
    decreases fuel,
{
    if fuel == 0 {
        Outcome { store: st, log, result: Option::None }
    } else {
        let f = (fuel - 1) as nat;
        match s {
            StmtV::Expr(e) => sem_expr(e, st, log, f),
            StmtV::Assign { name, op, expr } => {
                let o = sem_expr(expr, st, log, f);
                match o.result {
                    Option::None => o,
                    Option::Some(new) => {
                        let value = match op {
                            SetOp::Assign => new,
                            SetOp::Increment => add_val(store_get(o.store, name), new),
                            SetOp::Decrement => sub_val(store_get(o.store, name), new),
                        };
                        Outcome {
                            store: store_set(o.store, name, value),
                            log: o.log,
                            result: Option::Some(value),
                        }
                    }
                }
            }
            StmtV::Define { name } => Outcome {
                store: store_define(st, name, Val::Nil),
                log,
                result: Option::Some(Val::Nil),
            },
            StmtV::DefineAndSet { name, expr } => {
                let o = sem_expr(expr, st, log, f);
                match o.result {
                    Option::None => o,
                    Option::Some(v) => Outcome {
                        store: store_define(o.store, name, v),
                        log: o.log,
                        result: Option::Some(v),
                    },
                }
            }
            StmtV::While { cond, body } => {
                let o = sem_while(cond, *body, Val::Nil, st.push(Seq::empty()), log, f);
                match o.result {
                    Option::None => o,
                    Option::Some(v) => Outcome {
                        store: o.store.subrange(0, o.store.len() - 1),
                        log: o.log,
                        result: Option::Some(v),
                    },
                }
            }
            StmtV::For { init, cond, step, body } => {
                let o0 = sem_stmt(*init, st.push(Seq::empty()), log, f);
                match o0.result {
                    Option::None => o0,
                    Option::Some(_) => {
                        let o = sem_for(cond, *step, *body, o0.store, o0.log, f);
                        match o.result {
                            Option::None => o,
                            Option::Some(_) => Outcome {
                                store: o.store.subrange(0, o.store.len() - 1),
                                log: o.log,
                                result: Option::Some(Val::Nil),
                            },
                        }
                    }
                }
            }
        }
    }
}

/// Evaluate a statement list: after each statement its value is written to
/// the reserved name in the current scope.
pub open spec fn sem_stmts(ss: Seq<StmtV>, st: StoreV, log: Seq<u8>, fuel: nat) -> Outcome
    decreases fuel,
{
    if fuel == 0 {
        Outcome { store: st, log, result: Option::None }
    } else if ss.len() == 0 {
        Outcome { store: st, log, result: Option::Some(Val::Nil) }
    } else {
        let f = (fuel - 1) as nat;
        let o = sem_stmt(ss[0], st, log, f);
        match o.result {
            Option::None => o,
            Option::Some(v) => sem_stmts(
                ss.subrange(1, ss.len() as int),
                store_define(o.store, underscore(), v),
                o.log,
                f,
            ),
        }
    }
}

/// Evaluate a block: a fresh scope, the reserved name nil, the hoisted
/// functions pre-bound, then the statements; the block's value is what the
/// reserved name holds at the end.
pub open spec fn sem_block(b: BlockV, st: StoreV, log: Seq<u8>, fuel: nat) -> Outcome
    decreases fuel,
{
    if fuel == 0 {
        Outcome { store: st, log, result: Option::None }
    } else {
        let f = (fuel - 1) as nat;
        let st1 = store_define(st.push(Seq::empty()), underscore(), Val::Nil);
        let st2 = bind_funcs(b.funcs, st1);
        let o = sem_stmts(b.stmts, st2, log, f);
        match o.result {
            Option::None => o,
            Option::Some(_) => Outcome {
                store: o.store.subrange(0, o.store.len() - 1),
                log: o.log,
                result: Option::Some(store_get(o.store, underscore())),
            },
        }
    }
}

/// Evaluate conditional branches inside the already pushed scope: the first
/// truthy condition chooses its branch; otherwise the else branch; otherwise
/// nil.
pub open spec fn sem_conds(
    conds: Seq<(ExprV, StmtV)>,
    otherwise: Option<Box<StmtV>>,
    st: StoreV,
    log: Seq<u8>,
    fuel: nat,
) -> Outcome
    decreases fuel,
{
    if fuel == 0 {
        Outcome { store: st, log, result: Option::None }
    } else {
        let f = (fuel - 1) as nat;
        if conds.len() == 0 {
            match otherwise {
                Option::Some(s) => sem_stmt(*s, st, log, f),
                Option::None => Outcome { store: st, log, result: Option::Some(Val::Nil) },
            }
        } else {
            let oc = sem_expr(conds[0].0, st, log, f);
            match oc.result {
                Option::None => oc,
                Option::Some(c) => if as_bool_val(c) {
                    sem_stmt(conds[0].1, oc.store, oc.log, f)
                } else {
                    sem_conds(
                        conds.subrange(1, conds.len() as int),
                        otherwise,
                        oc.store,
                        oc.log,
                        f,
                    )
                },
            }
        }
    }
}

/// Evaluate a while loop inside the already pushed scope; `prev` is the last
/// body value, nil before the first iteration.
pub open spec fn sem_while(
    cond: ExprV,
    body: StmtV,
    prev: Val,
    st: StoreV,
    log: Seq<u8>,
    fuel: nat,
) -> Outcome
    decreases fuel,
{
    if fuel == 0 {
        Outcome { store: st, log, result: Option::None }
    } else {
        let f = (fuel - 1) as nat;
        let oc = sem_expr(cond, st, log, f);
        match oc.result {
            Option::None => oc,
            Option::Some(c) => if !as_bool_val(c) {
                Outcome { store: oc.store, log: oc.log, result: Option::Some(prev) }
            } else {
                let ob = sem_stmt(body, oc.store, oc.log, f);
                match ob.result {
                    Option::None => ob,
                    Option::Some(v) => sem_while(cond, body, v, ob.store, ob.log, f),
                }
            },
        }
    }
}

/// Evaluate a for loop inside the already pushed scope, after its
/// initializer.
pub open spec fn sem_for(
    cond: ExprV,
    step: StmtV,
    body: StmtV,
    st: StoreV,
    log: Seq<u8>,
    fuel: nat,
) -> Outcome
    decreases fuel,
{
    if fuel == 0 {
        Outcome { store: st, log, result: Option::None }
    } else {
        let f = (fuel - 1) as nat;
        let oc = sem_expr(cond, st, log, f);
        match oc.result {
            Option::None => oc,
            Option::Some(c) => if !as_bool_val(c) {
                Outcome { store: oc.store, log: oc.log, result: Option::Some(Val::Nil) }
            } else {
                let ob = sem_stmt(body, oc.store, oc.log, f);
                match ob.result {
                    Option::None => ob,
                    Option::Some(_) => {
                        let os = sem_stmt(step, ob.store, ob.log, f);
                        match os.result {
                            Option::None => os,
                            Option::Some(_) => sem_for(cond, step, body, os.store, os.log, f),
                        }
                    }
                }
            },
        }
    }
}

/// Evaluate an argument list, left to right.
pub open spec fn sem_args(args: Seq<ExprV>, st: StoreV, log: Seq<u8>, fuel: nat) -> OutcomeList
    decreases fuel,
{
    if fuel == 0 {
        OutcomeList { store: st, log, results: Option::None }
    } else if args.len() == 0 {
        OutcomeList { store: st, log, results: Option::Some(Seq::empty()) }
    } else {
        let f = (fuel - 1) as nat;
        let o = sem_expr(args[0], st, log, f);
        match o.result {
            Option::None => OutcomeList { store: o.store, log: o.log, results: Option::None },
            Option::Some(v) => {
                let rest = sem_args(args.subrange(1, args.len() as int), o.store, o.log, f);
                match rest.results {
                    Option::None => rest,
                    Option::Some(vs) => OutcomeList {
                        store: rest.store,
                        log: rest.log,
                        results: Option::Some(seq![v] + vs),
                    },
                }
            }
        }
    }
}

/// Evaluate a call: an absent name or one not bound to a closure yields nil;
/// a script closure runs its body in a fresh scope with the parameters
/// bound; a native closure is the host operation it stands for.
pub open spec fn sem_call(name: Seq<u8>, args: Seq<ExprV>, st: StoreV, log: Seq<u8>, fuel: nat) -> Outcome
    decreases fuel,
{
    if fuel == 0 {
        Outcome { store: st, log, result: Option::None }
    } else {
        let f = (fuel - 1) as nat;
        match store_get_opt(st, name) {
            Option::Some(Val::Clos(c)) => {
                let oa = sem_args(args, st, log, f);
                match oa.results {
                    Option::None => Outcome {
                        store: oa.store,
                        log: oa.log,
                        result: Option::None,
                    },
                    Option::Some(vs) => match c {
                        ClosV::Script { params, body } => {
                            let st1 = bind_params_from(
                                params,
                                vs,
                                0,
                                oa.store.push(Seq::empty()),
                            );
                            let ob = sem_expr(*body, st1, oa.log, f);
                            match ob.result {
                                Option::None => ob,
                                Option::Some(v) => Outcome {
                                    store: ob.store.subrange(0, ob.store.len() - 1),
                                    log: ob.log,
                                    result: Option::Some(v),
                                },
                            }
                        }
                        ClosV::Native(b) => sem_native(b, vs, oa.store, oa.log),
                    },
                }
            }
            _ => Outcome { store: st, log, result: Option::Some(Val::Nil) },
        }
    }
}

/// Evaluate match arms: cases compare by value equality against the input;
/// the wildcard records its arm as the fallback instead of being evaluated.
pub open spec fn sem_arms(
    input: Val,
    arms: Seq<(Seq<ExprV>, ExprV)>,
    fallback: Option<ExprV>,
    st: StoreV,
    log: Seq<u8>,
    fuel: nat,
) -> Outcome
    decreases fuel,
{
    if fuel == 0 {
        Outcome { store: st, log, result: Option::None }
    } else {
        let f = (fuel - 1) as nat;
        if arms.len() == 0 {
            match fallback {
                Option::Some(fe) => sem_expr(fe, st, log, f),
                Option::None => Outcome { store: st, log, result: Option::Some(Val::Nil) },
            }
        } else {
            sem_cases(
                input,
                arms[0].0,
                arms[0].1,
                arms.subrange(1, arms.len() as int),
                fallback,
                st,
                log,
                f,
            )
        }
    }
}

/// Evaluate the cases of one match arm.
pub open spec fn sem_cases(
    input: Val,
    cases: Seq<ExprV>,
    value: ExprV,
    rest: Seq<(Seq<ExprV>, ExprV)>,
    fallback: Option<ExprV>,
    st: StoreV,
    log: Seq<u8>,
    fuel: nat,
) -> Outcome
    decreases fuel,
{
    if fuel == 0 {
        Outcome { store: st, log, result: Option::None }
    } else {
        let f = (fuel - 1) as nat;
        if cases.len() == 0 {
            sem_arms(input, rest, fallback, st, log, f)
        } else if cases[0] == ExprV::Ident(underscore()) {
            sem_cases(
                input,
                cases.subrange(1, cases.len() as int),
                value,
                rest,
                Option::Some(value),
                st,
                log,
                f,
            )
        } else {
            let oc = sem_expr(cases[0], st, log, f);
            match oc.result {
                Option::None => oc,
                Option::Some(c) => if as_bool_val(eq_val(input, c)) {
                    sem_expr(value, oc.store, oc.log, f)
                } else {
                    sem_cases(
                        input,
                        cases.subrange(1, cases.len() as int),
                        value,
                        rest,
                        fallback,
                        oc.store,
                        oc.log,
                        f,
                    )
                },
            }
        }
    }
}

/// Evaluate a table literal's entries in order of appearance; a repeated key
/// keeps its first position, and its last value wins.
pub open spec fn sem_table(
    entries: Seq<(Seq<u8>, ExprV)>,
    acc: Seq<(Seq<u8>, Val)>,
    st: StoreV,
    log: Seq<u8>,
    fuel: nat,
) -> Outcome
    decreases fuel,
{
    if fuel == 0 {
        Outcome { store: st, log, result: Option::None }
    } else if entries.len() == 0 {
        Outcome { store: st, log, result: Option::Some(Val::Tbl(acc)) }
    } else {
        let f = (fuel - 1) as nat;
        let o = sem_expr(entries[0].1, st, log, f);
        match o.result {
            Option::None => o,
            Option::Some(v) => sem_table(
                entries.subrange(1, entries.len() as int),
                tbl_put(acc, entries[0].0, v),
                o.store,
                o.log,
                f,
            ),
        }
    }
}

/// Evaluate a whole program: its statements and hoisted functions are run by
/// the block rule against the given stack.
pub open spec fn sem_run(p: ProgramV, st: StoreV, log: Seq<u8>, fuel: nat) -> Outcome {
    sem_block(BlockV { stmts: p.stmts, funcs: p.funcs }, st, log, fuel)
}

// ---------------------------------------------------------------------------
// The executable walk.
// ---------------------------------------------------------------------------

/// The model of an optional borrowed fallback expression.
pub open spec fn opt_expr_view(fb: Option<&Expression>) -> Option<ExprV> {
    match fb {
        Option::Some(e) => Option::Some(e@),
        Option::None => Option::None,
    }
}

/// The reserved name as bytes.
pub fn underscore_vec() -> (r: Vec<u8>)
    ensures
        r@ == underscore(),
{
    let r: Vec<u8> = vec![95];
    proof {
        assert(r@ =~= underscore());
    }
    r
}

/// Bind formal parameters from position `k` on.
pub(crate) fn bind_params_exec(
    params: &Vec<Vec<u8>>,
    argv: &Vec<Value>,
    k: usize,
    st: &mut Storage,
)
    requires
        old(st)@.len() >= 1,
    ensures
        final(st)@ == bind_params_from(names_view(params@), vals_view(argv@), k as int, old(st)@),
        final(st)@.len() == old(st)@.len(),
    decreases params.len() - k,
{
    broadcast use group_seq_views;

    if k >= params.len() {
        return;
    }
    let v = if k < argv.len() {
        argv[k].dup()
    } else {
        Value::Nil
    };
    st.define(&params[k], v);
    bind_params_exec(params, argv, k + 1, st);
}

/// Bind hoisted functions from position `k` on.
pub(crate) fn bind_funcs_exec(funcs: &Vec<Function>, k: usize, st: &mut Storage)
    requires
        old(st)@.len() >= 1,
        k <= funcs@.len(),
    ensures
        final(st)@ == bind_funcs(funcs_view(funcs@).subrange(k as int, funcs@.len() as int), old(st)@),
        final(st)@.len() == old(st)@.len(),
    decreases funcs.len() - k,
{
    broadcast use group_seq_views;

    let ghost fv = funcs_view(funcs@).subrange(k as int, funcs@.len() as int);
    if k >= funcs.len() {
        proof {
            assert(fv.len() == 0);
        }
        return;
    }
    let f = &funcs[k];
    let nc = f.closure.dup();
    let v = Value::Closure(Closure::Normal(nc));
    proof {
        assert(fv[0] == funcs@[k as int]@);
        assert(v@ == Val::Clos(
            ClosV::Script { params: fv[0].params, body: Box::new(fv[0].body) },
        ));
    }
    st.define(&f.name, v);
    bind_funcs_exec(funcs, k + 1, st);
    proof {
        assert(funcs_view(funcs@).subrange(k + 1, funcs@.len() as int) =~= fv.subrange(
            1,
            fv.len() as int,
        ));
    }
}

/// Holds when one expression step's results match the mathematical walk.
pub open spec fn expr_post(
    e: ExprV,
    st0: StoreV,
    log0: Seq<u8>,
    fuel: nat,
    st1: StoreV,
    log1: Seq<u8>,
    r: Option<Val>,
) -> bool {
    let o = sem_expr(e, st0, log0, fuel);
    st1 == o.store && log1 == o.log && r == o.result
}

/// Evaluate an expression.
#[verifier::rlimit(100)]
pub(crate) fn eval_expr(e: &Expression, st: &mut Storage, log: &mut Vec<u8>, fuel: u64) -> (r:
    Option<Value>)
    requires
        old(st)@.len() >= 1,
    ensures
        ({
            let o = sem_expr(e@, old(st)@, old(log)@, fuel as nat);
            &&& final(st)@ == o.store
            &&& final(log)@ == o.log
            &&& opt_view(r) == o.result
            &&& final(st)@.len() >= old(st)@.len()
            &&& (o.result is Some ==> final(st)@.len() == old(st)@.len())
        }),
    decreases fuel,
{
    broadcast use group_seq_views;

    if fuel == 0 {
        return Option::None;
    }
    let f = fuel - 1;
    match e {
        Expression::Value(v) => {
            let r2 = Option::Some(v.dup());
            proof {
                assert(expr_post(e@, old(st)@, old(log)@, fuel as nat, st@, log@, opt_view(r2)));
            }
            r2
        }
        Expression::Identifier(name) => {
            let r2 = Option::Some(st.get(name));
            proof {
                assert(expr_post(e@, old(st)@, old(log)@, fuel as nat, st@, log@, opt_view(r2)));
            }
            r2
        }
        Expression::Infixed(o) => {
            let r2 = match eval_expr(&o.lhs, st, log, f) {
                Option::None => Option::None,
                Option::Some(a) => {
                    match eval_expr(&o.rhs, st, log, f) {
                        Option::None => Option::None,
                        Option::Some(b) => Option::Some(ops::infix(o.infix, a, b)),
                    }
                }
            };
            proof {
                assert(expr_post(e@, old(st)@, old(log)@, fuel as nat, st@, log@, opt_view(r2)));
            }
            r2
        }
        Expression::Prefixed(p) => {
            let r2 = match eval_expr(&p.expression, st, log, f) {
                Option::None => Option::None,
                Option::Some(v) => Option::Some(ops::prefix(p.op, v)),
            };
            proof {
                assert(expr_post(e@, old(st)@, old(log)@, fuel as nat, st@, log@, opt_view(r2)));
            }
            r2
        }
        Expression::Postfixed(p) => eval_postfix(p, st, log, fuel),
        Expression::Block(b) => {
            proof {
                assert(*e is Block);
                assert(*b == e->Block_0);
                assert(e@ == ExprV::Block((e->Block_0)@));
                assert((e->Block_0)@ == BlockV {
                    stmts: stmts_view((e->Block_0).statements@),
                    funcs: funcs_view((e->Block_0).functions@),
                });
            }
            let r2 = eval_block_parts(&b.statements, &b.functions, st, log, f);
            proof {
                assert(expr_post(e@, old(st)@, old(log)@, fuel as nat, st@, log@, opt_view(r2)));
            }
            r2
        }
        Expression::Match(m) => {
            proof {
                assert(arms_view(m.map@).subrange(0, m.map@.len() as int) =~= arms_view(
                    m.map@,
                ));
            }
            let r2 = match eval_expr(&m.input, st, log, f) {
                Option::None => Option::None,
                Option::Some(i) => eval_arms(&i, &m.map, 0, Option::None, st, log, f),
            };
            proof {
                assert(expr_post(e@, old(st)@, old(log)@, fuel as nat, st@, log@, opt_view(r2)));
            }
            r2
        }
        Expression::FunctionCall(c) => {
            let r2 = eval_call(&c.name, &c.arguments, st, log, f);
            proof {
                assert(expr_post(e@, old(st)@, old(log)@, fuel as nat, st@, log@, opt_view(r2)));
            }
            r2
        }
        Expression::Array(a) => {
            proof {
                assert(exprs_view(a.elements@).subrange(0, a.elements@.len() as int)
                    =~= exprs_view(a.elements@));
            }
            let r2 = match eval_args(&a.elements, 0, st, log, f) {
                Option::None => Option::None,
                Option::Some(vs) => Option::Some(
                    Value::Array(crate::ast::ValuesArray { elements: vs }),
                ),
            };
            proof {
                assert(expr_post(e@, old(st)@, old(log)@, fuel as nat, st@, log@, opt_view(r2)));
            }
            r2
        }
        Expression::Table(t) => {
            let acc: Vec<(Vec<u8>, Value)> = Vec::new();
            proof {
                assert(val_entries_view(acc@) =~= Seq::<(Seq<u8>, Val)>::empty());
                assert(expr_entries_view(t.entries@).subrange(0, t.entries@.len() as int)
                    =~= expr_entries_view(t.entries@));
            }
            let r2 = eval_table(&t.entries, 0, acc, st, log, f);
            proof {
                assert(expr_post(e@, old(st)@, old(log)@, fuel as nat, st@, log@, opt_view(r2)));
            }
            r2
        }
        Expression::If(b) => eval_if_expr(b, st, log, fuel),
    }
}

/// Evaluate a postfix application.
pub(crate) fn eval_postfix(p: &PostfixedExpression, st: &mut Storage, log: &mut Vec<u8>, fuel: u64)
    -> (r: Option<Value>)
    requires
        old(st)@.len() >= 1,
        fuel >= 1,
    ensures
        ({
            let o = sem_expr(
                ExprV::Postfix { expr: Box::new((*p.expression)@), op: p.op@ },
                old(st)@,
                old(log)@,
                fuel as nat,
            );
            &&& final(st)@ == o.store
            &&& final(log)@ == o.log
            &&& opt_view(r) == o.result
            &&& final(st)@.len() >= old(st)@.len()
            &&& (o.result is Some ==> final(st)@.len() == old(st)@.len())
        }),
    decreases fuel, 0int,
{
    broadcast use group_seq_views;

    let f = fuel - 1;
    match eval_expr(&p.expression, st, log, f) {
        Option::None => Option::None,
        Option::Some(v) => match &p.op {
            PostfixOp::Debug => {
                let t = v.fmt_debug();
                crate::bytes::push_all(log, &t);
                log.push(10);
                proof {
                    let o1 = sem_expr((*p.expression)@, old(st)@, old(log)@, f as nat);
                    assert(log@ =~= o1.log + fmt_debug_val(v@) + seq![10u8]);
                }
                Option::Some(v)
            }
            PostfixOp::Print => {
                let t = v.fmt_print();
                crate::bytes::push_all(log, &t);
                log.push(10);
                proof {
                    let o1 = sem_expr((*p.expression)@, old(st)@, old(log)@, f as nat);
                    assert(log@ =~= o1.log + fmt_print_val(v@) + seq![10u8]);
                }
                Option::Some(v)
            }
            PostfixOp::Index(ie) => {
                match eval_expr(ie, st, log, f) {
                    Option::None => Option::None,
                    Option::Some(i) => Option::Some(ops::index(v, i)),
                }
            }
            PostfixOp::DotIndex(name) => Option::Some(ops::dot_index(v, dup_bytes(name))),
        },
    }
}

/// Evaluate a conditional expression.
pub(crate) fn eval_if_expr(b: &IfExpression, st: &mut Storage, log: &mut Vec<u8>, fuel: u64) -> (r:
    Option<Value>)
    requires
        old(st)@.len() >= 1,
        fuel >= 1,
    ensures
        ({
            let o = sem_expr(ExprV::If(b@), old(st)@, old(log)@, fuel as nat);
            &&& final(st)@ == o.store
            &&& final(log)@ == o.log
            &&& opt_view(r) == o.result
            &&& final(st)@.len() >= old(st)@.len()
            &&& (o.result is Some ==> final(st)@.len() == old(st)@.len())
        }),
    decreases fuel, 0int,
{
    broadcast use group_seq_views;

    let f = fuel - 1;
    st.push_scope();
    let r = eval_conds(&b.conditionals, 0, &b.otherwise, st, log, f);
    proof {
        assert(conds_view(b.conditionals@).subrange(0, b.conditionals@.len() as int)
            =~= conds_view(b.conditionals@));
    }
    match r {
        Option::None => Option::None,
        Option::Some(v) => {
            st.pop_scope();
            Option::Some(v)
        }
    }
}

/// Evaluate a statement.
pub(crate) fn eval_stmt(s: &Statement, st: &mut Storage, log: &mut Vec<u8>, fuel: u64) -> (r:
    Option<Value>)
    requires
        old(st)@.len() >= 1,
    ensures
        ({
            let o = sem_stmt(s@, old(st)@, old(log)@, fuel as nat);
            &&& final(st)@ == o.store
            &&& final(log)@ == o.log
            &&& opt_view(r) == o.result
            &&& final(st)@.len() >= old(st)@.len()
            &&& (o.result is Some ==> final(st)@.len() == old(st)@.len())
        }),
    decreases fuel,
{
    broadcast use group_seq_views;

    if fuel == 0 {
        return Option::None;
    }
    let f = fuel - 1;
    match s {
        Statement::Expression(e) => eval_expr(e, st, log, f),
        Statement::Assign(a) => {
            match eval_expr(&a.expression, st, log, f) {
                Option::None => Option::None,
                Option::Some(new) => {
                    let value = match a.op {
                        SetOp::Assign => new,
                        SetOp::Increment => {
                            let curr = st.get(&a.identifier);
                            ops::add(curr, new)
                        }
                        SetOp::Decrement => {
                            let curr = st.get(&a.identifier);
                            ops::sub(curr, new)
                        }
                    };
                    let stored = value.dup();
                    st.set(&a.identifier, stored);
                    Option::Some(value)
                }
            }
        }
        Statement::Define(d) => {
            st.define(&d.identifier, Value::Nil);
            Option::Some(Value::Nil)
        }
        Statement::DefineAndSet(d) => {
            match eval_expr(&d.expression, st, log, f) {
                Option::None => Option::None,
                Option::Some(v) => {
                    let stored = v.dup();
                    st.define(&d.identifier, stored);
                    Option::Some(v)
                }
            }
        }
        Statement::While(w) => {
            st.push_scope();
            match eval_while(&w.expression, &w.statement, Value::Nil, st, log, f) {
                Option::None => Option::None,
                Option::Some(v) => {
                    st.pop_scope();
                    Option::Some(v)
                }
            }
        }
        Statement::For(fo) => {
            st.push_scope();
            match eval_stmt(&fo.initializer, st, log, f) {
                Option::None => Option::None,
                Option::Some(_) => {
                    match eval_for(&fo.condition, &fo.increment, &fo.statement, st, log, f) {
                        Option::None => Option::None,
                        Option::Some(_) => {
                            st.pop_scope();
                            Option::Some(Value::Nil)
                        }
                    }
                }
            }
        }
    }
}

/// Evaluate the statements of a block from position `k` on.
pub(crate) fn eval_stmts(ss: &Vec<Statement>, k: usize, st: &mut Storage, log: &mut Vec<u8>, fuel: u64)
    -> (r: Option<Value>)
    requires
        old(st)@.len() >= 1,
        k <= ss@.len(),
    ensures
        ({
            let o = sem_stmts(
                stmts_view(ss@).subrange(k as int, ss@.len() as int),
                old(st)@,
                old(log)@,
                fuel as nat,
            );
            &&& final(st)@ == o.store
            &&& final(log)@ == o.log
            &&& opt_view(r) == o.result
            &&& final(st)@.len() >= old(st)@.len()
            &&& (o.result is Some ==> final(st)@.len() == old(st)@.len())
        }),
    decreases fuel,
{
    broadcast use group_seq_views;

    let ghost sv = stmts_view(ss@).subrange(k as int, ss@.len() as int);
    if fuel == 0 {
        return Option::None;
    }
    if k >= ss.len() {
        proof {
            assert(sv.len() == 0);
        }
        return Option::Some(Value::Nil);
    }
    let f = fuel - 1;
    proof {
        assert(sv[0] == ss@[k as int]@);
    }
    match eval_stmt(&ss[k], st, log, f) {
        Option::None => Option::None,
        Option::Some(v) => {
            let und = underscore_vec();
            st.define(&und, v);
            let r = eval_stmts(ss, k + 1, st, log, f);
            proof {
                assert(stmts_view(ss@).subrange(k + 1, ss@.len() as int) =~= sv.subrange(
                    1,
                    sv.len() as int,
                ));
            }
            r
        }
    }
}

/// Evaluate a block given as its parts.
pub(crate) fn eval_block_parts(
    statements: &Vec<Statement>,
    functions: &Vec<Function>,
    st: &mut Storage,
    log: &mut Vec<u8>,
    fuel: u64,
) -> (r: Option<Value>)
    requires
        old(st)@.len() >= 1,
    ensures
        ({
            let o = sem_block(
                BlockV { stmts: stmts_view(statements@), funcs: funcs_view(functions@) },
                old(st)@,
                old(log)@,
                fuel as nat,
            );
            &&& final(st)@ == o.store
            &&& final(log)@ == o.log
            &&& opt_view(r) == o.result
            &&& final(st)@.len() >= old(st)@.len()
            &&& (o.result is Some ==> final(st)@.len() == old(st)@.len())
        }),
    decreases fuel,
{
    broadcast use group_seq_views;

    if fuel == 0 {
        return Option::None;
    }
    let f = fuel - 1;
    st.push_scope();
    let und = underscore_vec();
    st.define(&und, Value::Nil);
    bind_funcs_exec(functions, 0, st);
    proof {
        assert(funcs_view(functions@).subrange(0, functions@.len() as int) =~= funcs_view(
            functions@,
        ));
        assert(stmts_view(statements@).subrange(0, statements@.len() as int) =~= stmts_view(
            statements@,
        ));
    }
    match eval_stmts(statements, 0, st, log, f) {
        Option::None => Option::None,
        Option::Some(_) => {
            let v = st.get(&und);
            st.pop_scope();
            Option::Some(v)
        }
    }
}

/// Evaluate conditional branches from position `k` on, inside the pushed
/// scope.
pub(crate) fn eval_conds(
    conds: &Vec<(Expression, Statement)>,
    k: usize,
    otherwise: &Option<Box<Statement>>,
    st: &mut Storage,
    log: &mut Vec<u8>,
    fuel: u64,
) -> (r: Option<Value>)
    requires
        old(st)@.len() >= 1,
        k <= conds@.len(),
    ensures
        ({
            let o = sem_conds(
                conds_view(conds@).subrange(k as int, conds@.len() as int),
                opt_stmt_view(*otherwise),
                old(st)@,
                old(log)@,
                fuel as nat,
            );
            &&& final(st)@ == o.store
            &&& final(log)@ == o.log
            &&& opt_view(r) == o.result
            &&& final(st)@.len() >= old(st)@.len()
            &&& (o.result is Some ==> final(st)@.len() == old(st)@.len())
        }),
    decreases fuel,
{
    broadcast use group_seq_views;

    let ghost cv = conds_view(conds@).subrange(k as int, conds@.len() as int);
    if fuel == 0 {
        return Option::None;
    }
    let f = fuel - 1;
    if k >= conds.len() {
        proof {
            assert(cv.len() == 0);
        }
        match otherwise {
            Option::Some(b) => eval_stmt(b, st, log, f),
            Option::None => Option::Some(Value::Nil),
        }
    } else {
        proof {
            assert(cv[0] == (conds@[k as int].0@, conds@[k as int].1@));
        }
        match eval_expr(&conds[k].0, st, log, f) {
            Option::None => Option::None,
            Option::Some(c) => {
                if ops::as_bool(c) {
                    eval_stmt(&conds[k].1, st, log, f)
                } else {
                    let r = eval_conds(conds, k + 1, otherwise, st, log, f);
                    proof {
                        assert(conds_view(conds@).subrange(k + 1, conds@.len() as int)
                            =~= cv.subrange(1, cv.len() as int));
                    }
                    r
                }
            }
        }
    }
}

/// Evaluate a while loop inside the pushed scope.
pub(crate) fn eval_while(
    cond: &Expression,
    body: &Statement,
    prev: Value,
    st: &mut Storage,
    log: &mut Vec<u8>,
    fuel: u64,
) -> (r: Option<Value>)
    requires
        old(st)@.len() >= 1,
    ensures
        ({
            let o = sem_while(cond@, body@, prev@, old(st)@, old(log)@, fuel as nat);
            &&& final(st)@ == o.store
            &&& final(log)@ == o.log
            &&& opt_view(r) == o.result
            &&& final(st)@.len() >= old(st)@.len()
            &&& (o.result is Some ==> final(st)@.len() == old(st)@.len())
        }),
    decreases fuel,
{
    if fuel == 0 {
        return Option::None;
    }
    let f = fuel - 1;
    match eval_expr(cond, st, log, f) {
        Option::None => Option::None,
        Option::Some(c) => {
            if !ops::as_bool(c) {
                Option::Some(prev)
            } else {
                match eval_stmt(body, st, log, f) {
                    Option::None => Option::None,
                    Option::Some(v) => eval_while(cond, body, v, st, log, f),
                }
            }
        }
    }
}

/// Evaluate a for loop inside the pushed scope, after its initializer.
pub(crate) fn eval_for(
    cond: &Expression,
    step: &Statement,
    body: &Statement,
    st: &mut Storage,
    log: &mut Vec<u8>,
    fuel: u64,
) -> (r: Option<Value>)
    requires
        old(st)@.len() >= 1,
    ensures
        ({
            let o = sem_for(cond@, step@, body@, old(st)@, old(log)@, fuel as nat);
            &&& final(st)@ == o.store
            &&& final(log)@ == o.log
            &&& opt_view(r) == o.result
            &&& final(st)@.len() >= old(st)@.len()
            &&& (o.result is Some ==> final(st)@.len() == old(st)@.len())
        }),
    decreases fuel,
{
    if fuel == 0 {
        return Option::None;
    }
    let f = fuel - 1;
    match eval_expr(cond, st, log, f) {
        Option::None => Option::None,
        Option::Some(c) => {
            if !ops::as_bool(c) {
                Option::Some(Value::Nil)
            } else {
                match eval_stmt(body, st, log, f) {
                    Option::None => Option::None,
                    Option::Some(_) => {
                        match eval_stmt(step, st, log, f) {
                            Option::None => Option::None,
                            Option::Some(_) => eval_for(cond, step, body, st, log, f),
                        }
                    }
                }
            }
        }
    }
}

/// Evaluate an argument list from position `k` on.
pub(crate) fn eval_args(args: &Vec<Expression>, k: usize, st: &mut Storage, log: &mut Vec<u8>, fuel: u64)
    -> (r: Option<Vec<Value>>)
    requires
        old(st)@.len() >= 1,
        k <= args@.len(),
    ensures
        ({
            let o = sem_args(
                exprs_view(args@).subrange(k as int, args@.len() as int),
                old(st)@,
                old(log)@,
                fuel as nat,
            );
            &&& final(st)@ == o.store
            &&& final(log)@ == o.log
            &&& (match r {
                Option::Some(vs) => o.results == Option::Some(vals_view(vs@)),
                Option::None => o.results is None,
            })
            &&& final(st)@.len() >= old(st)@.len()
            &&& (o.results is Some ==> final(st)@.len() == old(st)@.len())
        }),
    decreases fuel,
{
    broadcast use group_seq_views;

    let ghost av = exprs_view(args@).subrange(k as int, args@.len() as int);
    if fuel == 0 {
        return Option::None;
    }
    if k >= args.len() {
        let out: Vec<Value> = Vec::new();
        proof {
            assert(av.len() == 0);
            assert(vals_view(out@) =~= Seq::<Val>::empty());
        }
        return Option::Some(out);
    }
    let f = fuel - 1;
    proof {
        assert(av[0] == args@[k as int]@);
    }
    match eval_expr(&args[k], st, log, f) {
        Option::None => Option::None,
        Option::Some(v) => {
            let r = eval_args(args, k + 1, st, log, f);
            proof {
                assert(exprs_view(args@).subrange(k + 1, args@.len() as int) =~= av.subrange(
                    1,
                    av.len() as int,
                ));
            }
            match r {
                Option::None => Option::None,
                Option::Some(mut vs) => {
                    let ghost vs0 = vs@;
                    vs.insert(0, v);
                    proof {
                        assert(vs@.subrange(1, vs@.len() as int) =~= vs0);
                        assert(vals_view(vs@) =~= seq![v@] + vals_view(vs0));
                    }
                    Option::Some(vs)
                }
            }
        }
    }
}

/// Evaluate a call.
pub(crate) fn eval_call(name: &Vec<u8>, args: &Vec<Expression>, st: &mut Storage, log: &mut Vec<u8>, fuel: u64)
    -> (r: Option<Value>)
    requires
        old(st)@.len() >= 1,
    ensures
        ({
            let o = sem_call(name@, exprs_view(args@), old(st)@, old(log)@, fuel as nat);
            &&& final(st)@ == o.store
            &&& final(log)@ == o.log
            &&& opt_view(r) == o.result
            &&& final(st)@.len() >= old(st)@.len()
            &&& (o.result is Some ==> final(st)@.len() == old(st)@.len())
        }),
    decreases fuel,
{
    broadcast use group_seq_views;

    if fuel == 0 {
        return Option::None;
    }
    let f = fuel - 1;
    proof {
        assert(exprs_view(args@).subrange(0, args@.len() as int) =~= exprs_view(args@));
    }
    match st.get_optional(name) {
        Option::Some(Value::Closure(c)) => {
            match eval_args(args, 0, st, log, f) {
                Option::None => Option::None,
                Option::Some(argv) => {
                    match c {
                        Closure::Normal(nc) => {
                            st.push_scope();
                            bind_params_exec(&nc.params, &argv, 0, st);
                            match eval_expr(&nc.body, st, log, f) {
                                Option::None => Option::None,
                                Option::Some(v) => {
                                    st.pop_scope();
                                    Option::Some(v)
                                }
                            }
                        }
                        Closure::Native(nc) => {
                            match nc.builtin {
                                Builtin::Print => {
                                    if argv.len() > 0 {
                                        let t = argv[0].fmt_print();
                                        crate::bytes::push_all(log, &t);
                                    }
                                    Option::Some(Value::Nil)
                                }
                            }
                        }
                    }
                }
            }
        }
        Option::Some(_) => Option::Some(Value::Nil),
        Option::None => Option::Some(Value::Nil),
    }
}

/// Evaluate match arms from position `k` on.
pub(crate) fn eval_arms(
    input: &Value,
    arms: &Vec<(Vec<Expression>, Expression)>,
    k: usize,
    fallback: Option<&Expression>,
    st: &mut Storage,
    log: &mut Vec<u8>,
    fuel: u64,
) -> (r: Option<Value>)
    requires
        old(st)@.len() >= 1,
        k <= arms@.len(),
    ensures
        ({
            let o = sem_arms(
                input@,
                arms_view(arms@).subrange(k as int, arms@.len() as int),
                opt_expr_view(fallback),
                old(st)@,
                old(log)@,
                fuel as nat,
            );
            &&& final(st)@ == o.store
            &&& final(log)@ == o.log
            &&& opt_view(r) == o.result
            &&& final(st)@.len() >= old(st)@.len()
            &&& (o.result is Some ==> final(st)@.len() == old(st)@.len())
        }),
    decreases fuel,
{
    broadcast use group_seq_views;

    let ghost av = arms_view(arms@).subrange(k as int, arms@.len() as int);
    if fuel == 0 {
        return Option::None;
    }
    let f = fuel - 1;
    if k >= arms.len() {
        proof {
            assert(av.len() == 0);
        }
        match fallback {
            Option::Some(fe) => eval_expr(fe, st, log, f),
            Option::None => Option::Some(Value::Nil),
        }
    } else {
        proof {
            assert(av[0] == (exprs_view(arms@[k as int].0@), arms@[k as int].1@));
        }
        let r = eval_cases(input, &arms[k].0, 0, &arms[k].1, arms, k + 1, fallback, st, log, f);
        proof {
            assert(arms_view(arms@).subrange(k + 1, arms@.len() as int) =~= av.subrange(
                1,
                av.len() as int,
            ));
            assert(exprs_view(arms@[k as int].0@).subrange(
                0,
                arms@[k as int].0@.len() as int,
            ) =~= exprs_view(arms@[k as int].0@));
        }
        r
    }
}

/// Evaluate the cases of one match arm from position `ci` on.
pub(crate) fn eval_cases(
    input: &Value,
    cases: &Vec<Expression>,
    ci: usize,
    value: &Expression,
    arms: &Vec<(Vec<Expression>, Expression)>,
    next_k: usize,
    fallback: Option<&Expression>,
    st: &mut Storage,
    log: &mut Vec<u8>,
    fuel: u64,
) -> (r: Option<Value>)
    requires
        old(st)@.len() >= 1,
        ci <= cases@.len(),
        next_k <= arms@.len(),
    ensures
        ({
            let o = sem_cases(
                input@,
                exprs_view(cases@).subrange(ci as int, cases@.len() as int),
                value@,
                arms_view(arms@).subrange(next_k as int, arms@.len() as int),
                opt_expr_view(fallback),
                old(st)@,
                old(log)@,
                fuel as nat,
            );
            &&& final(st)@ == o.store
            &&& final(log)@ == o.log
            &&& opt_view(r) == o.result
            &&& final(st)@.len() >= old(st)@.len()
            &&& (o.result is Some ==> final(st)@.len() == old(st)@.len())
        }),
    decreases fuel,
{
    broadcast use group_seq_views;

    let ghost csv = exprs_view(cases@).subrange(ci as int, cases@.len() as int);
    if fuel == 0 {
        return Option::None;
    }
    let f = fuel - 1;
    if ci >= cases.len() {
        proof {
            assert(csv.len() == 0);
        }
        return eval_arms(input, arms, next_k, fallback, st, log, f);
    }
    proof {
        assert(csv[0] == cases@[ci as int]@);
    }
    let is_wild = match &cases[ci] {
        Expression::Identifier(n) => {
            let und = underscore_vec();
            crate::bytes::bytes_eq(n, &und)
        }
        _ => false,
    };
    proof {
        if is_wild {
            assert(csv[0] == ExprV::Ident(underscore()));
        } else {
            assert(csv[0] != ExprV::Ident(underscore()));
        }
    }
    if is_wild {
        let r = eval_cases(
            input,
            cases,
            ci + 1,
            value,
            arms,
            next_k,
            Option::Some(value),
            st,
            log,
            f,
        );
        proof {
            assert(exprs_view(cases@).subrange(ci + 1, cases@.len() as int) =~= csv.subrange(
                1,
                csv.len() as int,
            ));
        }
        r
    } else {
        match eval_expr(&cases[ci], st, log, f) {
            Option::None => Option::None,
            Option::Some(c) => {
                let test = ops::eq(input.dup(), c);
                if ops::as_bool(test) {
                    eval_expr(value, st, log, f)
                } else {
                    let r = eval_cases(
                        input,
                        cases,
                        ci + 1,
                        value,
                        arms,
                        next_k,
                        fallback,
                        st,
                        log,
                        f,
                    );
                    proof {
                        assert(exprs_view(cases@).subrange(ci + 1, cases@.len() as int)
                            =~= csv.subrange(1, csv.len() as int));
                    }
                    r
                }
            }
        }
    }
}

/// Evaluate a table literal's entries from position `k` on.
pub(crate) fn eval_table(
    entries: &Vec<(Vec<u8>, Expression)>,
    k: usize,
    acc: Vec<(Vec<u8>, Value)>,
    st: &mut Storage,
    log: &mut Vec<u8>,
    fuel: u64,
) -> (r: Option<Value>)
    requires
        old(st)@.len() >= 1,
        k <= entries@.len(),
    ensures
        ({
            let o = sem_table(
                expr_entries_view(entries@).subrange(k as int, entries@.len() as int),
                val_entries_view(acc@),
                old(st)@,
                old(log)@,
                fuel as nat,
            );
            &&& final(st)@ == o.store
            &&& final(log)@ == o.log
            &&& opt_view(r) == o.result
            &&& final(st)@.len() >= old(st)@.len()
            &&& (o.result is Some ==> final(st)@.len() == old(st)@.len())
        }),
    decreases fuel,
{
    broadcast use group_seq_views;

    let ghost ev = expr_entries_view(entries@).subrange(k as int, entries@.len() as int);
    if fuel == 0 {
        return Option::None;
    }
    if k >= entries.len() {
        proof {
            assert(ev.len() == 0);
        }
        return Option::Some(Value::Table(crate::ast::ValuesTable { entries: acc }));
    }
    let f = fuel - 1;
    proof {
        assert(ev[0] == (entries@[k as int].0@, entries@[k as int].1@));
    }
    match eval_expr(&entries[k].1, st, log, f) {
        Option::None => Option::None,
        Option::Some(v) => {
            let mut acc2 = acc;
            crate::ops::tbl_put_exec(&mut acc2, &entries[k].0, v);
            let r = eval_table(entries, k + 1, acc2, st, log, f);
            proof {
                assert(expr_entries_view(entries@).subrange(k + 1, entries@.len() as int)
                    =~= ev.subrange(1, ev.len() as int));
            }
            r
        }
    }
}

} // verus!
