//! Laws of the language, proved of the mathematical interpreter.

use vstd::prelude::*;
use crate::ast::{Val, ClosV, ExprV, StmtV, BlockV, FuncV, ProgramV, PostOpV};
use crate::storage::{StoreV, ScopeV, scope_get, store_get, store_get_opt, store_define, store_set};
use crate::ops::{index_val, to_index};
use crate::eval::{sem_expr, sem_stmt, sem_stmts, sem_block, sem_conds, sem_while, sem_for,
    sem_args, sem_call, sem_arms, sem_cases, sem_table, sem_run, bind_funcs, bind_params_from,
    underscore};

verus! {

/// The scope stack an evaluation step leaves: never shallower than it
/// began, and exactly as deep when the step completed.
pub open spec fn scopes_preserved(n: int, store: StoreV, completed: bool) -> bool {
    &&& store.len() >= n
    &&& (completed ==> store.len() == n)
}

proof fn lemma_store_set_len(st: StoreV, name: Seq<u8>, v: Val)
    ensures
        store_set(st, name, v).len() == st.len(),
    decreases st.len(),
{
    if st.len() > 1 && !(scope_get(st[st.len() - 1], name) is Some) {
        lemma_store_set_len(st.subrange(0, st.len() - 1), name, v);
    }
}

proof fn lemma_bind_funcs_len(funcs: Seq<FuncV>, st: StoreV)
    requires
        st.len() >= 1,
    ensures
        bind_funcs(funcs, st).len() == st.len(),
    decreases funcs.len(),
{
    if funcs.len() > 0 {
        lemma_bind_funcs_len(
            funcs.subrange(1, funcs.len() as int),
            store_define(
                st,
                funcs[0].name,
                Val::Clos(ClosV::Script { params: funcs[0].params, body: Box::new(funcs[0].body) }),
            ),
        );
    }
}

proof fn lemma_bind_params_len(params: Seq<Seq<u8>>, argv: Seq<Val>, k: int, st: StoreV)
    requires
        st.len() >= 1,
    ensures
        bind_params_from(params, argv, k, st).len() == st.len(),
    decreases params.len() - k,
{
    if 0 <= k < params.len() {
        lemma_bind_params_len(
            params,
            argv,
            k + 1,
            store_define(
                st,
                params[k],
                if k < argv.len() {
                    argv[k]
                } else {
                    Val::Nil
                },
            ),
        );
    }
}

proof fn lemma_expr_scopes(e: ExprV, st: StoreV, log: Seq<u8>, fuel: nat)
    requires
        st.len() >= 1,
    ensures
        ({
            let o = sem_expr(e, st, log, fuel);
            scopes_preserved(st.len() as int, o.store, o.result is Some)
        }),
    decreases fuel, 2int,
{
    if fuel == 0 {
        return;
    }
    let f = (fuel - 1) as nat;
    match e {
        ExprV::Value(_) => {}
        ExprV::Ident(_) => {}
        ExprV::Infix { lhs, op, rhs } => {
            let o1 = sem_expr(*lhs, st, log, f);
            lemma_expr_scopes(*lhs, st, log, f);
            if o1.result is Some {
                lemma_expr_scopes(*rhs, o1.store, o1.log, f);
            }
        }
        ExprV::Prefix { op, expr } => {
            lemma_expr_scopes(*expr, st, log, f);
        }
        ExprV::Postfix { expr, op } => {
            let o = sem_expr(*expr, st, log, f);
            lemma_expr_scopes(*expr, st, log, f);
            if o.result is Some {
                match op {
                    PostOpV::Index(ie) => {
                        lemma_expr_scopes(*ie, o.store, o.log, f);
                    }
                    _ => {}
                }
            }
        }
        ExprV::Block(b) => {
            lemma_block_scopes(b, st, log, f);
        }
        ExprV::Match { input, arms } => {
            let o = sem_expr(*input, st, log, f);
            lemma_expr_scopes(*input, st, log, f);
            if o.result is Some {
                lemma_arms_scopes(o.result->Some_0, arms, Option::None, o.store, o.log, f);
            }
        }
        ExprV::Call { name, args } => {
            lemma_call_scopes(name, args, st, log, f);
        }
        ExprV::Array(elems) => {
            lemma_args_scopes(elems, st, log, f);
        }
        ExprV::Table(entries) => {
            lemma_table_scopes(entries, Seq::empty(), st, log, f);
        }
        ExprV::If(ifv) => {
            let o = sem_conds(ifv.conds, ifv.otherwise, st.push(Seq::empty()), log, f);
            lemma_conds_scopes(ifv.conds, ifv.otherwise, st.push(Seq::empty()), log, f);
        }
    }
}

proof fn lemma_stmt_scopes(s: StmtV, st: StoreV, log: Seq<u8>, fuel: nat)
    requires
        st.len() >= 1,
    ensures
        ({
            let o = sem_stmt(s, st, log, fuel);
            scopes_preserved(st.len() as int, o.store, o.result is Some)
        }),
    decreases fuel, 2int,
{
    if fuel == 0 {
        return;
    }
    let f = (fuel - 1) as nat;
    match s {
        StmtV::Expr(e) => {
            lemma_expr_scopes(e, st, log, f);
        }
        StmtV::Assign { name, op, expr } => {
            let o = sem_expr(expr, st, log, f);
            lemma_expr_scopes(expr, st, log, f);
            if o.result is Some {
                let new = o.result->Some_0;
                let value = match op {
                    crate::ast::SetOp::Assign => new,
                    crate::ast::SetOp::Increment => crate::ops::add_val(
                        store_get(o.store, name),
                        new,
                    ),
                    crate::ast::SetOp::Decrement => crate::ops::sub_val(
                        store_get(o.store, name),
                        new,
                    ),
                };
                lemma_store_set_len(o.store, name, value);
            }
        }
        StmtV::Define { name } => {}
        StmtV::DefineAndSet { name, expr } => {
            lemma_expr_scopes(expr, st, log, f);
        }
        StmtV::While { cond, body } => {
            lemma_while_scopes(cond, *body, Val::Nil, st.push(Seq::empty()), log, f);
        }
        StmtV::For { init, cond, step, body } => {
            let o0 = sem_stmt(*init, st.push(Seq::empty()), log, f);
            lemma_stmt_scopes(*init, st.push(Seq::empty()), log, f);
            if o0.result is Some {
                lemma_for_scopes(cond, *step, *body, o0.store, o0.log, f);
            }
        }
    }
}

proof fn lemma_stmts_scopes(ss: Seq<StmtV>, st: StoreV, log: Seq<u8>, fuel: nat)
    requires
        st.len() >= 1,
    ensures
        ({
            let o = sem_stmts(ss, st, log, fuel);
            scopes_preserved(st.len() as int, o.store, o.result is Some)
        }),
    decreases fuel, 2int,
{
    if fuel == 0 || ss.len() == 0 {
        return;
    }
    let f = (fuel - 1) as nat;
    let o = sem_stmt(ss[0], st, log, f);
    lemma_stmt_scopes(ss[0], st, log, f);
    if o.result is Some {
        lemma_stmts_scopes(
            ss.subrange(1, ss.len() as int),
            store_define(o.store, underscore(), o.result->Some_0),
            o.log,
            f,
        );
    }
}

proof fn lemma_block_scopes(b: BlockV, st: StoreV, log: Seq<u8>, fuel: nat)
    requires
        st.len() >= 1,
    ensures
        ({
            let o = sem_block(b, st, log, fuel);
            scopes_preserved(st.len() as int, o.store, o.result is Some)
        }),
    decreases fuel, 2int,
{
    if fuel == 0 {
        return;
    }
    let f = (fuel - 1) as nat;
    let st1 = store_define(st.push(Seq::empty()), underscore(), Val::Nil);
    let st2 = bind_funcs(b.funcs, st1);
    lemma_bind_funcs_len(b.funcs, st1);
    lemma_stmts_scopes(b.stmts, st2, log, f);
}

proof fn lemma_conds_scopes(
    conds: Seq<(ExprV, StmtV)>,
    otherwise: Option<Box<StmtV>>,
    st: StoreV,
    log: Seq<u8>,
    fuel: nat,
)
    requires
        st.len() >= 1,
    ensures
        ({
            let o = sem_conds(conds, otherwise, st, log, fuel);
            scopes_preserved(st.len() as int, o.store, o.result is Some)
        }),
    decreases fuel, 2int,
{
    if fuel == 0 {
        return;
    }
    let f = (fuel - 1) as nat;
    if conds.len() == 0 {
        match otherwise {
            Option::Some(s) => {
                lemma_stmt_scopes(*s, st, log, f);
            }
            Option::None => {}
        }
    } else {
        let oc = sem_expr(conds[0].0, st, log, f);
        lemma_expr_scopes(conds[0].0, st, log, f);
        if oc.result is Some {
            if crate::ops::as_bool_val(oc.result->Some_0) {
                lemma_stmt_scopes(conds[0].1, oc.store, oc.log, f);
            } else {
                lemma_conds_scopes(
                    conds.subrange(1, conds.len() as int),
                    otherwise,
                    oc.store,
                    oc.log,
                    f,
                );
            }
        }
    }
}

proof fn lemma_while_scopes(cond: ExprV, body: StmtV, prev: Val, st: StoreV, log: Seq<u8>, fuel: nat)
    requires
        st.len() >= 1,
    ensures
        ({
            let o = sem_while(cond, body, prev, st, log, fuel);
            scopes_preserved(st.len() as int, o.store, o.result is Some)
        }),
    decreases fuel, 2int,
{
    if fuel == 0 {
        return;
    }
    let f = (fuel - 1) as nat;
    let oc = sem_expr(cond, st, log, f);
    lemma_expr_scopes(cond, st, log, f);
    if oc.result is Some && crate::ops::as_bool_val(oc.result->Some_0) {
        let ob = sem_stmt(body, oc.store, oc.log, f);
        lemma_stmt_scopes(body, oc.store, oc.log, f);
        if ob.result is Some {
            lemma_while_scopes(cond, body, ob.result->Some_0, ob.store, ob.log, f);
        }
    }
}

proof fn lemma_for_scopes(cond: ExprV, step: StmtV, body: StmtV, st: StoreV, log: Seq<u8>, fuel: nat)
    requires
        st.len() >= 1,
    ensures
        ({
            let o = sem_for(cond, step, body, st, log, fuel);
            scopes_preserved(st.len() as int, o.store, o.result is Some)
        }),
    decreases fuel, 2int,
{
    if fuel == 0 {
        return;
    }
    let f = (fuel - 1) as nat;
    let oc = sem_expr(cond, st, log, f);
    lemma_expr_scopes(cond, st, log, f);
    if oc.result is Some && crate::ops::as_bool_val(oc.result->Some_0) {
        let ob = sem_stmt(body, oc.store, oc.log, f);
        lemma_stmt_scopes(body, oc.store, oc.log, f);
        if ob.result is Some {
            let os = sem_stmt(step, ob.store, ob.log, f);
            lemma_stmt_scopes(step, ob.store, ob.log, f);
            if os.result is Some {
                lemma_for_scopes(cond, step, body, os.store, os.log, f);
            }
        }
    }
}

proof fn lemma_args_scopes(args: Seq<ExprV>, st: StoreV, log: Seq<u8>, fuel: nat)
    requires
        st.len() >= 1,
    ensures
        ({
            let o = sem_args(args, st, log, fuel);
            scopes_preserved(st.len() as int, o.store, o.results is Some)
        }),
    decreases fuel, 2int,
{
    if fuel == 0 || args.len() == 0 {
        return;
    }
    let f = (fuel - 1) as nat;
    let o = sem_expr(args[0], st, log, f);
    lemma_expr_scopes(args[0], st, log, f);
    if o.result is Some {
        lemma_args_scopes(args.subrange(1, args.len() as int), o.store, o.log, f);
    }
}

proof fn lemma_call_scopes(name: Seq<u8>, args: Seq<ExprV>, st: StoreV, log: Seq<u8>, fuel: nat)
    requires
        st.len() >= 1,
    ensures
        ({
            let o = sem_call(name, args, st, log, fuel);
            scopes_preserved(st.len() as int, o.store, o.result is Some)
        }),
    decreases fuel, 2int,
{
    if fuel == 0 {
        return;
    }
    let f = (fuel - 1) as nat;
    match store_get_opt(st, name) {
        Option::Some(Val::Clos(c)) => {
            let oa = sem_args(args, st, log, f);
            lemma_args_scopes(args, st, log, f);
            if oa.results is Some {
                match c {
                    ClosV::Script { params, body } => {
                        let st1 = bind_params_from(
                            params,
                            oa.results->Some_0,
                            0,
                            oa.store.push(Seq::empty()),
                        );
                        lemma_bind_params_len(
                            params,
                            oa.results->Some_0,
                            0,
                            oa.store.push(Seq::empty()),
                        );
                        lemma_expr_scopes(*body, st1, oa.log, f);
                    }
                    ClosV::Native(_) => {}
                }
            }
        }
        _ => {}
    }
}

proof fn lemma_arms_scopes(
    input: Val,
    arms: Seq<(Seq<ExprV>, ExprV)>,
    fallback: Option<ExprV>,
    st: StoreV,
    log: Seq<u8>,
    fuel: nat,
)
    requires
        st.len() >= 1,
    ensures
        ({
            let o = sem_arms(input, arms, fallback, st, log, fuel);
            scopes_preserved(st.len() as int, o.store, o.result is Some)
        }),
    decreases fuel, 2int,
{
    if fuel == 0 {
        return;
    }
    let f = (fuel - 1) as nat;
    if arms.len() == 0 {
        match fallback {
            Option::Some(fe) => {
                lemma_expr_scopes(fe, st, log, f);
            }
            Option::None => {}
        }
    } else {
        lemma_cases_scopes(
            input,
            arms[0].0,
            arms[0].1,
            arms.subrange(1, arms.len() as int),
            fallback,
            st,
            log,
            f,
        );
    }
}

proof fn lemma_cases_scopes(
    input: Val,
    cases: Seq<ExprV>,
    value: ExprV,
    rest: Seq<(Seq<ExprV>, ExprV)>,
    fallback: Option<ExprV>,
    st: StoreV,
    log: Seq<u8>,
    fuel: nat,
)
    requires
        st.len() >= 1,
    ensures
        ({
            let o = sem_cases(input, cases, value, rest, fallback, st, log, fuel);
            scopes_preserved(st.len() as int, o.store, o.result is Some)
        }),
    decreases fuel, 2int,
{
    if fuel == 0 {
        return;
    }
    let f = (fuel - 1) as nat;
    if cases.len() == 0 {
        lemma_arms_scopes(input, rest, fallback, st, log, f);
    } else if cases[0] == ExprV::Ident(underscore()) {
        lemma_cases_scopes(
            input,
            cases.subrange(1, cases.len() as int),
            value,
            rest,
            Option::Some(value),
            st,
            log,
            f,
        );
    } else {
        let oc = sem_expr(cases[0], st, log, f);
        lemma_expr_scopes(cases[0], st, log, f);
        if oc.result is Some {
            if crate::ops::as_bool_val(crate::ops::eq_val(input, oc.result->Some_0)) {
                lemma_expr_scopes(value, oc.store, oc.log, f);
            } else {
                lemma_cases_scopes(
                    input,
                    cases.subrange(1, cases.len() as int),
                    value,
                    rest,
                    fallback,
                    oc.store,
                    oc.log,
                    f,
                );
            }
        }
    }
}

proof fn lemma_table_scopes(
    entries: Seq<(Seq<u8>, ExprV)>,
    acc: Seq<(Seq<u8>, Val)>,
    st: StoreV,
    log: Seq<u8>,
    fuel: nat,
)
    requires
        st.len() >= 1,
    ensures
        ({
            let o = sem_table(entries, acc, st, log, fuel);
            scopes_preserved(st.len() as int, o.store, o.result is Some)
        }),
    decreases fuel, 2int,
{
    if fuel == 0 || entries.len() == 0 {
        return;
    }
    let f = (fuel - 1) as nat;
    let o = sem_expr(entries[0].1, st, log, f);
    lemma_expr_scopes(entries[0].1, st, log, f);
    if o.result is Some {
        lemma_table_scopes(
            entries.subrange(1, entries.len() as int),
            crate::ops::tbl_put(acc, entries[0].0, o.result->Some_0),
            o.store,
            o.log,
            f,
        );
    }
}

/// Scope balance: a run that completes leaves the scope stack exactly as
/// deep as it found it.
pub proof fn lemma_scope_balance(p: ProgramV, st: StoreV, log: Seq<u8>, fuel: nat)
    requires
        st.len() >= 1,
    ensures
        sem_run(p, st, log, fuel).result is Some ==> sem_run(p, st, log, fuel).store.len()
            == st.len(),
        sem_run(p, st, log, fuel).store.len() >= st.len(),
{
    lemma_block_scopes(BlockV { stmts: p.stmts, funcs: p.funcs }, st, log, fuel);
}

/// Value-semantic copies: a function parameter is bound to a copy of the
/// argument in the callee's scope; rebinding any other name afterwards
/// leaves that binding unchanged.
pub proof fn lemma_value_copy(st: StoreV, param: Seq<u8>, other: Seq<u8>, v: Val, w: Val)
    requires
        st.len() >= 1,
        param != other,
    ensures
        store_get(store_set(store_define(st, param, v), other, w), param) == v,
{
    let n = st.len() as int;
    let st1 = store_define(st, param, v);
    assert(st1.len() == n);
    assert(st1[n - 1] == st[n - 1].push((param, v)));
    assert(scope_get(st1[n - 1], param) == Option::Some(v));
    let st2 = store_set(st1, other, w);
    if scope_get(st1[n - 1], other) is Some {
        assert(st2 == st1.update(n - 1, st1[n - 1].push((other, w))));
        let top = st1[n - 1].push((other, w));
        assert(top.subrange(0, top.len() - 1) =~= st1[n - 1]);
        assert(scope_get(top, param) == Option::Some(v));
        assert(store_get_opt(st2, param) == Option::Some(v));
    } else if n == 1 {
        assert(st2 == st1.update(0, st1[0].push((other, w))));
        let top = st1[0].push((other, w));
        assert(top.subrange(0, top.len() - 1) =~= st1[0]);
        assert(scope_get(top, param) == Option::Some(v));
        assert(store_get_opt(st2, param) == Option::Some(v));
    } else {
        assert(st2 == store_set(st1.subrange(0, n - 1), other, w).push(st1[n - 1]));
        assert(st2[st2.len() - 1] == st1[n - 1]);
        assert(store_get_opt(st2, param) == Option::Some(v));
    }
}

proof fn lemma_scope_get_skip(s: ScopeV, p: (Seq<u8>, Val), name: Seq<u8>)
    requires
        p.0 != name,
    ensures
        scope_get(s.push(p), name) == scope_get(s, name),
{
    assert(s.push(p).subrange(0, s.push(p).len() - 1) =~= s);
}

proof fn lemma_bind_funcs_skip(funcs: Seq<FuncV>, st: StoreV, name: Seq<u8>)
    requires
        st.len() >= 1,
        forall|j: int| 0 <= j < funcs.len() ==> funcs[j].name != name,
    ensures
        store_get_opt(bind_funcs(funcs, st), name) == store_get_opt(st, name),
        store_get(bind_funcs(funcs, st), name) == store_get(st, name),
    decreases funcs.len(),
{
    if funcs.len() > 0 {
        let clos = Val::Clos(
            ClosV::Script { params: funcs[0].params, body: Box::new(funcs[0].body) },
        );
        let st1 = store_define(st, funcs[0].name, clos);
        let n = st.len() as int;
        assert(st1.len() == n);
        lemma_bind_funcs_skip(funcs.subrange(1, funcs.len() as int), st1, name);
        lemma_scope_get_skip(st[n - 1], (funcs[0].name, clos), name);
        assert(st1[n - 1] == st[n - 1].push((funcs[0].name, clos)));
        assert(st1.subrange(0, n - 1) =~= st.subrange(0, n - 1));
        assert(store_get_opt(st1, name) == store_get_opt(st, name));
    }
}

/// Hoisting: before a block's first statement is evaluated, every hoisted
/// function of the block is already bound, so a call in the first statement
/// resolves to a definition appearing later in the block's text.
pub proof fn lemma_hoisting(funcs: Seq<FuncV>, st: StoreV, i: int)
    requires
        st.len() >= 1,
        0 <= i < funcs.len(),
        forall|j: int| i < j < funcs.len() ==> funcs[j].name != funcs[i].name,
    ensures
        store_get(bind_funcs(funcs, st), funcs[i].name) == Val::Clos(
            ClosV::Script { params: funcs[i].params, body: Box::new(funcs[i].body) },
        ),
    decreases funcs.len(),
{
    let clos0 = Val::Clos(
        ClosV::Script { params: funcs[0].params, body: Box::new(funcs[0].body) },
    );
    let st1 = store_define(st, funcs[0].name, clos0);
    let n = st.len() as int;
    assert(st1.len() == n);
    let tail = funcs.subrange(1, funcs.len() as int);
    if i == 0 {
        assert(forall|j: int| 0 <= j < tail.len() ==> tail[j] == funcs[j + 1]);
        lemma_bind_funcs_skip(tail, st1, funcs[0].name);
        assert(st1[n - 1] == st[n - 1].push((funcs[0].name, clos0)));
        assert(scope_get(st1[n - 1], funcs[0].name) == Option::Some(clos0));
        assert(store_get_opt(st1, funcs[0].name) == Option::Some(clos0));
    } else {
        assert(tail[i - 1] == funcs[i]);
        assert(forall|j: int| i - 1 < j < tail.len() ==> tail[j] == funcs[j + 1]);
        lemma_hoisting(tail, st1, i - 1);
    }
}

proof fn lemma_stmts_last(ss: Seq<StmtV>, st: StoreV, log: Seq<u8>, fuel: nat)
    requires
        ss.len() > 0,
        st.len() >= 1,
        sem_stmts(ss, st, log, fuel).result is Some,
    ensures
        exists|stp: StoreV, logp: Seq<u8>, fp: nat|
            {
                let ol = #[trigger] sem_stmt(ss[ss.len() - 1], stp, logp, fp);
                &&& ol.result is Some
                &&& ol.store.len() >= 1
                &&& sem_stmts(ss, st, log, fuel).store == store_define(
                    ol.store,
                    underscore(),
                    ol.result->Some_0,
                )
            },
    decreases fuel,
{
    let f = (fuel - 1) as nat;
    let o = sem_stmt(ss[0], st, log, f);
    lemma_stmt_scopes(ss[0], st, log, f);
    let tail = ss.subrange(1, ss.len() as int);
    if ss.len() == 1 {
        assert(sem_stmts(tail, store_define(o.store, underscore(), o.result->Some_0), o.log, f)
            .store == store_define(o.store, underscore(), o.result->Some_0) || !(sem_stmts(
            ss,
            st,
            log,
            fuel,
        ).result is Some));
        let stp = st;
        let logp = log;
        let fp = f;
        assert(sem_stmt(ss[ss.len() - 1], stp, logp, fp) == o);
    } else {
        assert(tail[tail.len() - 1] == ss[ss.len() - 1]);
        lemma_stmts_last(
            tail,
            store_define(o.store, underscore(), o.result->Some_0),
            o.log,
            f,
        );
    }
}

/// Block as expression, empty case: an empty block - one whose hoisted
/// functions do not use the reserved name - evaluates to nil.
pub proof fn lemma_empty_block_value(b: BlockV, st: StoreV, log: Seq<u8>, fuel: nat)
    requires
        st.len() >= 1,
        fuel >= 2,
        b.stmts.len() == 0,
        forall|j: int| 0 <= j < b.funcs.len() ==> b.funcs[j].name != underscore(),
    ensures
        sem_block(b, st, log, fuel).result == Option::Some(Val::Nil),
{
    let f = (fuel - 1) as nat;
    let st0 = st.push(Seq::empty());
    let st1 = store_define(st0, underscore(), Val::Nil);
    assert(st1.len() == st.len() + 1);
    let st2 = bind_funcs(b.funcs, st1);
    lemma_bind_funcs_skip(b.funcs, st1, underscore());
    assert(st1[st1.len() - 1] == Seq::<(Seq<u8>, Val)>::empty().push((underscore(), Val::Nil)));
    assert(scope_get(st1[st1.len() - 1], underscore()) == Option::Some(Val::Nil));
    assert(store_get_opt(st1, underscore()) == Option::Some(Val::Nil));
    assert(sem_stmts(b.stmts, st2, log, f).result == Option::Some(Val::Nil));
    assert(sem_stmts(b.stmts, st2, log, f).store == st2);
}

/// Block as expression: the value of a block that completes is the value of
/// its last executed statement.
pub proof fn lemma_block_value(b: BlockV, st: StoreV, log: Seq<u8>, fuel: nat)
    requires
        st.len() >= 1,
        b.stmts.len() > 0,
        sem_block(b, st, log, fuel).result is Some,
    ensures
        exists|stp: StoreV, logp: Seq<u8>, fp: nat|
            {
                let ol = #[trigger] sem_stmt(b.stmts[b.stmts.len() - 1], stp, logp, fp);
                &&& ol.result is Some
                &&& sem_block(b, st, log, fuel).result == ol.result
            },
{
    let f = (fuel - 1) as nat;
    let st1 = store_define(st.push(Seq::empty()), underscore(), Val::Nil);
    let st2 = bind_funcs(b.funcs, st1);
    lemma_bind_funcs_len(b.funcs, st1);
    assert(st2.len() >= 1);
    lemma_stmts_last(b.stmts, st2, log, f);
    let (stp, logp, fp) = choose|stp: StoreV, logp: Seq<u8>, fp: nat|
        {
            let ol = #[trigger] sem_stmt(b.stmts[b.stmts.len() - 1], stp, logp, fp);
            &&& ol.result is Some
            &&& ol.store.len() >= 1
            &&& sem_stmts(b.stmts, st2, log, f).store == store_define(
                ol.store,
                underscore(),
                ol.result->Some_0,
            )
        };
    let ol = sem_stmt(b.stmts[b.stmts.len() - 1], stp, logp, fp);
    let fin = store_define(ol.store, underscore(), ol.result->Some_0);
    let m = ol.store.len() as int;
    assert(fin[m - 1] == ol.store[m - 1].push((underscore(), ol.result->Some_0)));
    assert(scope_get(fin[m - 1], underscore()) == Option::Some(ol.result->Some_0));
    assert(store_get_opt(fin, underscore()) == Option::Some(ol.result->Some_0));
    assert(sem_block(b, st, log, fuel).result == Option::Some(store_get(fin, underscore())));
}

/// Parse determinism: one token of content - the executable parser's
/// contract pins its whole result to `sp_parse`, a function of the input
/// bytes alone, so two parses of equal inputs yield structurally equal
/// programs.
pub proof fn lemma_parse_deterministic(a: Seq<u8>, b: Seq<u8>)
    requires
        a == b,
    ensures
        crate::parser::sp_parse(a) == crate::parser::sp_parse(b),
{
}

/// Range indexing round trip: indexing an array of length `n >= 1` with the
/// inclusive range from 0 to `n - 1` gives the array back.
pub proof fn lemma_range_round_trip(s: Seq<Val>)
    requires
        s.len() >= 1,
    ensures
        index_val(Val::Arr(s), Val::InRange(0, s.len() - 1)) == Val::Arr(s),
{
    assert(to_index(0, s.len() as int) == Option::Some(0int));
    assert(to_index(s.len() - 1, s.len() as int) == Option::Some(s.len() - 1));
    assert(s.subrange(0, s.len() as int) =~= s);
}

} // verus!
