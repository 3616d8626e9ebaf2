//! The scope stack: a non-empty stack of name-to-value bindings.
//!
//! A scope is modelled as an association sequence searched from the end, so a
//! later binding of a name shadows an earlier one and rebinding is a push.
//! The stack is modelled as a sequence of scopes searched from the top; its
//! first scope is the global scope and is never popped.

use vstd::prelude::*;
use crate::ast::{Val, Value, val_entries_view, lemma_val_entries_view};
use crate::bytes::{bytes_eq, dup_bytes};

verus! {

/// Model of one scope.
pub type ScopeV = Seq<(Seq<u8>, Val)>;

/// Model of the whole stack; index 0 is the global scope.
pub type StoreV = Seq<ScopeV>;

/// The model of an optional value.
pub open spec fn opt_view(r: Option<Value>) -> Option<Val> {
    match r {
        Option::Some(v) => Option::Some(v@),
        Option::None => Option::None,
    }
}

/// Look a name up in one scope: the latest binding wins.
pub open spec fn scope_get(s: ScopeV, name: Seq<u8>) -> Option<Val>
    decreases s.len(),
{
    if s.len() == 0 {
        Option::None
    } else if s[s.len() - 1].0 == name {
        Option::Some(s[s.len() - 1].1)
    } else {
        scope_get(s.subrange(0, s.len() - 1), name)
    }
}

/// Look a name up in the stack, from the top scope down; nil when absent.
pub open spec fn store_get_opt(st: StoreV, name: Seq<u8>) -> Option<Val>
    decreases st.len(),
{
    if st.len() == 0 {
        Option::None
    } else {
        match scope_get(st[st.len() - 1], name) {
            Option::Some(v) => Option::Some(v),
            Option::None => store_get_opt(st.subrange(0, st.len() - 1), name),
        }
    }
}

/// Look a name up in the stack; nil when absent.
pub open spec fn store_get(st: StoreV, name: Seq<u8>) -> Val {
    match store_get_opt(st, name) {
        Option::Some(v) => v,
        Option::None => Val::Nil,
    }
}

/// Bind a name in the top scope.
pub open spec fn store_define(st: StoreV, name: Seq<u8>, v: Val) -> StoreV {
    st.update(st.len() - 1, st[st.len() - 1].push((name, v)))
}

/// Rebind a name in the nearest enclosing scope that holds it; bind it in the
/// global scope when no scope does.
pub open spec fn store_set(st: StoreV, name: Seq<u8>, v: Val) -> StoreV
    decreases st.len(),
{
    if st.len() == 0 {
        st
    } else if scope_get(st[st.len() - 1], name) is Some {
        st.update(st.len() - 1, st[st.len() - 1].push((name, v)))
    } else if st.len() == 1 {
        st.update(0, st[0].push((name, v)))
    } else {
        store_set(st.subrange(0, st.len() - 1), name, v).push(st[st.len() - 1])
    }
}

/// One scope of bindings.
pub struct Scope {
    pub entries: Vec<(Vec<u8>, Value)>,
}

impl View for Scope {
    type V = ScopeV;

    open spec fn view(&self) -> ScopeV {
        val_entries_view(self.entries@)
    }
}

proof fn lemma_scope_get_absent(s: ScopeV, name: Seq<u8>)
    requires
        forall|j: int| 0 <= j < s.len() ==> s[j].0 != name,
    ensures
        scope_get(s, name) is None,
    decreases s.len(),
{
    if s.len() > 0 {
        lemma_scope_get_absent(s.subrange(0, s.len() - 1), name);
    }
}

proof fn lemma_scope_get_found(s: ScopeV, name: Seq<u8>, i: int)
    requires
        0 <= i < s.len(),
        s[i].0 == name,
        forall|j: int| i < j < s.len() ==> s[j].0 != name,
    ensures
        scope_get(s, name) == Option::Some(s[i].1),
    decreases s.len(),
{
    if i < s.len() - 1 {
        let pre = s.subrange(0, s.len() - 1);
        lemma_scope_get_found(pre, name, i);
        assert(pre[i] == s[i]);
    }
}

impl Scope {
    /// An empty scope.
    pub fn new() -> (s: Scope)
        ensures
            s@ == Seq::<(Seq<u8>, Val)>::empty(),
    {
        let s = Scope { entries: Vec::new() };
        proof {
            lemma_val_entries_view(s.entries@);
            assert(s@ =~= Seq::<(Seq<u8>, Val)>::empty());
        }
        s
    }

    /// The value bound to a name, if any; the copy of the latest binding.
    #[verifier::loop_isolation(false)]
    pub fn get_optional(&self, name: &Vec<u8>) -> (r: Option<Value>)
        ensures
            opt_view(r) == scope_get(self@, name@),
    {
        proof {
            lemma_val_entries_view(self.entries@);
        }
        let mut i: usize = self.entries.len();
        while i > 0
            invariant
                i <= self.entries.len(),
                forall|j: int| i <= j < self.entries@.len() ==> self@[j].0 != name@,
            decreases i,
        {
            i = i - 1;
            if bytes_eq(&self.entries[i].0, name) {
                let v = self.entries[i].1.dup();
                proof {
                    lemma_scope_get_found(self@, name@, i as int);
                }
                return Option::Some(v);
            }
        }
        proof {
            lemma_scope_get_absent(self@, name@);
        }
        Option::None
    }

    /// The value bound to a name, or nil.
    pub fn get(&self, name: &Vec<u8>) -> (r: Value)
        ensures
            r@ == match scope_get(self@, name@) {
                Option::Some(v) => v,
                Option::None => Val::Nil,
            },
    {
        match self.get_optional(name) {
            Option::Some(v) => v,
            Option::None => Value::Nil,
        }
    }

    /// Bind a name, shadowing any earlier binding of it.
    pub fn set(&mut self, name: &Vec<u8>, value: Value)
        ensures
            final(self)@ == old(self)@.push((name@, value@)),
    {
        proof {
            lemma_val_entries_view(self.entries@);
        }
        self.entries.push((dup_bytes(name), value));
        proof {
            lemma_val_entries_view(self.entries@);
            assert(self@ =~= old(self)@.push((name@, value@)));
        }
    }

    /// Whether a name is bound here.
    #[verifier::loop_isolation(false)]
    pub fn has(&self, name: &Vec<u8>) -> (r: bool)
        ensures
            r == (scope_get(self@, name@) is Some),
    {
        proof {
            lemma_val_entries_view(self.entries@);
        }
        let mut i: usize = self.entries.len();
        while i > 0
            invariant
                i <= self.entries.len(),
                forall|j: int| i <= j < self.entries@.len() ==> self@[j].0 != name@,
            decreases i,
        {
            i = i - 1;
            if bytes_eq(&self.entries[i].0, name) {
                proof {
                    lemma_scope_get_found(self@, name@, i as int);
                }
                return true;
            }
        }
        proof {
            lemma_scope_get_absent(self@, name@);
        }
        false
    }
}

/// The models of the stack of scopes.
pub open spec fn scopes_view(s: Seq<Scope>) -> Seq<ScopeV>
    decreases s,
{
    if s.len() == 0 {
        Seq::empty()
    } else {
        scopes_view(s.subrange(0, s.len() - 1)).push(s[s.len() - 1]@)
    }
}

pub broadcast proof fn lemma_scopes_view(s: Seq<Scope>)
    ensures
        (#[trigger] scopes_view(s)).len() == s.len(),
        forall|i: int| 0 <= i < s.len() ==> scopes_view(s)[i] == s[i]@,
    decreases s.len(),
{
    if s.len() == 0 {
        assert(scopes_view(s) == Seq::<ScopeV>::empty());
    } else {
        let pre = s.subrange(0, s.len() - 1);
        lemma_scopes_view(pre);
        assert(scopes_view(s) == scopes_view(pre).push(s[s.len() - 1]@));
        assert forall|i: int| 0 <= i < s.len() implies scopes_view(s)[i] == s[i]@ by {
            if i < s.len() - 1 {
                assert(pre[i] == s[i]);
                assert(scopes_view(s)[i] == scopes_view(pre)[i]);
            }
        }
    }
}

/// The stack of scopes.
pub struct Storage {
    pub scopes: Vec<Scope>,
}

impl View for Storage {
    type V = StoreV;

    open spec fn view(&self) -> StoreV {
        scopes_view(self.scopes@)
    }
}

proof fn lemma_store_get_from(st: StoreV, name: Seq<u8>, i: int)
    requires
        0 <= i < st.len(),
        scope_get(st[i], name) is Some,
        forall|j: int| i < j < st.len() ==> scope_get(st[j], name) is None,
    ensures
        store_get_opt(st, name) == scope_get(st[i], name),
    decreases st.len(),
{
    if i < st.len() - 1 {
        let pre = st.subrange(0, st.len() - 1);
        lemma_store_get_from(pre, name, i);
        assert(pre[i] == st[i]);
    }
}

proof fn lemma_store_get_absent(st: StoreV, name: Seq<u8>)
    requires
        forall|j: int| 0 <= j < st.len() ==> scope_get(st[j], name) is None,
    ensures
        store_get_opt(st, name) is None,
    decreases st.len(),
{
    if st.len() > 0 {
        lemma_store_get_absent(st.subrange(0, st.len() - 1), name);
    }
}

impl Storage {
    /// Well-formed: the global scope is always there.
    pub open spec fn wf(&self) -> bool {
        self@.len() >= 1
    }

    /// A stack holding one empty global scope.
    pub fn new() -> (st: Storage)
        ensures
            st.wf(),
            st@.len() == 1,
            st@[0] == Seq::<(Seq<u8>, Val)>::empty(),
    {
        let mut scopes: Vec<Scope> = Vec::new();
        scopes.push(Scope::new());
        let st = Storage { scopes };
        proof {
            lemma_scopes_view(st.scopes@);
        }
        st
    }

    /// Push a fresh scope.
    pub fn push_scope(&mut self)
        ensures
            final(self)@ == old(self)@.push(Seq::<(Seq<u8>, Val)>::empty()),
    {
        proof {
            lemma_scopes_view(self.scopes@);
        }
        self.scopes.push(Scope::new());
        proof {
            lemma_scopes_view(self.scopes@);
            assert(self@ =~= old(self)@.push(Seq::<(Seq<u8>, Val)>::empty()));
        }
    }

    /// Pop the top scope; the global scope must stay.
    pub fn pop_scope(&mut self)
        requires
            old(self)@.len() >= 2,
        ensures
            final(self)@ == old(self)@.subrange(0, old(self)@.len() - 1),
    {
        proof {
            lemma_scopes_view(self.scopes@);
        }
        self.scopes.pop();
        proof {
            lemma_scopes_view(self.scopes@);
            assert(self@ =~= old(self)@.subrange(0, old(self)@.len() - 1));
        }
    }

    /// Bind a name in the top scope.
    pub fn define(&mut self, name: &Vec<u8>, value: Value)
        requires
            old(self).wf(),
        ensures
            final(self)@ == store_define(old(self)@, name@, value@),
            final(self)@.len() == old(self)@.len(),
    {
        proof {
            lemma_scopes_view(self.scopes@);
        }
        let last = self.scopes.len() - 1;
        self.scopes[last].set(name, value);
        proof {
            lemma_scopes_view(self.scopes@);
            assert(self@ =~= store_define(old(self)@, name@, value@));
        }
    }

    /// Bind a name in the global scope.
    pub fn define_global(&mut self, name: &Vec<u8>, value: Value)
        requires
            old(self).wf(),
        ensures
            final(self)@ == old(self)@.update(0, old(self)@[0].push((name@, value@))),
            final(self)@.len() == old(self)@.len(),
    {
        proof {
            lemma_scopes_view(self.scopes@);
        }
        self.scopes[0].set(name, value);
        proof {
            lemma_scopes_view(self.scopes@);
            assert(self@ =~= old(self)@.update(0, old(self)@[0].push((name@, value@))));
        }
    }

    /// The value bound to a name, if any bound scope holds it.
    #[verifier::loop_isolation(false)]
    pub fn get_optional(&self, name: &Vec<u8>) -> (r: Option<Value>)
        ensures
            opt_view(r) == store_get_opt(self@, name@),
    {
        proof {
            lemma_scopes_view(self.scopes@);
        }
        let mut i: usize = self.scopes.len();
        while i > 0
            invariant
                i <= self.scopes.len(),
                forall|j: int| i <= j < self@.len() ==> scope_get(self@[j], name@) is None,
            decreases i,
        {
            i = i - 1;
            let found = self.scopes[i].get_optional(name);
            if found.is_some() {
                proof {
                    lemma_store_get_from(self@, name@, i as int);
                }
                return found;
            }
        }
        proof {
            lemma_store_get_absent(self@, name@);
        }
        Option::None
    }

    /// The value bound to a name, or nil.
    pub fn get(&self, name: &Vec<u8>) -> (r: Value)
        ensures
            r@ == store_get(self@, name@),
    {
        match self.get_optional(name) {
            Option::Some(v) => v,
            Option::None => Value::Nil,
        }
    }

    /// Whether any scope binds the name.
    pub fn has(&self, name: &Vec<u8>) -> (r: bool)
        ensures
            r == (store_get_opt(self@, name@) is Some),
    {
        self.get_optional(name).is_some()
    }

    /// Rebind a name where it is bound, or bind it in the global scope.
    #[verifier::loop_isolation(false)]
    pub fn set(&mut self, name: &Vec<u8>, value: Value)
        requires
            old(self).wf(),
        ensures
            final(self)@ == store_set(old(self)@, name@, value@),
            final(self)@.len() == old(self)@.len(),
    {
        proof {
            lemma_scopes_view(self.scopes@);
        }
        let ghost st0 = self@;
        let mut i: usize = self.scopes.len();
        while i > 0
            invariant
                old(self).wf(),
                self@ == st0,
                st0.len() == self.scopes@.len(),
                i <= self.scopes.len(),
                forall|j: int| i <= j < st0.len() ==> scope_get(st0[j], name@) is None,
            decreases i,
        {
            i = i - 1;
            proof {
                lemma_scopes_view(self.scopes@);
                assert(st0[i as int] == self.scopes@[i as int]@);
            }
            if self.scopes[i].has(name) {
                proof {
                    lemma_scopes_view(self.scopes@);
                }
                self.scopes[i].set(name, value);
                proof {
                    lemma_scopes_view(self.scopes@);
                    lemma_store_set_at(st0, name@, value@, i as int);
                    assert(self@ =~= store_set(st0, name@, value@));
                }
                return;
            }
        }
        proof {
            lemma_scopes_view(self.scopes@);
        }
        self.scopes[0].set(name, value);
        proof {
            lemma_scopes_view(self.scopes@);
            lemma_store_set_global(st0, name@, value@);
            assert(self@ =~= store_set(st0, name@, value@));
        }
    }

    /// A copy of the top scope's bindings.
    pub fn current_scope(&self) -> (r: &Scope)
        requires
            self.wf(),
        ensures
            r@ == self@[self@.len() - 1],
    {
        proof {
            lemma_scopes_view(self.scopes@);
        }
        &self.scopes[self.scopes.len() - 1]
    }

    /// A copy of the global scope's bindings.
    pub fn global_scope(&self) -> (r: &Scope)
        requires
            self.wf(),
        ensures
            r@ == self@[0],
    {
        proof {
            lemma_scopes_view(self.scopes@);
        }
        &self.scopes[0]
    }
}

proof fn lemma_store_set_at(st: StoreV, name: Seq<u8>, v: Val, i: int)
    requires
        0 <= i < st.len(),
        scope_get(st[i], name) is Some,
        forall|j: int| i < j < st.len() ==> scope_get(st[j], name) is None,
    ensures
        store_set(st, name, v) == st.update(i, st[i].push((name, v))),
    decreases st.len(),
{
    if i < st.len() - 1 {
        let pre = st.subrange(0, st.len() - 1);
        lemma_store_set_at(pre, name, v, i);
        assert(pre[i] == st[i]);
        assert(store_set(st, name, v) == store_set(pre, name, v).push(st[st.len() - 1]));
        assert(store_set(st, name, v) =~= st.update(i, st[i].push((name, v))));
    } else {
        assert(store_set(st, name, v) =~= st.update(i, st[i].push((name, v))));
    }
}

proof fn lemma_store_set_global(st: StoreV, name: Seq<u8>, v: Val)
    requires
        st.len() >= 1,
        forall|j: int| 0 <= j < st.len() ==> scope_get(st[j], name) is None,
    ensures
        store_set(st, name, v) == st.update(0, st[0].push((name, v))),
    decreases st.len(),
{
    if st.len() > 1 {
        let pre = st.subrange(0, st.len() - 1);
        lemma_store_set_global(pre, name, v);
        assert(store_set(st, name, v) == store_set(pre, name, v).push(st[st.len() - 1]));
        assert(store_set(st, name, v) =~= st.update(0, st[0].push((name, v))));
    } else {
        assert(store_set(st, name, v) =~= st.update(0, st[0].push((name, v))));
    }
}

} // verus!
