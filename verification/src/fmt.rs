//! Value formatting: the text the postfix print and debug operators emit.

use vstd::prelude::*;
use crate::ast::{Val, ClosV, Value, Closure, vals_view, val_entries_view, names_view,
    lemma_vals_view, lemma_val_entries_view};
use crate::bytes::{idec, idec_exec, bytes_concat, dup_bytes};

verus! {

/// ", "
pub open spec fn sep_comma() -> Seq<u8> {
    seq![44u8, 32u8]
}

/// The printed text of a value: numbers, booleans and nil as their canonical
/// text, strings as their raw contents, arrays bracketed and comma-separated,
/// tables as `#{key: value, ...}` in entry order, ranges with their operator,
/// and closures as a parameter list with an elided body.
pub open spec fn fmt_print_val(v: Val) -> Seq<u8>
    decreases v,
{
    match v {
        Val::Num(n) => idec(n),
        Val::Str(s) => s,
        Val::Bool(b) => if b {
            seq![116u8, 114u8, 117u8, 101u8]
        } else {
            seq![102u8, 97u8, 108u8, 115u8, 101u8]
        },
        Val::Nil => seq![110u8, 105u8, 108u8],
        Val::Arr(_) => seq![91u8] + fmt_list(v->Arr_0) + seq![93u8],
        Val::Tbl(_) => seq![35u8, 123u8] + fmt_entries(v->Tbl_0) + seq![125u8],
        Val::ExRange(a, b) => idec(a) + seq![46u8, 46u8] + idec(b),
        Val::InRange(a, b) => idec(a) + seq![46u8, 46u8, 61u8] + idec(b),
        Val::Clos(_) => match v->Clos_0 {
            ClosV::Script { params, .. } => seq![124u8] + names_join(params) + seq![
                124u8,
                32u8,
                123u8,
                32u8,
                46u8,
                46u8,
                46u8,
                32u8,
                125u8,
            ],
            ClosV::Native(_) => seq![
                124u8,
                46u8,
                46u8,
                46u8,
                124u8,
                32u8,
                123u8,
                32u8,
                78u8,
                97u8,
                116u8,
                105u8,
                118u8,
                101u8,
                67u8,
                111u8,
                100u8,
                101u8,
                32u8,
                125u8,
            ],
        },
    }
}

/// Comma-separated printed elements.
pub open spec fn fmt_list(elems: Seq<Val>) -> Seq<u8>
    decreases elems,
{
    if elems.len() == 0 {
        Seq::empty()
    } else if elems.len() == 1 {
        fmt_print_val(elems[0])
    } else {
        fmt_list(elems.subrange(0, elems.len() - 1)) + sep_comma() + fmt_print_val(
            elems[elems.len() - 1],
        )
    }
}

/// Comma-separated `key: value` entries.
pub open spec fn fmt_entries(t: Seq<(Seq<u8>, Val)>) -> Seq<u8>
    decreases t,
{
    if t.len() == 0 {
        Seq::empty()
    } else if t.len() == 1 {
        t[0].0 + seq![58u8, 32u8] + fmt_print_val(t[0].1)
    } else {
        fmt_entries(t.subrange(0, t.len() - 1)) + sep_comma() + t[t.len() - 1].0 + seq![
            58u8,
            32u8,
        ] + fmt_print_val(t[t.len() - 1].1)
    }
}

/// Comma-separated names.
pub open spec fn names_join(params: Seq<Seq<u8>>) -> Seq<u8>
    decreases params.len(),
{
    if params.len() == 0 {
        Seq::empty()
    } else if params.len() == 1 {
        params[0]
    } else {
        names_join(params.subrange(0, params.len() - 1)) + sep_comma() + params[params.len()
            - 1]
    }
}

/// The debug text of a value: the printed text.
pub open spec fn fmt_debug_val(v: Val) -> Seq<u8> {
    fmt_print_val(v)
}

/// Rendering a value as text.
pub trait Printable {
    /// The model of the printed text.
    spec fn print_model(&self) -> Seq<u8>;

    /// The model of the debug text.
    spec fn debug_model(&self) -> Seq<u8>;

    /// The printed text.
    fn fmt_print(&self) -> (r: Vec<u8>)
        ensures
            r@ == self.print_model(),
    ;

    /// The debug text.
    fn fmt_debug(&self) -> (r: Vec<u8>)
        ensures
            r@ == self.debug_model(),
    ;
}

impl Printable for Value {
    open spec fn print_model(&self) -> Seq<u8> {
        fmt_print_val(self@)
    }

    open spec fn debug_model(&self) -> Seq<u8> {
        fmt_debug_val(self@)
    }

    #[verifier::loop_isolation(false)]
    fn fmt_print(&self) -> (r: Vec<u8>)
        ensures
            r@ == self.print_model(),
        decreases self,
    {
        broadcast use lemma_vals_view, lemma_val_entries_view;

        match self {
            Value::Number(n) => idec_exec(*n),
            Value::String(s) => dup_bytes(s),
            Value::Boolean(b) => {
                let r: Vec<u8> = if *b {
                    vec![116, 114, 117, 101]
                } else {
                    vec![102, 97, 108, 115, 101]
                };
                proof {
                    assert(r@ =~= self.print_model());
                }
                r
            }
            Value::Nil => {
                let r: Vec<u8> = vec![110, 105, 108];
                proof {
                    assert(r@ =~= self.print_model());
                }
                r
            }
            Value::Array(arr) => {
                let ghost elems = vals_view(arr.elements@);
                let mut out: Vec<u8> = vec![91];
                proof {
                    assert(out@ =~= seq![91u8] + fmt_list(elems.subrange(0, 0)));
                }
                let mut i: usize = 0;
                while i < arr.elements.len()
                    invariant
                        i <= arr.elements@.len(),
                        out@ == seq![91u8] + fmt_list(elems.subrange(0, i as int)),
                    decreases arr.elements@.len() - i,
                {
                    if i > 0 {
                        let sep: Vec<u8> = vec![44, 32];
                        out = bytes_concat(&out, &sep);
                    }
                    let t = arr.elements[i].fmt_print();
                    out = bytes_concat(&out, &t);
                    proof {
                        let upto = elems.subrange(0, i + 1);
                        assert(upto.subrange(0, upto.len() - 1) =~= elems.subrange(
                            0,
                            i as int,
                        ));
                        assert(upto[upto.len() - 1] == elems[i as int]);
                        if i == 0 {
                            assert(out@ =~= seq![91u8] + fmt_list(upto));
                        } else {
                            assert(out@ =~= seq![91u8] + fmt_list(upto));
                        }
                    }
                    i = i + 1;
                }
                out.push(93);
                proof {
                    assert(elems.subrange(0, elems.len() as int) =~= elems);
                    assert(out@ =~= self.print_model());
                }
                out
            }
            Value::Table(tbl) => {
                let ghost t = val_entries_view(tbl.entries@);
                let mut out: Vec<u8> = vec![35, 123];
                proof {
                    assert(out@ =~= seq![35u8, 123u8] + fmt_entries(t.subrange(0, 0)));
                }
                let mut i: usize = 0;
                while i < tbl.entries.len()
                    invariant
                        i <= tbl.entries@.len(),
                        out@ == seq![35u8, 123u8] + fmt_entries(t.subrange(0, i as int)),
                    decreases tbl.entries@.len() - i,
                {
                    if i > 0 {
                        let sep: Vec<u8> = vec![44, 32];
                        out = bytes_concat(&out, &sep);
                    }
                    out = bytes_concat(&out, &tbl.entries[i].0);
                    let colon: Vec<u8> = vec![58, 32];
                    out = bytes_concat(&out, &colon);
                    let t2 = tbl.entries[i].1.fmt_print();
                    out = bytes_concat(&out, &t2);
                    proof {
                        let upto = t.subrange(0, i + 1);
                        assert(upto.subrange(0, upto.len() - 1) =~= t.subrange(0, i as int));
                        assert(upto[upto.len() - 1] == t[i as int]);
                        assert(out@ =~= seq![35u8, 123u8] + fmt_entries(upto));
                    }
                    i = i + 1;
                }
                out.push(125);
                proof {
                    assert(t.subrange(0, t.len() as int) =~= t);
                    assert(out@ =~= self.print_model());
                }
                out
            }
            Value::ExclusiveRange(a, b) => {
                let mut out = idec_exec(*a);
                out.push(46);
                out.push(46);
                let tb = idec_exec(*b);
                out = bytes_concat(&out, &tb);
                proof {
                    assert(out@ =~= self.print_model());
                }
                out
            }
            Value::InclusiveRange(a, b) => {
                let mut out = idec_exec(*a);
                out.push(46);
                out.push(46);
                out.push(61);
                let tb = idec_exec(*b);
                out = bytes_concat(&out, &tb);
                proof {
                    assert(out@ =~= self.print_model());
                }
                out
            }
            Value::Closure(c) => {
                match c {
                    Closure::Normal(nc) => {
                        let ghost params = names_view(nc.params@);
                        let mut out: Vec<u8> = vec![124];
                        proof {
                            assert(out@ =~= seq![124u8] + names_join(params.subrange(0, 0)));
                        }
                        let mut i: usize = 0;
                        while i < nc.params.len()
                            invariant
                                i <= nc.params@.len(),
                                out@ == seq![124u8] + names_join(params.subrange(0, i as int)),
                            decreases nc.params@.len() - i,
                        {
                            if i > 0 {
                                let sep: Vec<u8> = vec![44, 32];
                                out = bytes_concat(&out, &sep);
                            }
                            out = bytes_concat(&out, &nc.params[i]);
                            proof {
                                let upto = params.subrange(0, i + 1);
                                assert(upto.subrange(0, upto.len() - 1) =~= params.subrange(
                                    0,
                                    i as int,
                                ));
                                assert(upto[upto.len() - 1] == params[i as int]);
                                assert(out@ =~= seq![124u8] + names_join(upto));
                            }
                            i = i + 1;
                        }
                        let close: Vec<u8> = vec![124, 32, 123, 32, 46, 46, 46, 32, 125];
                        out = bytes_concat(&out, &close);
                        proof {
                            assert(params.subrange(0, params.len() as int) =~= params);
                            assert(out@ =~= self.print_model());
                        }
                        out
                    }
                    Closure::Native(_) => {
                        let r: Vec<u8> = vec![
                            124,
                            46,
                            46,
                            46,
                            124,
                            32,
                            123,
                            32,
                            78,
                            97,
                            116,
                            105,
                            118,
                            101,
                            67,
                            111,
                            100,
                            101,
                            32,
                            125,
                        ];
                        proof {
                            assert(r@ =~= self.print_model());
                        }
                        r
                    }
                }
            }
        }
    }

    fn fmt_debug(&self) -> (r: Vec<u8>)
        ensures
            r@ == self.debug_model(),
    {
        self.fmt_print()
    }
}

} // verus!
