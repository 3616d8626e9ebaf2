//! The runtime: a scope stack, the text printed so far, and the entry points
//! an embedder uses.

use vstd::prelude::*;
use crate::ast::{Val, ClosV, Builtin, Program, Value, Closure, NativeClosure};
use crate::storage::Storage;
use crate::eval::{sem_run, eval_block_parts};

verus! {

/// The step budget a run is given: far beyond anything a real program
/// reaches before its host gives up.
pub open spec fn run_budget() -> nat {
    0xffff_ffff_ffff_ffff as nat
}

/// An interpreter instance: storage that persists across runs, and the text
/// the runs printed.
pub struct Runtime {
    pub storage: Storage,
    pub output: Vec<u8>,
}

impl Runtime {
    /// A runtime with one empty global scope and no output.
    pub fn new() -> (r: Runtime)
        ensures
            r.storage@.len() == 1,
            r.storage@[0] == Seq::<(Seq<u8>, Val)>::empty(),
            r.output@ == Seq::<u8>::empty(),
    {
        Runtime { storage: Storage::new(), output: Vec::new() }
    }

    /// Register a native closure under a name in the global scope. To be
    /// seen by a program, it must come before `run`. Natives are drawn from
    /// the closed `Builtin` set - that is the deliberate bound of the
    /// embedding surface: an arbitrary host function could not be given a
    /// contract, so each native the host needs is added here, with its
    /// behaviour stated in the mathematical interpreter.
    pub fn register_fn(&mut self, name: &Vec<u8>, builtin: Builtin)
        requires
            old(self).storage@.len() >= 1,
        ensures
            final(self).storage@ == old(self).storage@.update(
                0,
                old(self).storage@[0].push((name@, Val::Clos(ClosV::Native(builtin)))),
            ),
            final(self).storage@.len() == old(self).storage@.len(),
            final(self).output@ == old(self).output@,
    {
        self.storage.define_global(
            name,
            Value::Closure(Closure::Native(NativeClosure { builtin })),
        );
    }

    /// Run a program against this runtime's storage by the block rule: the
    /// result is the last statement's value. The scope stack ends exactly as
    /// deep as it began; what the program printed is appended to `output`.
    /// In the unreachable case that the step budget runs out, the result is
    /// nil.
    pub fn run(&mut self, program: Program) -> (r: Value)
        requires
            old(self).storage@.len() >= 1,
        ensures
            ({
                let o = sem_run(program@, old(self).storage@, old(self).output@, run_budget());
                &&& final(self).storage@ == o.store
                &&& final(self).output@ == o.log
                &&& r@ == (match o.result {
                    Option::Some(v) => v,
                    Option::None => Val::Nil,
                })
                &&& (o.result is Some ==> final(self).storage@.len() == old(
                    self,
                ).storage@.len())
            }),
    {
        let mut log = Vec::new();
        std::mem::swap(&mut log, &mut self.output);
        let r = eval_block_parts(
            &program.statements,
            &program.functions,
            &mut self.storage,
            &mut log,
            0xffff_ffff_ffff_ffff,
        );
        std::mem::swap(&mut log, &mut self.output);
        match r {
            Option::Some(v) => v,
            Option::None => Value::Nil,
        }
    }
}

} // verus!
