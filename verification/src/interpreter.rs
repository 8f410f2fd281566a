//! The DreamBerd interpreter: its parsers, static analysis, statements and runtime.
pub mod ast;
pub mod error;
pub mod evaluators;
pub mod parsers;
pub mod runtime;
pub mod static_analysis;

use vstd::prelude::*;
use self::runtime::state::{InterpreterState, Variable};
use self::evaluators::variable::VarType;

verus! {

/// The interpreter: the state of the running program and where it writes its output
#[derive(Debug)]
pub struct Interpreter<O, V, W> {
    pub state: InterpreterState<V, W>,
    pub stdout: O,
}

/// A builder for the interpreter
#[derive(Debug)]
pub struct InterpreterBuilder<O> {
    pub stdout: O,
}

impl<O> InterpreterBuilder<O> {
    /// Create a new interpreter builder
    /// - This starts from defining the stdout since it is required
    pub fn with_stdout(stdout: O) -> (r: Self)
        ensures
            r.stdout == stdout,
    {
        InterpreterBuilder { stdout }
    }

    /// Build the interpreter: its output is the one given to the builder, and its
    /// state that of a program that has not run yet, with the standard library
    /// declared: each entry of `standard`, in order, as a `var var` variable of the
    /// global scope usable from line 0 (the values that the standard library gives
    /// its names, see `standard_library`).
    pub fn build<V: Clone, W>(self, standard: Vec<(String, V)>) -> (r: Interpreter<O, V, W>)
        ensures
            r.stdout == self.stdout,
            r.state.wf(),
            r.state@.stacks.len() == 1,
            r.state@.stacks[0].len() == 1,
            r.state@.stacks[0][0].whens == Seq::<W>::empty(),
            !r.state@.reversed,
            forall|k: Seq<char>| #[trigger] r.state@.stacks[0][0].vars.contains_key(k) <==> last_declared(
                standard@,
                k,
            ) is Some,
            forall|k: Seq<char>| #[trigger] last_declared(standard@, k) matches Some(v) ==> {
                let var = r.state@.stacks[0][0].vars[k];
                &&& var.value == v
                &&& var.line == 0
                &&& var.type_ == VarType::VarVar
                &&& var.life_time is None
            },
    {
        let mut state = InterpreterState::new();
        let ghost all = standard@;
        let mut standard = standard;
        let n = standard.len();
        let mut i: usize = 0;
        while i < n
            invariant
                n == all.len(),
                i <= n,
                standard@ == all.skip(i as int),
                state.wf(),
                state@.stacks.len() == 1,
                state@.stacks[0].len() == 1,
                state@.stacks[0][0].whens == Seq::<W>::empty(),
                !state@.reversed,
                forall|k: Seq<char>| #[trigger] state@.stacks[0][0].vars.contains_key(k) <==> last_declared(
                    all.take(i as int),
                    k,
                ) is Some,
                forall|k: Seq<char>| #[trigger] last_declared(all.take(i as int), k) matches Some(v)
                    ==> {
                    let var = state@.stacks[0][0].vars[k];
                    &&& var.value == v
                    &&& var.line == 0
                    &&& var.type_ == VarType::VarVar
                    &&& var.life_time is None
                },
            decreases n - i,
        {
            let ghost before = state@;
            let (name, value) = standard.remove(0);
            proof {
                assert(all.skip(i as int)[0] == all[i as int]);
            }
            let ghost v = value;
            state.add_var(name.as_str(), value, 0, VarType::VarVar, None);
            proof {
                let t = all.take(i + 1);
                assert(t.drop_last() =~= all.take(i as int));
                assert(t.last() == all[i as int]);
                assert(state@.stacks[0][0].vars == before.stacks[0][0].vars.insert(
                    name@,
                    state@.stacks[0][0].vars[name@],
                ));
                assert forall|k: Seq<char>| #[trigger] last_declared(t, k) is Some implies {
                    let var = state@.stacks[0][0].vars[k];
                    &&& var.value == last_declared(t, k)->0
                    &&& var.line == 0
                    &&& var.type_ == VarType::VarVar
                    &&& var.life_time is None
                } by {
                    if k != name@ {
                        assert(last_declared(t, k) == last_declared(all.take(i as int), k));
                    }
                }
                assert forall|k: Seq<char>| #[trigger] state@.stacks[0][0].vars.contains_key(k) <==> last_declared(
                    t,
                    k,
                ) is Some by {
                    if k != name@ {
                        assert(last_declared(t, k) == last_declared(all.take(i as int), k));
                    }
                }
                assert(all.take(i + 1).drop_last() =~= all.take(i as int));
                assert(all.take(i + 1).last() == all[i as int]);
                assert(standard@ =~= all.skip(i + 1));
            }
            i = i + 1;
        }
        proof {
            assert(all.take(n as int) =~= all);
        }
        Interpreter { state, stdout: self.stdout }
    }
}

/// The value last given to `name` among named entries, if any.
pub open spec fn last_declared<V>(entries: Seq<(String, V)>, name: Seq<char>) -> Option<V>
    decreases entries.len(),
{
    if entries.len() == 0 {
        None
    } else if entries.last().0@ == name {
        Some(entries.last().1)
    } else {
        last_declared(entries.drop_last(), name)
    }
}

} // verus!
