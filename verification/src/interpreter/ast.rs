//! Structures of the syntax tree that are decided only when the program runs.
pub mod uncertain;

use vstd::prelude::*;

verus! {

/// Where a walk over nested scopes stands
#[derive(Debug, Clone)]
pub struct AnalysisProgress<S> {
    /// The scopes from the global one to the current one
    pub scope_depth: Vec<S>,
    /// For each nested scope, the index of the statement being looked at
    pub index_depth: Vec<usize>,
}

impl<S> AnalysisProgress<S> {
    /// Starts a walk in the given (global) scope.
    pub fn new(scope: S) -> (r: Self)
        ensures
            r.scope_depth@ == seq![scope],
            r.index_depth@ == Seq::<usize>::empty(),
    {
        let mut scope_depth: Vec<S> = Vec::new();
        scope_depth.push(scope);
        AnalysisProgress { scope_depth, index_depth: Vec::new() }
    }
}

} // verus!
