//! The variable scopes of a running program.
//!
//! A program runs on a stack of calls; each call has a stack of scopes, and each scope
//! holds the variables declared in it. The values themselves are left open (`V`), so
//! that the rules of declaring, finding, assigning and scoping variables are stated
//! once for any kind of value.
use vstd::prelude::*;
use crate::interpreter::evaluators::variable::VarType;
use crate::interpreter::parsers::LifeTime;

verus! {

/// A declared variable
#[derive(Debug)]
pub struct Variable<V> {
    pub value: V,
    /// The value before the last assignment
    pub previous: V,
    /// The line from which the variable is usable
    pub line: usize,
    pub type_: VarType,
    pub life_time: Option<LifeTime>,
}

/// The variable after an assignment of `value`: a reassignable variable keeps its old
/// value as the previous one, any other variable stays as it was.
pub open spec fn assigned<V>(var: Variable<V>, value: V) -> Variable<V> {
    if var.type_.reassignable() {
        Variable { value, previous: var.value, ..var }
    } else {
        var
    }
}

impl<V> Variable<V> {
    /// The current value.
    pub fn get_value(&self) -> (r: &V)
        ensures
            *r == self.value,
    {
        &self.value
    }

    /// The value before the last assignment.
    pub fn get_previous_value(&self) -> (r: &V)
        ensures
            *r == self.previous,
    {
        &self.previous
    }

    /// Assigns a new value: a `var const` or `var var` variable keeps its old value as the
    /// previous one; a variable that cannot be reassigned stays as it was.
    pub fn set_value(&mut self, value: V)
        ensures
            *final(self) == assigned(*old(self), value),
    {
        if self.type_.allows_reassign() {
            let mut old_value = value;
            std::mem::swap(&mut self.value, &mut old_value);
            self.previous = old_value;
        }
    }
}

/// The names of the entries are pairwise different.
pub open spec fn names_unique<V>(s: Seq<(String, Variable<V>)>) -> bool {
    forall|i: int, j: int| 0 <= i < j < s.len() ==> s[i].0@ != s[j].0@
}

/// The variables that a list of named entries holds, by name.
pub open spec fn entries_map<V>(s: Seq<(String, Variable<V>)>) -> Map<Seq<char>, Variable<V>>
    decreases s.len(),
{
    if s.len() == 0 {
        Map::empty()
    } else {
        entries_map(s.drop_last()).insert(s.last().0@, s.last().1)
    }
}

/// A name is in the map exactly when an entry has it.
pub proof fn lemma_entries_map_key<V>(s: Seq<(String, Variable<V>)>, k: Seq<char>)
    ensures
        entries_map(s).contains_key(k) <==> exists|i: int| 0 <= i < s.len() && s[i].0@ == k,
    decreases s.len(),
{
    if s.len() > 0 {
        let t = s.drop_last();
        lemma_entries_map_key(t, k);
        if entries_map(s).contains_key(k) {
            if s.last().0@ == k {
                assert(s[s.len() - 1].0@ == k);
            } else {
                let i = choose|i: int| 0 <= i < t.len() && t[i].0@ == k;
                assert(s[i].0@ == k);
            }
        }
        if exists|i: int| 0 <= i < s.len() && s[i].0@ == k {
            let i = choose|i: int| 0 <= i < s.len() && s[i].0@ == k;
            if i < s.len() - 1 {
                assert(t[i].0@ == k);
            }
        }
    }
}

/// With distinct names, the map gives each entry's variable under its name.
pub proof fn lemma_entries_map_index<V>(s: Seq<(String, Variable<V>)>, i: int)
    requires
        names_unique(s),
        0 <= i < s.len(),
    ensures
        entries_map(s).contains_key(s[i].0@),
        entries_map(s)[s[i].0@] == s[i].1,
    decreases s.len(),
{
    if i < s.len() - 1 {
        let t = s.drop_last();
        assert(names_unique(t));
        assert(t[i] == s[i]);
        lemma_entries_map_index(t, i);
    }
}

/// Adding an entry with a new name keeps the names distinct.
pub proof fn lemma_push_unique<V>(s: Seq<(String, Variable<V>)>, e: (String, Variable<V>))
    requires
        names_unique(s),
        !entries_map(s).contains_key(e.0@),
    ensures
        names_unique(s.push(e)),
        entries_map(s.push(e)) == entries_map(s).insert(e.0@, e.1),
{
    lemma_entries_map_key(s, e.0@);
    assert(s.push(e).drop_last() =~= s);
    assert forall|i: int, j: int| 0 <= i < j < s.push(e).len() implies s.push(e)[i].0@ != s.push(
        e,
    )[j].0@ by {
        if j == s.len() {
            assert(s[i] == s.push(e)[i]);
        }
    }
}

/// Replacing the variable of an entry keeps the names and updates the map.
pub proof fn lemma_update_entry<V>(s: Seq<(String, Variable<V>)>, i: int, e: (String, Variable<V>))
    requires
        names_unique(s),
        0 <= i < s.len(),
        s[i].0@ == e.0@,
    ensures
        names_unique(s.update(i, e)),
        entries_map(s.update(i, e)) == entries_map(s).insert(e.0@, e.1),
{
    let u = s.update(i, e);
    assert(names_unique(u));
    assert forall|k: Seq<char>| #[trigger] entries_map(u).contains_key(k) <==> entries_map(s).insert(
        e.0@,
        e.1,
    ).contains_key(k) by {
        lemma_entries_map_key(u, k);
        lemma_entries_map_key(s, k);
        if exists|j: int| 0 <= j < u.len() && u[j].0@ == k {
            let j = choose|j: int| 0 <= j < u.len() && u[j].0@ == k;
            if j != i {
                assert(s[j].0@ == k);
            }
        }
        if exists|j: int| 0 <= j < s.len() && s[j].0@ == k {
            let j = choose|j: int| 0 <= j < s.len() && s[j].0@ == k;
            assert(u[j].0@ == k);
        }
    }
    assert forall|k: Seq<char>| #[trigger] entries_map(u).contains_key(k) implies entries_map(u)[k]
        == entries_map(s).insert(e.0@, e.1)[k] by {
        lemma_entries_map_key(u, k);
        let j = choose|j: int| 0 <= j < u.len() && u[j].0@ == k;
        lemma_entries_map_index(u, j);
        if j != i {
            assert(u[j] == s[j]);
            lemma_entries_map_index(s, j);
        }
    }
    assert(entries_map(u) =~= entries_map(s).insert(e.0@, e.1));
}

/// Removing an entry keeps the names distinct and removes its name from the map.
pub proof fn lemma_remove_entry<V>(s: Seq<(String, Variable<V>)>, i: int)
    requires
        names_unique(s),
        0 <= i < s.len(),
    ensures
        names_unique(s.remove(i)),
        entries_map(s.remove(i)) == entries_map(s).remove(s[i].0@),
{
    let u = s.remove(i);
    let k0 = s[i].0@;
    assert forall|a: int, b: int| 0 <= a < b < u.len() implies u[a].0@ != u[b].0@ by {
        let a2 = if a < i { a } else { a + 1 };
        let b2 = if b < i { b } else { b + 1 };
        assert(u[a] == s[a2]);
        assert(u[b] == s[b2]);
    }
    assert forall|k: Seq<char>| #[trigger] entries_map(u).contains_key(k) <==> entries_map(s).remove(
        k0,
    ).contains_key(k) by {
        lemma_entries_map_key(u, k);
        lemma_entries_map_key(s, k);
        if exists|j: int| 0 <= j < u.len() && u[j].0@ == k {
            let j = choose|j: int| 0 <= j < u.len() && u[j].0@ == k;
            let j2 = if j < i { j } else { j + 1 };
            assert(s[j2].0@ == k);
        }
        if k != k0 && exists|j: int| 0 <= j < s.len() && s[j].0@ == k {
            let j = choose|j: int| 0 <= j < s.len() && s[j].0@ == k;
            if j < i {
                assert(u[j].0@ == k);
            } else {
                assert(u[j - 1].0@ == k);
            }
        }
    }
    assert forall|k: Seq<char>| #[trigger] entries_map(u).contains_key(k) implies entries_map(u)[k]
        == entries_map(s)[k] by {
        lemma_entries_map_key(u, k);
        let j = choose|j: int| 0 <= j < u.len() && u[j].0@ == k;
        lemma_entries_map_index(u, j);
        let j2 = if j < i { j } else { j + 1 };
        assert(u[j] == s[j2]);
        lemma_entries_map_index(s, j2);
    }
    assert(entries_map(u) =~= entries_map(s).remove(k0));
}

/// The variables declared in one scope, by name
#[derive(Debug)]
pub struct VariableState<V> {
    vars: Vec<(String, Variable<V>)>,
}

impl<V> View for VariableState<V> {
    type V = Map<Seq<char>, Variable<V>>;

    closed spec fn view(&self) -> Map<Seq<char>, Variable<V>> {
        entries_map(self.vars@)
    }
}

impl<V> VariableState<V> {
    /// Every name is declared once.
    pub closed spec fn wf(&self) -> bool {
        names_unique(self.vars@)
    }

    /// A scope without variables.
    pub fn new() -> (r: Self)
        ensures
            r.wf(),
            r@ == Map::<Seq<char>, Variable<V>>::empty(),
    {
        VariableState { vars: Vec::new() }
    }

    /// The number of declared variables.
    pub fn len(&self) -> (r: usize)
        requires
            self.wf(),
        ensures
            r == self@.len(),
    {
        proof {
            self.lemma_len();
        }
        self.vars.len()
    }

    proof fn lemma_len(&self)
        requires
            self.wf(),
        ensures
            self@.dom().finite(),
            self@.len() == self.vars@.len(),
        decreases self.vars@.len(),
    {
        lemma_entries_map_len(self.vars@);
    }

    /// Where the variable of that name is stored.
    fn find_index(&self, name: &String) -> (r: Option<usize>)
        requires
            self.wf(),
        ensures
            match r {
                Some(i) => i < self.vars@.len() && self.vars@[i as int].0@ == name@,
                None => !self@.contains_key(name@),
            },
    {
        let n = self.vars.len();
        let mut i: usize = 0;
        while i < n
            invariant
                n == self.vars@.len(),
                i <= n,
                forall|j: int| 0 <= j < i ==> self.vars@[j].0@ != name@,
            decreases n - i,
        {
            if self.vars[i].0 == *name {
                return Some(i);
            }
            i = i + 1;
        }
        proof {
            lemma_entries_map_key(self.vars@, name@);
        }
        None
    }

    /// The variable declared under that name.
    pub fn get_var(&self, name: &str) -> (r: Option<&Variable<V>>)
        requires
            self.wf(),
        ensures
            r == (if self@.contains_key(name@) {
                Some(&self@[name@])
            } else {
                None
            }),
    {
        let key = name.to_owned();
        match self.find_index(&key) {
            Some(i) => {
                proof {
                    lemma_entries_map_index(self.vars@, i as int);
                }
                Some(&self.vars[i].1)
            },
            None => None,
        }
    }

    /// Stores a variable under a name, replacing any variable of that name.
    pub fn insert_var(&mut self, name: String, var: Variable<V>)
        requires
            old(self).wf(),
        ensures
            final(self).wf(),
            final(self)@ == old(self)@.insert(name@, var),
    {
        match self.find_index(&name) {
            Some(i) => {
                proof {
                    lemma_update_entry(self.vars@, i as int, (name, var));
                }
                self.vars.set(i, (name, var));
            },
            None => {
                proof {
                    lemma_push_unique(self.vars@, (name, var));
                }
                self.vars.push((name, var));
            },
        }
    }

    /// Declares a variable: its value is also its previous value, and a variable of the
    /// same name in this scope is replaced.
    pub fn declare_var(
        &mut self,
        name: &str,
        value: V,
        line: usize,
        type_: VarType,
        life_time: Option<LifeTime>,
    ) where V: Clone
        requires
            old(self).wf(),
        ensures
            final(self).wf(),
            final(self)@ == old(self)@.insert(
                name@,
                Variable { value, previous: final(self)@[name@].previous, line, type_, life_time },
            ),
            vstd::pervasive::cloned::<V>(value, final(self)@[name@].previous),
    {
        let previous = value.clone();
        let var = Variable { value, previous, line, type_, life_time };
        self.insert_var(name.to_owned(), var);
    }

    /// Removes the variable of that name, if there is one.
    pub fn remove_var(&mut self, name: &str)
        requires
            old(self).wf(),
        ensures
            final(self).wf(),
            final(self)@ == old(self)@.remove(name@),
    {
        let key = name.to_owned();
        match self.find_index(&key) {
            Some(i) => {
                proof {
                    lemma_remove_entry(self.vars@, i as int);
                }
                self.vars.remove(i);
            },
            None => {
                assert(self@.remove(name@) =~= self@);
            },
        }
    }

    /// Assigns a value to the variable of that name, if there is one; whether there was.
    pub fn set_var(&mut self, name: &str, value: V) -> (r: bool)
        requires
            old(self).wf(),
        ensures
            final(self).wf(),
            r == old(self)@.contains_key(name@),
            r ==> final(self)@ == old(self)@.insert(name@, assigned(old(self)@[name@], value)),
            !r ==> final(self)@ == old(self)@,
    {
        let key = name.to_owned();
        match self.find_index(&key) {
            Some(i) => {
                proof {
                    lemma_entries_map_index(self.vars@, i as int);
                }
                let (k, mut var) = self.vars.remove(i);
                proof {
                    lemma_remove_entry(old(self).vars@, i as int);
                    assert(!self@.contains_key(k@));
                }
                var.set_value(value);
                proof {
                    lemma_push_unique(self.vars@, (k, var));
                    assert(old(self)@.remove(k@).insert(k@, var) =~= old(self)@.insert(k@, var));
                }
                self.vars.push((k, var));
                true
            },
            None => false,
        }
    }

    /// Whether a variable of that name is declared.
    pub fn contains(&self, name: &str) -> (r: bool)
        requires
            self.wf(),
        ensures
            r == self@.contains_key(name@),
    {
        let key = name.to_owned();
        match self.find_index(&key) {
            Some(i) => {
                proof {
                    lemma_entries_map_index(self.vars@, i as int);
                }
                true
            },
            None => false,
        }
    }

    /// Splits the variables by the line from which they are usable: those usable up to
    /// `line` stay, those usable only after it move.
    pub fn split_by_line(self, line: usize) -> (r: (Self, Self))
        requires
            self.wf(),
        ensures
            r.0.wf(),
            r.1.wf(),
            r.0@ == keep_vars(self@, line as int),
            r.1@ == moved_vars(self@, line as int),
    {
        let ghost orig = self@;
        let mut rest = self.vars;
        let mut keep: Vec<(String, Variable<V>)> = Vec::new();
        let mut moved: Vec<(String, Variable<V>)> = Vec::new();
        assert(keep_vars(orig, line as int) =~= keep_vars(entries_map(rest@), line as int));
        assert(moved_vars(orig, line as int) =~= moved_vars(entries_map(rest@), line as int));
        while rest.len() > 0
            invariant
                names_unique(rest@),
                names_unique(keep@),
                names_unique(moved@),
                forall|k: Seq<char>| #[trigger] entries_map(rest@).contains_key(k) ==> !entries_map(
                    keep@,
                ).contains_key(k) && !entries_map(moved@).contains_key(k),
                keep_vars(orig, line as int) == entries_map(keep@).union_prefer_right(
                    keep_vars(entries_map(rest@), line as int),
                ),
                moved_vars(orig, line as int) == entries_map(moved@).union_prefer_right(
                    moved_vars(entries_map(rest@), line as int),
                ),
            decreases rest.len(),
        {
            let ghost before = rest@;
            let ghost keep0 = keep@;
            let ghost moved0 = moved@;
            let e = rest.pop().unwrap();
            proof {
                assert(before == rest@.push(e));
                assert(before.drop_last() =~= rest@);
                assert(entries_map(before) == entries_map(rest@).insert(e.0@, e.1));
                lemma_entries_map_key(rest@, e.0@);
                if entries_map(rest@).contains_key(e.0@) {
                    let i = choose|i: int| 0 <= i < rest@.len() && rest@[i].0@ == e.0@;
                    assert(before[i].0@ == before[before.len() - 1].0@);
                }
                assert(entries_map(before).contains_key(e.0@));
            }
            if e.1.line > line {
                proof {
                    lemma_push_unique(moved@, e);
                    assert(moved_vars(entries_map(before), line as int) =~= moved_vars(
                        entries_map(rest@),
                        line as int,
                    ).insert(e.0@, e.1));
                    assert(keep_vars(entries_map(before), line as int) =~= keep_vars(
                        entries_map(rest@),
                        line as int,
                    ));
                    assert(entries_map(moved@).insert(e.0@, e.1).union_prefer_right(
                        moved_vars(entries_map(rest@), line as int),
                    ) =~= entries_map(moved@).union_prefer_right(
                        moved_vars(entries_map(rest@), line as int).insert(e.0@, e.1),
                    ));
                }
                moved.push(e);
            } else {
                proof {
                    lemma_push_unique(keep@, e);
                    assert(keep_vars(entries_map(before), line as int) =~= keep_vars(
                        entries_map(rest@),
                        line as int,
                    ).insert(e.0@, e.1));
                    assert(moved_vars(entries_map(before), line as int) =~= moved_vars(
                        entries_map(rest@),
                        line as int,
                    ));
                    assert(entries_map(keep@).insert(e.0@, e.1).union_prefer_right(
                        keep_vars(entries_map(rest@), line as int),
                    ) =~= entries_map(keep@).union_prefer_right(
                        keep_vars(entries_map(rest@), line as int).insert(e.0@, e.1),
                    ));
                }
                keep.push(e);
            }
            proof {
                assert forall|k: Seq<char>| #[trigger] entries_map(rest@).contains_key(k) implies !entries_map(
                    keep@,
                ).contains_key(k) && !entries_map(moved@).contains_key(k) by {
                    assert(entries_map(before).contains_key(k));
                    assert(!entries_map(keep0).contains_key(k));
                    assert(!entries_map(moved0).contains_key(k));
                }
            }
        }
        assert(entries_map(keep@).union_prefer_right(keep_vars(entries_map(rest@), line as int))
            =~= entries_map(keep@));
        assert(entries_map(moved@).union_prefer_right(moved_vars(entries_map(rest@), line as int))
            =~= entries_map(moved@));
        (VariableState { vars: keep }, VariableState { vars: moved })
    }

    /// Takes over the variables of another scope that are usable only after `line`,
    /// replacing variables of the same name.
    pub fn absorb_after_line(&mut self, other: Self, line: usize)
        requires
            old(self).wf(),
            other.wf(),
        ensures
            final(self).wf(),
            final(self)@ == old(self)@.union_prefer_right(moved_vars(other@, line as int)),
    {
        let ghost start = self@;
        let ghost orig = other@;
        let mut rest = other.vars;
        assert(start.union_prefer_right(moved_vars(orig, line as int)) =~= self@.union_prefer_right(
            moved_vars(entries_map(rest@), line as int),
        ));
        while rest.len() > 0
            invariant
                names_unique(rest@),
                self.wf(),
                start.union_prefer_right(moved_vars(orig, line as int)) == self@.union_prefer_right(
                    moved_vars(entries_map(rest@), line as int),
                ),
            decreases rest.len(),
        {
            let ghost before = rest@;
            let e = rest.pop().unwrap();
            proof {
                assert(before == rest@.push(e));
                assert(before.drop_last() =~= rest@);
                lemma_entries_map_key(rest@, e.0@);
                if entries_map(rest@).contains_key(e.0@) {
                    let i = choose|i: int| 0 <= i < rest@.len() && rest@[i].0@ == e.0@;
                    assert(before[i].0@ == before[before.len() - 1].0@);
                }
            }
            if e.1.line > line {
                proof {
                    assert(moved_vars(entries_map(before), line as int) =~= moved_vars(
                        entries_map(rest@),
                        line as int,
                    ).insert(e.0@, e.1));
                    assert(self@.insert(e.0@, e.1).union_prefer_right(
                        moved_vars(entries_map(rest@), line as int),
                    ) =~= self@.union_prefer_right(
                        moved_vars(entries_map(rest@), line as int).insert(e.0@, e.1),
                    ));
                }
                self.insert_var(e.0, e.1);
            } else {
                proof {
                    assert(moved_vars(entries_map(before), line as int) =~= moved_vars(
                        entries_map(rest@),
                        line as int,
                    ));
                }
            }
        }
        assert(self@.union_prefer_right(moved_vars(entries_map(rest@), line as int)) =~= self@);
    }
}

/// The variables of a scope usable up to a line.
pub open spec fn keep_vars<V>(m: Map<Seq<char>, Variable<V>>, line: int) -> Map<Seq<char>, Variable<V>> {
    Map::new(|k: Seq<char>| m.contains_key(k) && m[k].line <= line, |k: Seq<char>| m[k])
}

/// The variables of a scope usable only after a line.
pub open spec fn moved_vars<V>(m: Map<Seq<char>, Variable<V>>, line: int) -> Map<Seq<char>, Variable<V>> {
    Map::new(|k: Seq<char>| m.contains_key(k) && m[k].line > line, |k: Seq<char>| m[k])
}


/// What a scope holds.
pub struct ScopeView<V, W> {
    pub vars: Map<Seq<char>, Variable<V>>,
    pub whens: Seq<W>,
}

/// A scope: its variables and the `when` watchers that are active in it
#[derive(Debug)]
pub struct ScopeState<V, W> {
    pub vars: VariableState<V>,
    pub whens: Vec<W>,
}

impl<V, W> View for ScopeState<V, W> {
    type V = ScopeView<V, W>;

    open spec fn view(&self) -> ScopeView<V, W> {
        ScopeView { vars: self.vars@, whens: self.whens@ }
    }
}

impl<V, W> ScopeState<V, W> {
    /// A scope without variables or watchers.
    pub fn new() -> (r: Self)
        ensures
            r.vars.wf(),
            r@.vars == Map::<Seq<char>, Variable<V>>::empty(),
            r@.whens == Seq::<W>::empty(),
    {
        ScopeState { vars: VariableState::new(), whens: Vec::new() }
    }
}

/// What the state of a running program holds: for each call, its scopes from the
/// outermost to the innermost, and whether the program runs reversed.
pub struct StateView<V, W> {
    pub stacks: Seq<Seq<ScopeView<V, W>>>,
    pub reversed: bool,
}

/// There is at least one call, and each call has at least one scope.
pub open spec fn state_shape<V, W>(s: StateView<V, W>) -> bool {
    &&& s.stacks.len() >= 1
    &&& forall|i: int| 0 <= i < s.stacks.len() ==> #[trigger] s.stacks[i].len() >= 1
}

/// The innermost scope of a call that declares the name.
pub open spec fn scopes_find<V, W>(sc: Seq<ScopeView<V, W>>, name: Seq<char>) -> Option<int>
    decreases sc.len(),
{
    if sc.len() == 0 {
        None
    } else if sc.last().vars.contains_key(name) {
        Some(sc.len() - 1)
    } else {
        scopes_find(sc.drop_last(), name)
    }
}

/// Where a name is looked up, searching the calls from the `i`-th on, from the first
/// call to the last, and in each the scopes from the innermost out.
pub open spec fn stacks_find_from<V, W>(
    st: Seq<Seq<ScopeView<V, W>>>,
    name: Seq<char>,
    i: int,
) -> Option<(int, int)>
    decreases st.len() - i,
{
    if i < 0 || i >= st.len() {
        None
    } else {
        match scopes_find(st[i], name) {
            Some(j) => Some((i, j)),
            None => stacks_find_from(st, name, i + 1),
        }
    }
}

/// Where a name is looked up: the call and the scope of the variable that it denotes.
pub open spec fn find_spec<V, W>(s: StateView<V, W>, name: Seq<char>) -> Option<(int, int)> {
    stacks_find_from(s.stacks, name, 0)
}

/// The variable that a name denotes.
pub open spec fn lookup_spec<V, W>(s: StateView<V, W>, name: Seq<char>) -> Option<Variable<V>> {
    match find_spec(s, name) {
        Some((i, j)) => Some(s.stacks[i][j].vars[name]),
        None => None,
    }
}

/// The state with the scope at call `i`, position `j` replaced.
pub open spec fn with_scope<V, W>(s: StateView<V, W>, i: int, j: int, sc: ScopeView<V, W>) -> StateView<V, W> {
    StateView { stacks: s.stacks.update(i, s.stacks[i].update(j, sc)), reversed: s.reversed }
}

/// The state after a new scope opens on `line` in the current call: the variables of
/// the innermost scope that are usable only after `line` move into the new scope.
pub open spec fn push_scope_spec<V, W>(s: StateView<V, W>, line: int) -> StateView<V, W> {
    let n = s.stacks.len();
    let st = s.stacks[n - 1];
    let top = st[st.len() - 1];
    let st2 = st.update(
        st.len() - 1,
        ScopeView { vars: keep_vars(top.vars, line), whens: top.whens },
    ).push(ScopeView { vars: moved_vars(top.vars, line), whens: Seq::empty() });
    StateView { stacks: s.stacks.update(n - 1, st2), reversed: s.reversed }
}

/// The state after the innermost scope of the current call closes on `line`: its
/// variables usable only after `line` move out into the scope around it; the outermost
/// scope of a call never closes.
pub open spec fn pop_scope_spec<V, W>(s: StateView<V, W>, line: int) -> StateView<V, W> {
    let n = s.stacks.len();
    let st = s.stacks[n - 1];
    let m = st.len();
    if m <= 1 {
        s
    } else {
        let removed = st[m - 1];
        let under = st[m - 2];
        let st2 = st.drop_last().update(
            m - 2,
            ScopeView {
                vars: under.vars.union_prefer_right(moved_vars(removed.vars, line)),
                whens: under.whens,
            },
        );
        StateView { stacks: s.stacks.update(n - 1, st2), reversed: s.reversed }
    }
}

/// The state after a declaration in the innermost scope of the current call.
pub open spec fn add_var_spec<V, W>(s: StateView<V, W>, name: Seq<char>, var: Variable<V>) -> StateView<V, W> {
    let n = s.stacks.len();
    let m = s.stacks[n - 1].len();
    let top = s.stacks[n - 1][m - 1];
    with_scope(s, n - 1, m - 1, ScopeView { vars: top.vars.insert(name, var), whens: top.whens })
}

/// The state after assigning `value` to a name: the variable it denotes is assigned;
/// when it denotes none, a `var var` variable usable from `line`, with `previous` as
/// its previous value, is declared in the outermost scope of the first call.
pub open spec fn set_var_spec<V, W>(
    s: StateView<V, W>,
    name: Seq<char>,
    value: V,
    line: usize,
    previous: V,
) -> StateView<V, W> {
    match find_spec(s, name) {
        Some((i, j)) => {
            let sc = s.stacks[i][j];
            with_scope(
                s,
                i,
                j,
                ScopeView { vars: sc.vars.insert(name, assigned(sc.vars[name], value)), whens: sc.whens },
            )
        },
        None => {
            let sc = s.stacks[0][0];
            with_scope(
                s,
                0,
                0,
                ScopeView {
                    vars: sc.vars.insert(
                        name,
                        Variable { value, previous, line, type_: VarType::VarVar, life_time: None },
                    ),
                    whens: sc.whens,
                },
            )
        },
    }
}

/// Replacing a scope twice is replacing it once, with the second scope.
pub proof fn lemma_with_scope_twice<V, W>(
    s: StateView<V, W>,
    i: int,
    j: int,
    a: ScopeView<V, W>,
    b: ScopeView<V, W>,
)
    requires
        0 <= i < s.stacks.len(),
        0 <= j < s.stacks[i].len(),
    ensures
        with_scope(with_scope(s, i, j, a), i, j, b) == with_scope(s, i, j, b),
        with_scope(s, i, j, a).stacks.len() == s.stacks.len(),
        with_scope(s, i, j, a).stacks[i].len() == s.stacks[i].len(),
        with_scope(s, i, j, a).stacks[i][j] == a,
{
    let t = with_scope(s, i, j, a);
    assert(t.stacks[i].update(j, b) =~= s.stacks[i].update(j, b));
    assert(with_scope(t, i, j, b).stacks =~= with_scope(s, i, j, b).stacks);
}

/// A scope that `scopes_find` gives declares the name, and no scope inside it does;
/// when it gives none, no scope declares the name.
pub proof fn lemma_scopes_find<V, W>(sc: Seq<ScopeView<V, W>>, name: Seq<char>)
    ensures
        match scopes_find(sc, name) {
            Some(j) => 0 <= j < sc.len() && sc[j].vars.contains_key(name) && forall|k: int|
                j < k < sc.len() ==> !(#[trigger] sc[k].vars.contains_key(name)),
            None => forall|k: int| 0 <= k < sc.len() ==> !(#[trigger] sc[k].vars.contains_key(name)),
        },
    decreases sc.len(),
{
    if sc.len() > 0 {
        let t = sc.drop_last();
        lemma_scopes_find(t, name);
        if !sc.last().vars.contains_key(name) {
            match scopes_find(t, name) {
                Some(j) => {
                    assert(sc[j] == t[j]);
                    assert forall|k: int| j < k < sc.len() implies !(
                    #[trigger] sc[k].vars.contains_key(name)) by {
                        if k < t.len() {
                            assert(sc[k] == t[k]);
                        }
                    }
                },
                None => {
                    assert forall|k: int| 0 <= k < sc.len() implies !(
                    #[trigger] sc[k].vars.contains_key(name)) by {
                        if k < t.len() {
                            assert(sc[k] == t[k]);
                        }
                    }
                },
            }
        }
    }
}

/// `scopes_find` gives the innermost scope that declares the name.
pub proof fn lemma_scopes_find_at<V, W>(sc: Seq<ScopeView<V, W>>, name: Seq<char>, j: int)
    requires
        0 <= j < sc.len(),
        sc[j].vars.contains_key(name),
        forall|k: int| j < k < sc.len() ==> !(#[trigger] sc[k].vars.contains_key(name)),
    ensures
        scopes_find(sc, name) == Some(j),
    decreases sc.len(),
{
    if j < sc.len() - 1 {
        let t = sc.drop_last();
        assert(t[j] == sc[j]);
        assert forall|k: int| j < k < t.len() implies !(#[trigger] t[k].vars.contains_key(name)) by {
            assert(t[k] == sc[k]);
        }
        lemma_scopes_find_at(t, name, j);
    }
}

/// `scopes_find` gives nothing when no scope declares the name.
pub proof fn lemma_scopes_find_none<V, W>(sc: Seq<ScopeView<V, W>>, name: Seq<char>)
    requires
        forall|k: int| 0 <= k < sc.len() ==> !(#[trigger] sc[k].vars.contains_key(name)),
    ensures
        scopes_find(sc, name) is None,
    decreases sc.len(),
{
    if sc.len() > 0 {
        let t = sc.drop_last();
        assert forall|k: int| 0 <= k < t.len() implies !(#[trigger] t[k].vars.contains_key(name)) by {
            assert(t[k] == sc[k]);
        }
        lemma_scopes_find_none(t, name);
    }
}

/// What `stacks_find_from` gives: a call from `i` on whose scopes declare the name, with
/// no call between `i` and it declaring it; or nothing when no call from `i` on does.
pub proof fn lemma_stacks_find<V, W>(st: Seq<Seq<ScopeView<V, W>>>, name: Seq<char>, i: int)
    requires
        0 <= i,
    ensures
        match stacks_find_from(st, name, i) {
            Some((a, b)) => i <= a < st.len() && scopes_find(st[a], name) == Some(b) && forall|k: int|
                i <= k < a ==> #[trigger] scopes_find(st[k], name) is None,
            None => forall|k: int| i <= k < st.len() ==> #[trigger] scopes_find(st[k], name) is None,
        },
    decreases st.len() - i,
{
    if i < st.len() {
        lemma_stacks_find(st, name, i + 1);
    }
}

/// `stacks_find_from` gives the first call from `i` on whose scopes declare the name.
pub proof fn lemma_stacks_find_at<V, W>(st: Seq<Seq<ScopeView<V, W>>>, name: Seq<char>, i: int, a: int, b: int)
    requires
        0 <= i <= a < st.len(),
        scopes_find(st[a], name) == Some(b),
        forall|k: int| i <= k < a ==> #[trigger] scopes_find(st[k], name) is None,
    ensures
        stacks_find_from(st, name, i) == Some((a, b)),
    decreases a - i,
{
    if i < a {
        lemma_stacks_find_at(st, name, i + 1, a, b);
    }
}

/// `stacks_find_from` gives nothing when no call from `i` on declares the name.
pub proof fn lemma_stacks_find_none<V, W>(st: Seq<Seq<ScopeView<V, W>>>, name: Seq<char>, i: int)
    requires
        0 <= i,
        forall|k: int| i <= k < st.len() ==> #[trigger] scopes_find(st[k], name) is None,
    ensures
        stacks_find_from(st, name, i) is None,
    decreases st.len() - i,
{
    if i < st.len() {
        lemma_stacks_find_none(st, name, i + 1);
    }
}

/// The place where a name is found lies in the state and declares the name.
pub proof fn lemma_find_in_range<V, W>(s: StateView<V, W>, name: Seq<char>)
    ensures
        match find_spec(s, name) {
            Some((i, j)) => 0 <= i < s.stacks.len() && 0 <= j < s.stacks[i].len()
                && s.stacks[i][j].vars.contains_key(name),
            None => true,
        },
{
    lemma_stacks_find(s.stacks, name, 0);
    match find_spec(s, name) {
        Some((i, j)) => {
            lemma_scopes_find(s.stacks[i], name);
        },
        None => {},
    }
}

/// `scopes_find` depends only on which scopes declare the name.
pub proof fn lemma_scopes_find_same<V, W>(a: Seq<ScopeView<V, W>>, b: Seq<ScopeView<V, W>>, name: Seq<char>)
    requires
        a.len() == b.len(),
        forall|k: int| 0 <= k < a.len() ==> (#[trigger] a[k].vars.contains_key(name)) == b[k].vars.contains_key(name),
    ensures
        scopes_find(a, name) == scopes_find(b, name),
    decreases a.len(),
{
    if a.len() > 0 {
        let ta = a.drop_last();
        let tb = b.drop_last();
        assert(a.last() == a[a.len() - 1]);
        assert(b.last() == b[b.len() - 1]);
        assert forall|k: int| 0 <= k < ta.len() implies (#[trigger] ta[k].vars.contains_key(name))
            == tb[k].vars.contains_key(name) by {
            assert(ta[k] == a[k]);
            assert(tb[k] == b[k]);
        }
        lemma_scopes_find_same(ta, tb, name);
    }
}

/// `stacks_find_from` depends only on what `scopes_find` gives for each call.
pub proof fn lemma_stacks_find_same<V, W>(
    a: Seq<Seq<ScopeView<V, W>>>,
    b: Seq<Seq<ScopeView<V, W>>>,
    name: Seq<char>,
    i: int,
)
    requires
        a.len() == b.len(),
        forall|k: int| 0 <= k < a.len() ==> #[trigger] scopes_find(a[k], name) == scopes_find(b[k], name),
    ensures
        stacks_find_from(a, name, i) == stacks_find_from(b, name, i),
    decreases a.len() - i,
{
    if 0 <= i < a.len() {
        lemma_stacks_find_same(a, b, name, i + 1);
    }
}

/// Closing a scope right after opening it on the same line gives back the state as it
/// was: the variables that moved into the new scope move back out.
pub proof fn law_pop_scope_undoes_push_scope<V, W>(s: StateView<V, W>, line: int)
    requires
        state_shape(s),
    ensures
        pop_scope_spec(push_scope_spec(s, line), line) == s,
{
    let n = s.stacks.len();
    let st = s.stacks[n - 1];
    assert(st.len() >= 1);
    let m = st.len();
    let top = st[m - 1];
    let p = push_scope_spec(s, line);
    let st2 = p.stacks[n - 1];
    assert(keep_vars(top.vars, line).union_prefer_right(moved_vars(moved_vars(top.vars, line), line))
        =~= top.vars);
    assert(st2.drop_last().update(
        m - 1,
        ScopeView {
            vars: keep_vars(top.vars, line).union_prefer_right(moved_vars(moved_vars(top.vars, line), line)),
            whens: top.whens,
        },
    ) =~= st);
    assert(pop_scope_spec(p, line).stacks =~= s.stacks);
}

/// Opening a scope hides no variable: every name denotes the same variable as before.
pub proof fn law_push_scope_keeps_lookups<V, W>(s: StateView<V, W>, line: int, name: Seq<char>)
    requires
        state_shape(s),
    ensures
        lookup_spec(push_scope_spec(s, line), name) == lookup_spec(s, name),
{
    let n = s.stacks.len();
    let st = s.stacks[n - 1];
    assert(st.len() >= 1);
    let m = st.len() as int;
    let top = st[m - 1];
    let t = push_scope_spec(s, line);
    let st2 = t.stacks[n - 1];
    assert(t.stacks.len() == n);
    assert forall|k: int| 0 <= k < n - 1 implies #[trigger] t.stacks[k] == s.stacks[k] by {}
    lemma_scopes_find(st, name);
    lemma_scopes_find(st2, name);
    // the last call finds the same variable, possibly one scope further in
    let found_old = scopes_find(st, name);
    let found_new = scopes_find(st2, name);
    if top.vars.contains_key(name) {
        assert(found_old == Some(m - 1)) by {
            lemma_scopes_find_at(st, name, m - 1);
        }
        if top.vars[name].line > line {
            assert(st2[m].vars.contains_key(name));
            lemma_scopes_find_at(st2, name, m);
        } else {
            assert(st2[m - 1].vars.contains_key(name));
            assert(!st2[m].vars.contains_key(name));
            lemma_scopes_find_at(st2, name, m - 1);
        }
    } else {
        assert(!st2[m].vars.contains_key(name));
        assert(!st2[m - 1].vars.contains_key(name));
        match found_old {
            Some(j) => {
                assert(j < m - 1);
                assert forall|q: int| j < q < st2.len() implies !(#[trigger] st2[q].vars.contains_key(name)) by {
                    if q < m - 1 {
                        assert(st2[q] == st[q]);
                    }
                }
                assert(st2[j] == st[j]);
                lemma_scopes_find_at(st2, name, j);
            },
            None => {
                assert forall|q: int| 0 <= q < st2.len() implies !(#[trigger] st2[q].vars.contains_key(name)) by {
                    if q < m - 1 {
                        assert(st2[q] == st[q]);
                    }
                }
                lemma_scopes_find_none(st2, name);
            },
        }
    }
    // so the search over the calls stops at the same call
    lemma_stacks_find(s.stacks, name, 0);
    lemma_stacks_find(t.stacks, name, 0);
    assert(found_old is Some <==> found_new is Some);
    match find_spec(s, name) {
        Some((a, b)) => {
            if a < n - 1 {
                assert forall|k: int| 0 <= k < a implies #[trigger] scopes_find(t.stacks[k], name) is None by {
                    assert(t.stacks[k] == s.stacks[k]);
                }
                assert(t.stacks[a] == s.stacks[a]);
                lemma_stacks_find_at(t.stacks, name, 0, a, b);
            } else {
                assert forall|k: int| 0 <= k < n - 1 implies #[trigger] scopes_find(t.stacks[k], name) is None by {
                    assert(t.stacks[k] == s.stacks[k]);
                }
                lemma_stacks_find_at(t.stacks, name, 0, n - 1, found_new->0);
            }
        },
        None => {
            assert forall|k: int| 0 <= k < t.stacks.len() implies #[trigger] scopes_find(t.stacks[k], name) is None by {
                if k < n - 1 {
                    assert(t.stacks[k] == s.stacks[k]);
                }
            }
            lemma_stacks_find_none(t.stacks, name, 0);
        },
    }
}

/// Reading a name right after assigning to it gives the variable it denoted, assigned
/// the new value; when it denoted none, the global `var var` variable that the
/// assignment declared.
pub proof fn law_read_after_assign<V, W>(s: StateView<V, W>, name: Seq<char>, value: V, line: usize, previous: V)
    requires
        state_shape(s),
    ensures
        lookup_spec(set_var_spec(s, name, value, line, previous), name) == Some(match lookup_spec(s, name) {
            Some(var) => assigned(var, value),
            None => Variable { value, previous, line, type_: VarType::VarVar, life_time: None },
        }),
{
    let t = set_var_spec(s, name, value, line, previous);
    lemma_find_in_range(s, name);
    lemma_stacks_find(s.stacks, name, 0);
    match find_spec(s, name) {
        Some((i, j)) => {
            assert forall|k: int| 0 <= k < s.stacks.len() implies #[trigger] scopes_find(s.stacks[k], name)
                == scopes_find(t.stacks[k], name) by {
                if k == i {
                    assert forall|q: int| 0 <= q < s.stacks[k].len() implies (
                    #[trigger] s.stacks[k][q].vars.contains_key(name)) == t.stacks[k][q].vars.contains_key(
                        name,
                    ) by {}
                    lemma_scopes_find_same(s.stacks[k], t.stacks[k], name);
                } else {
                    assert(t.stacks[k] == s.stacks[k]);
                }
            }
            lemma_stacks_find_same(s.stacks, t.stacks, name, 0);
        },
        None => {
            assert(s.stacks[0].len() >= 1);
            assert(scopes_find(s.stacks[0], name) is None);
            lemma_scopes_find(s.stacks[0], name);
            assert forall|q: int| 0 < q < t.stacks[0].len() implies !(
            #[trigger] t.stacks[0][q].vars.contains_key(name)) by {
                assert(t.stacks[0][q] == s.stacks[0][q]);
            }
            lemma_scopes_find_at(t.stacks[0], name, 0);
            lemma_stacks_find_at(t.stacks, name, 0, 0, 0);
        },
    }
}

/// A variable declared in the current call is what its name denotes right after the
/// declaration, unless an earlier call declares the name (earlier calls are searched
/// first).
pub proof fn law_read_after_declare<V, W>(s: StateView<V, W>, name: Seq<char>, var: Variable<V>)
    requires
        state_shape(s),
        forall|k: int| 0 <= k < s.stacks.len() - 1 ==> #[trigger] scopes_find(s.stacks[k], name) is None,
    ensures
        lookup_spec(add_var_spec(s, name, var), name) == Some(var),
{
    let n = s.stacks.len();
    assert(s.stacks[n - 1].len() >= 1);
    let m = s.stacks[n - 1].len();
    let t = add_var_spec(s, name, var);
    assert forall|k: int| 0 <= k < n - 1 implies #[trigger] scopes_find(t.stacks[k], name) is None by {
        assert(t.stacks[k] == s.stacks[k]);
    }
    lemma_scopes_find_at(t.stacks[n - 1], name, m - 1);
    lemma_stacks_find_at(t.stacks, name, 0, n - 1, m - 1);
}

/// Reversing twice gives back the direction the program ran in.
pub proof fn law_toggle_reverse_twice<V, W>(s: StateView<V, W>)
    ensures
        (StateView { reversed: !(StateView { reversed: !s.reversed, ..s }).reversed, ..s }) == s,
{
}

/// The values that a list of references points to.
pub open spec fn deref_all<W>(s: Seq<&W>) -> Seq<W> {
    s.map_values(|w: &W| *w)
}

/// The `when` watchers of a call's scopes, from the outermost scope in.
pub open spec fn scopes_whens<V, W>(sc: Seq<ScopeView<V, W>>) -> Seq<W>
    decreases sc.len(),
{
    if sc.len() == 0 {
        Seq::empty()
    } else {
        scopes_whens(sc.drop_last()) + sc.last().whens
    }
}

/// The `when` watchers of all calls, from the first call on.
pub open spec fn stacks_whens<V, W>(st: Seq<Seq<ScopeView<V, W>>>) -> Seq<W>
    decreases st.len(),
{
    if st.len() == 0 {
        Seq::empty()
    } else {
        stacks_whens(st.drop_last()) + scopes_whens(st.last())
    }
}

/// The state after a call starts: a new stack of scopes with one empty scope.
pub open spec fn push_call_spec<V, W>(s: StateView<V, W>) -> StateView<V, W> {
    StateView { stacks: s.stacks.push(seq![ScopeView { vars: Map::empty(), whens: Seq::empty() }]), ..s }
}

/// The state after the current call ends: its scopes are dropped.
pub open spec fn pop_call_spec<V, W>(s: StateView<V, W>) -> StateView<V, W> {
    StateView { stacks: s.stacks.drop_last(), ..s }
}

/// A call that ends right after it starts leaves the caller's scopes as they were.
pub proof fn law_pop_call_undoes_push_call<V, W>(s: StateView<V, W>)
    ensures
        pop_call_spec(push_call_spec(s)) == s,
{
    assert(push_call_spec(s).stacks.drop_last() =~= s.stacks);
}

/// Whatever a call's body does to the scopes of its own call (it may open scopes and
/// declare variables, and stop at any point, an error included), ending the call
/// leaves the state as it was before the call: as many calls, each as it was.
pub proof fn law_call_leaves_caller_state<V, W>(s: StateView<V, W>, frame: Seq<ScopeView<V, W>>)
    ensures
        ({
            let started = push_call_spec(s);
            let during = StateView { stacks: started.stacks.update(s.stacks.len() as int, frame), ..started };
            pop_call_spec(during) == s
        }),
{
    let started = push_call_spec(s);
    let during = StateView { stacks: started.stacks.update(s.stacks.len() as int, frame), ..started };
    assert(during.stacks.drop_last() =~= s.stacks);
}

/// The scopes of a running program
#[derive(Debug)]
pub struct InterpreterState<V, W> {
    scope_stacks: Vec<Vec<ScopeState<V, W>>>,
    reversed: bool,
}

/// What the scopes of one call hold.
pub open spec fn stack_view<V, W>(st: Vec<ScopeState<V, W>>) -> Seq<ScopeView<V, W>> {
    st@.map_values(|sc: ScopeState<V, W>| sc@)
}

impl<V, W> View for InterpreterState<V, W> {
    type V = StateView<V, W>;

    closed spec fn view(&self) -> StateView<V, W> {
        StateView {
            stacks: self.scope_stacks@.map_values(|st: Vec<ScopeState<V, W>>| stack_view(st)),
            reversed: self.reversed,
        }
    }
}

impl<V, W> InterpreterState<V, W> {
    /// There is at least one call, each call has a scope, and no scope declares a name twice.
    pub closed spec fn wf(&self) -> bool {
        &&& self.scope_stacks@.len() >= 1
        &&& forall|i: int|
            0 <= i < self.scope_stacks@.len() ==> #[trigger] self.scope_stacks@[i]@.len() >= 1
        &&& forall|i: int, j: int|
            0 <= i < self.scope_stacks@.len() && 0 <= j < self.scope_stacks@[i]@.len()
                ==> #[trigger] self.scope_stacks@[i]@[j].vars.wf()
    }

    /// The shape of a well-formed state.
    pub proof fn lemma_wf_shape(&self)
        requires
            self.wf(),
        ensures
            state_shape(self@),
    {
        assert forall|i: int| 0 <= i < self@.stacks.len() implies #[trigger] self@.stacks[i].len()
            >= 1 by {
            assert(self.scope_stacks@[i]@.len() >= 1);
        }
    }

    /// The state of a program that has not run yet: one call with one empty scope.
    pub fn new() -> (r: Self)
        ensures
            r.wf(),
            r@.stacks.len() == 1,
            r@.stacks[0].len() == 1,
            r@.stacks[0][0].vars == Map::<Seq<char>, Variable<V>>::empty(),
            r@.stacks[0][0].whens == Seq::<W>::empty(),
            !r@.reversed,
    {
        let mut st: Vec<ScopeState<V, W>> = Vec::new();
        st.push(ScopeState::new());
        let mut stacks: Vec<Vec<ScopeState<V, W>>> = Vec::new();
        stacks.push(st);
        InterpreterState { scope_stacks: stacks, reversed: false }
    }

    /// Whether the program runs reversed.
    pub fn is_reversed(&self) -> (r: bool)
        ensures
            r == self@.reversed,
    {
        self.reversed
    }

    /// Turns the direction in which the program runs around.
    pub fn toggle_reverse(&mut self)
        requires
            old(self).wf(),
        ensures
            final(self).wf(),
            final(self)@ == (StateView { reversed: !old(self)@.reversed, ..old(self)@ }),
    {
        self.reversed = !self.reversed;
    }

    /// The number of calls that are running.
    pub fn call_depth(&self) -> (r: usize)
        ensures
            r == self@.stacks.len(),
    {
        self.scope_stacks.len()
    }

    /// The number of scopes open in the current call.
    pub fn scope_depth(&self) -> (r: usize)
        requires
            self.wf(),
        ensures
            r == self@.stacks.last().len(),
    {
        let n = self.scope_stacks.len();
        self.scope_stacks[n - 1].len()
    }

    /// Opens a scope on `line` in the current call; the variables of the innermost scope
    /// that are usable only after `line` move into it.
    pub fn push_scope(&mut self, line: usize)
        requires
            old(self).wf(),
        ensures
            final(self).wf(),
            final(self)@ == push_scope_spec(old(self)@, line as int),
    {
        let ghost s0 = self@;
        let ghost n = self.scope_stacks@.len();
        let ghost old_stacks = self.scope_stacks@;
        let mut st = self.scope_stacks.pop().unwrap();
        let ghost st0 = st@;
        let ghost m = st@.len();
        assert(old_stacks[n - 1]@.len() >= 1);
        assert(old_stacks[n - 1]@[m - 1].vars.wf());
        let top = st.pop().unwrap();
        let ScopeState { vars, whens } = top;
        let (keep, moved) = vars.split_by_line(line);
        st.push(ScopeState { vars: keep, whens });
        st.push(ScopeState { vars: moved, whens: Vec::new() });
        self.scope_stacks.push(st);
        proof {
            let target = push_scope_spec(s0, line as int);
            assert(stack_view(st) =~= target.stacks[n - 1]);
            assert(self@.stacks =~= target.stacks);
            assert forall|i: int, j: int|
                0 <= i < self.scope_stacks@.len() && 0 <= j < self.scope_stacks@[i]@.len()
                    implies #[trigger] self.scope_stacks@[i]@[j].vars.wf() by {
                if i < n - 1 {
                    assert(self.scope_stacks@[i] == old_stacks[i]);
                } else if j < m - 1 {
                    assert(self.scope_stacks@[i]@[j] == st0[j]);
                    assert(old_stacks[n - 1]@[j].vars.wf());
                }
            }
            assert forall|i: int| 0 <= i < self.scope_stacks@.len() implies #[trigger] self.scope_stacks@[i]@.len() >= 1 by {
                if i < n - 1 {
                    assert(self.scope_stacks@[i] == old_stacks[i]);
                }
            }
        }
    }

    /// Closes the innermost scope of the current call on `line`; its variables usable only
    /// after `line` move out into the scope around it. The outermost scope of a call
    /// stays open.
    pub fn pop_scope(&mut self, line: usize)
        requires
            old(self).wf(),
        ensures
            final(self).wf(),
            final(self)@ == pop_scope_spec(old(self)@, line as int),
    {
        let ghost s0 = self@;
        let ghost n = self.scope_stacks@.len();
        let ghost old_stacks = self.scope_stacks@;
        let mut st = self.scope_stacks.pop().unwrap();
        let ghost st0 = st@;
        let ghost m = st@.len();
        if st.len() == 1 {
            self.scope_stacks.push(st);
            proof {
                assert(self.scope_stacks@ =~= old_stacks);
            }
            return;
        }
        assert(old_stacks[n - 1]@[m - 1].vars.wf());
        assert(old_stacks[n - 1]@[m - 2].vars.wf());
        let removed = st.pop().unwrap();
        let mut under = st.pop().unwrap();
        under.vars.absorb_after_line(removed.vars, line);
        st.push(under);
        self.scope_stacks.push(st);
        proof {
            let target = pop_scope_spec(s0, line as int);
            assert(stack_view(st) =~= target.stacks[n - 1]);
            assert(self@.stacks =~= target.stacks);
            assert forall|i: int, j: int|
                0 <= i < self.scope_stacks@.len() && 0 <= j < self.scope_stacks@[i]@.len()
                    implies #[trigger] self.scope_stacks@[i]@[j].vars.wf() by {
                if i < n - 1 {
                    assert(self.scope_stacks@[i] == old_stacks[i]);
                } else if j < m - 2 {
                    assert(self.scope_stacks@[i]@[j] == st0[j]);
                    assert(old_stacks[n - 1]@[j].vars.wf());
                }
            }
            assert forall|i: int| 0 <= i < self.scope_stacks@.len() implies #[trigger] self.scope_stacks@[i]@.len() >= 1 by {
                if i < n - 1 {
                    assert(self.scope_stacks@[i] == old_stacks[i]);
                }
            }
        }
    }

    /// Replaces the innermost scope of the current call.
    fn replace_top(&mut self, f_vars: VariableState<V>, f_whens: Vec<W>)
        requires
            old(self).wf(),
            f_vars.wf(),
        ensures
            final(self).wf(),
            final(self)@ == with_scope(
                old(self)@,
                old(self)@.stacks.len() - 1,
                old(self)@.stacks.last().len() - 1,
                ScopeView { vars: f_vars@, whens: f_whens@ },
            ),
    {
        let ghost s0 = self@;
        let ghost n = self.scope_stacks@.len();
        let ghost old_stacks = self.scope_stacks@;
        let mut st = self.scope_stacks.pop().unwrap();
        let ghost st0 = st@;
        let ghost m = st@.len();
        assert(old_stacks[n - 1]@.len() >= 1);
        let _ = st.pop();
        st.push(ScopeState { vars: f_vars, whens: f_whens });
        self.scope_stacks.push(st);
        proof {
            let target = with_scope(s0, n - 1, m - 1, ScopeView { vars: f_vars@, whens: f_whens@ });
            assert(stack_view(st) =~= target.stacks[n - 1]);
            assert(self@.stacks =~= target.stacks);
            assert forall|i: int, j: int|
                0 <= i < self.scope_stacks@.len() && 0 <= j < self.scope_stacks@[i]@.len()
                    implies #[trigger] self.scope_stacks@[i]@[j].vars.wf() by {
                if i < n - 1 {
                    assert(self.scope_stacks@[i] == old_stacks[i]);
                } else if j < m - 1 {
                    assert(self.scope_stacks@[i]@[j] == st0[j]);
                    assert(old_stacks[n - 1]@[j].vars.wf());
                }
            }
            assert forall|i: int| 0 <= i < self.scope_stacks@.len() implies #[trigger] self.scope_stacks@[i]@.len() >= 1 by {
                if i < n - 1 {
                    assert(self.scope_stacks@[i] == old_stacks[i]);
                }
            }
        }
    }

    /// Takes the innermost scope of the current call out, leaving an empty one.
    fn take_top(&mut self) -> (r: ScopeState<V, W>)
        requires
            old(self).wf(),
        ensures
            final(self).wf(),
            r.vars.wf(),
            r@ == old(self)@.stacks.last().last(),
            final(self)@ == with_scope(
                old(self)@,
                old(self)@.stacks.len() - 1,
                old(self)@.stacks.last().len() - 1,
                ScopeView { vars: Map::empty(), whens: Seq::empty() },
            ),
    {
        let ghost s0 = self@;
        let ghost n = self.scope_stacks@.len();
        let ghost old_stacks = self.scope_stacks@;
        let mut st = self.scope_stacks.pop().unwrap();
        let ghost st0 = st@;
        let ghost m = st@.len();
        assert(old_stacks[n - 1]@.len() >= 1);
        assert(old_stacks[n - 1]@[m - 1].vars.wf());
        let top = st.pop().unwrap();
        st.push(ScopeState::new());
        self.scope_stacks.push(st);
        proof {
            let target = with_scope(s0, n - 1, m - 1, ScopeView { vars: Map::empty(), whens: Seq::empty() });
            assert(stack_view(st) =~= target.stacks[n - 1]);
            assert(self@.stacks =~= target.stacks);
            assert forall|i: int, j: int|
                0 <= i < self.scope_stacks@.len() && 0 <= j < self.scope_stacks@[i]@.len()
                    implies #[trigger] self.scope_stacks@[i]@[j].vars.wf() by {
                if i < n - 1 {
                    assert(self.scope_stacks@[i] == old_stacks[i]);
                } else if j < m - 1 {
                    assert(self.scope_stacks@[i]@[j] == st0[j]);
                    assert(old_stacks[n - 1]@[j].vars.wf());
                }
            }
            assert forall|i: int| 0 <= i < self.scope_stacks@.len() implies #[trigger] self.scope_stacks@[i]@.len() >= 1 by {
                if i < n - 1 {
                    assert(self.scope_stacks@[i] == old_stacks[i]);
                }
            }
        }
        top
    }

    /// Declares a variable in the innermost scope of the current call; its value is also
    /// its previous value.
    pub fn add_var(
        &mut self,
        name: &str,
        value: V,
        line: usize,
        type_: VarType,
        life_time: Option<LifeTime>,
    ) where V: Clone
        requires
            old(self).wf(),
        ensures
            final(self).wf(),
            final(self)@ == add_var_spec(
                old(self)@,
                name@,
                Variable {
                    value,
                    previous: final(self)@.stacks.last().last().vars[name@].previous,
                    line,
                    type_,
                    life_time,
                },
            ),
            vstd::pervasive::cloned::<V>(value, final(self)@.stacks.last().last().vars[name@].previous),
    {
        let ghost s0 = self@;
        let top = self.take_top();
        let ScopeState { mut vars, whens } = top;
        vars.declare_var(name, value, line, type_, life_time);
        self.replace_top(vars, whens);
        proof {
            let n = s0.stacks.len();
            let m = s0.stacks[n - 1].len();
            lemma_with_scope_twice(
                s0,
                n - 1,
                m - 1,
                ScopeView { vars: Map::empty(), whens: Seq::empty() },
                ScopeView { vars: vars@, whens: whens@ },
            );
        }
    }

    /// Activates a `when` watcher in the innermost scope of the current call.
    pub fn push_when(&mut self, when: W)
        requires
            old(self).wf(),
        ensures
            final(self).wf(),
            final(self)@ == with_scope(
                old(self)@,
                old(self)@.stacks.len() - 1,
                old(self)@.stacks.last().len() - 1,
                ScopeView {
                    vars: old(self)@.stacks.last().last().vars,
                    whens: old(self)@.stacks.last().last().whens.push(when),
                },
            ),
    {
        let ghost s0 = self@;
        let top = self.take_top();
        let ScopeState { vars, mut whens } = top;
        whens.push(when);
        self.replace_top(vars, whens);
        proof {
            let n = s0.stacks.len();
            let m = s0.stacks[n - 1].len();
            lemma_with_scope_twice(
                s0,
                n - 1,
                m - 1,
                ScopeView { vars: Map::empty(), whens: Seq::empty() },
                ScopeView { vars: vars@, whens: whens@ },
            );
        }
    }

    /// Starts a call: a new stack of scopes with one empty scope.
    pub fn push_call(&mut self)
        requires
            old(self).wf(),
        ensures
            final(self).wf(),
            final(self)@ == push_call_spec(old(self)@),
    {
        let ghost old_stacks = self.scope_stacks@;
        let mut st: Vec<ScopeState<V, W>> = Vec::new();
        st.push(ScopeState::new());
        self.scope_stacks.push(st);
        proof {
            assert(stack_view(st) =~= seq![ScopeView { vars: Map::<Seq<char>, Variable<V>>::empty(), whens: Seq::<W>::empty() }]);
            assert(self@.stacks =~= old(self)@.stacks.push(seq![ScopeView { vars: Map::empty(), whens: Seq::empty() }]));
            assert forall|i: int, j: int|
                0 <= i < self.scope_stacks@.len() && 0 <= j < self.scope_stacks@[i]@.len()
                    implies #[trigger] self.scope_stacks@[i]@[j].vars.wf() by {
                if i < old_stacks.len() {
                    assert(self.scope_stacks@[i] == old_stacks[i]);
                }
            }
            assert forall|i: int| 0 <= i < self.scope_stacks@.len() implies #[trigger] self.scope_stacks@[i]@.len() >= 1 by {
                if i < old_stacks.len() {
                    assert(self.scope_stacks@[i] == old_stacks[i]);
                }
            }
        }
    }

    /// Ends the current call, dropping its scopes; the first call never ends.
    pub fn pop_call(&mut self)
        requires
            old(self).wf(),
            old(self)@.stacks.len() >= 2,
        ensures
            final(self).wf(),
            final(self)@ == pop_call_spec(old(self)@),
    {
        let ghost old_stacks = self.scope_stacks@;
        let _ = self.scope_stacks.pop();
        proof {
            assert(self@.stacks =~= old(self)@.stacks.drop_last());
            assert forall|i: int, j: int|
                0 <= i < self.scope_stacks@.len() && 0 <= j < self.scope_stacks@[i]@.len()
                    implies #[trigger] self.scope_stacks@[i]@[j].vars.wf() by {
                assert(self.scope_stacks@[i] == old_stacks[i]);
            }
            assert forall|i: int| 0 <= i < self.scope_stacks@.len() implies #[trigger] self.scope_stacks@[i]@.len() >= 1 by {
                assert(self.scope_stacks@[i] == old_stacks[i]);
            }
        }
    }

    /// Where a name is looked up: the calls from the first to the last, and in each
    /// call its scopes from the innermost out.
    pub fn find_var(&self, name: &str) -> (r: Option<(usize, usize)>)
        requires
            self.wf(),
        ensures
            match r {
                Some((i, j)) => find_spec(self@, name@) == Some((i as int, j as int)),
                None => find_spec(self@, name@) is None,
            },
    {
        let n = self.scope_stacks.len();
        let mut i: usize = 0;
        while i < n
            invariant
                self.wf(),
                n == self@.stacks.len(),
                i <= n,
                find_spec(self@, name@) == stacks_find_from(self@.stacks, name@, i as int),
            decreases n - i,
        {
            let st = &self.scope_stacks[i];
            let ghost sc = self@.stacks[i as int];
            let m = st.len();
            let mut j: usize = m;
            assert(sc.take(m as int) =~= sc);
            while j > 0
                invariant
                    self.wf(),
                    i < n,
                    n == self@.stacks.len(),
                    st == self.scope_stacks@[i as int],
                    sc == self@.stacks[i as int],
                    m == sc.len(),
                    j <= m,
                    find_spec(self@, name@) == stacks_find_from(self@.stacks, name@, i as int),
                    scopes_find(sc, name@) == scopes_find(sc.take(j as int), name@),
                decreases j,
            {
                assert(st@[j - 1].vars.wf());
                let found = st[j - 1].vars.contains(name);
                assert(sc[j - 1] == st@[j - 1]@);
                assert(sc.take(j as int).drop_last() =~= sc.take(j - 1));
                if found {
                    proof {
                        assert(sc.take(j as int).last() == sc[j - 1]);
                        assert(scopes_find(sc.take(j as int), name@) == Some(j - 1));
                        assert(stacks_find_from(self@.stacks, name@, i as int) == Some((i as int, j - 1)));
                    }
                    return Some((i, j - 1));
                }
                j = j - 1;
            }
            i = i + 1;
        }
        None
    }

    /// Takes the scope at call `i`, position `j` out, leaving an empty one.
    fn take_scope(&mut self, i: usize, j: usize) -> (r: ScopeState<V, W>)
        requires
            old(self).wf(),
            i < old(self)@.stacks.len(),
            j < old(self)@.stacks[i as int].len(),
        ensures
            final(self).wf(),
            r.vars.wf(),
            r@ == old(self)@.stacks[i as int][j as int],
            final(self)@ == with_scope(
                old(self)@,
                i as int,
                j as int,
                ScopeView { vars: Map::empty(), whens: Seq::empty() },
            ),
    {
        let ghost s0 = self@;
        let ghost old_stacks = self.scope_stacks@;
        let mut st = self.scope_stacks.remove(i);
        let ghost st0 = st@;
        assert(st0 == old_stacks[i as int]@);
        assert(old_stacks[i as int]@[j as int].vars.wf());
        let sc = st.remove(j);
        st.insert(j, ScopeState::new());
        self.scope_stacks.insert(i, st);
        proof {
            let target = with_scope(s0, i as int, j as int, ScopeView { vars: Map::empty(), whens: Seq::empty() });
            assert(st@ =~= st0.update(j as int, st@[j as int]));
            assert(stack_view(st) =~= target.stacks[i as int]);
            assert(self.scope_stacks@ =~= old_stacks.update(i as int, st));
            assert(self@.stacks =~= target.stacks);
            assert forall|a: int, b: int|
                0 <= a < self.scope_stacks@.len() && 0 <= b < self.scope_stacks@[a]@.len()
                    implies #[trigger] self.scope_stacks@[a]@[b].vars.wf() by {
                if a != i {
                    assert(self.scope_stacks@[a] == old_stacks[a]);
                } else if b != j {
                    assert(self.scope_stacks@[a]@[b] == st0[b]);
                    assert(old_stacks[a]@[b].vars.wf());
                }
            }
            assert forall|a: int| 0 <= a < self.scope_stacks@.len() implies #[trigger] self.scope_stacks@[a]@.len() >= 1 by {
                if a != i {
                    assert(self.scope_stacks@[a] == old_stacks[a]);
                }
            }
        }
        sc
    }

    /// Puts a scope at call `i`, position `j`.
    fn put_scope(&mut self, i: usize, j: usize, sc: ScopeState<V, W>)
        requires
            old(self).wf(),
            sc.vars.wf(),
            i < old(self)@.stacks.len(),
            j < old(self)@.stacks[i as int].len(),
        ensures
            final(self).wf(),
            final(self)@ == with_scope(old(self)@, i as int, j as int, sc@),
    {
        let ghost s0 = self@;
        let ghost scv = sc@;
        let ghost old_stacks = self.scope_stacks@;
        let mut st = self.scope_stacks.remove(i);
        let ghost st0 = st@;
        assert(st0 == old_stacks[i as int]@);
        let _ = st.remove(j);
        st.insert(j, sc);
        self.scope_stacks.insert(i, st);
        proof {
            let target = with_scope(s0, i as int, j as int, scv);
            assert(st@ =~= st0.update(j as int, st@[j as int]));
            assert(stack_view(st) =~= target.stacks[i as int]);
            assert(self.scope_stacks@ =~= old_stacks.update(i as int, st));
            assert(self@.stacks =~= target.stacks);
            assert forall|a: int, b: int|
                0 <= a < self.scope_stacks@.len() && 0 <= b < self.scope_stacks@[a]@.len()
                    implies #[trigger] self.scope_stacks@[a]@[b].vars.wf() by {
                if a != i {
                    assert(self.scope_stacks@[a] == old_stacks[a]);
                } else if b != j {
                    assert(self.scope_stacks@[a]@[b] == st0[b]);
                    assert(old_stacks[a]@[b].vars.wf());
                }
            }
            assert forall|a: int| 0 <= a < self.scope_stacks@.len() implies #[trigger] self.scope_stacks@[a]@.len() >= 1 by {
                if a != i {
                    assert(self.scope_stacks@[a] == old_stacks[a]);
                }
            }
        }
    }

    /// Assigns a value to a name: the variable that it denotes is assigned (a variable
    /// that cannot be reassigned stays as it was); when it denotes none, a `var var`
    /// variable usable from `line` is declared in the outermost scope of the first call.
    pub fn set_var(&mut self, name: &str, value: V, line: usize) where V: Clone
        requires
            old(self).wf(),
        ensures
            final(self).wf(),
            final(self)@ == set_var_spec(
                old(self)@,
                name@,
                value,
                line,
                final(self)@.stacks[0][0].vars[name@].previous,
            ),
            find_spec(old(self)@, name@) is None ==> vstd::pervasive::cloned::<V>(
                value,
                final(self)@.stacks[0][0].vars[name@].previous,
            ),
    {
        let ghost s0 = self@;
        proof {
            self.lemma_wf_shape();
            lemma_find_in_range(s0, name@);
        }
        match self.find_var(name) {
            Some((i, j)) => {
                let mut sc = self.take_scope(i, j);
                let _ = sc.vars.set_var(name, value);
                let ghost scv = sc@;
                self.put_scope(i, j, sc);
                proof {
                    lemma_with_scope_twice(
                        s0,
                        i as int,
                        j as int,
                        ScopeView { vars: Map::empty(), whens: Seq::empty() },
                        scv,
                    );
                }
            },
            None => {
                let mut sc = self.take_scope(0, 0);
                sc.vars.declare_var(name, value, line, VarType::VarVar, None);
                let ghost scv = sc@;
                self.put_scope(0, 0, sc);
                proof {
                    lemma_with_scope_twice(
                        s0,
                        0,
                        0,
                        ScopeView { vars: Map::empty(), whens: Seq::empty() },
                        scv,
                    );
                }
            },
        }
    }

    /// The `when` watchers of all scopes: the calls in order, in each call the scopes
    /// from the outermost in, in each scope in the order they were activated.
    pub fn whens(&self) -> (r: Vec<&W>)
        requires
            self.wf(),
        ensures
            deref_all(r@) == stacks_whens(self@.stacks),
    {
        let n = self.scope_stacks.len();
        let mut out: Vec<&W> = Vec::new();
        let mut i: usize = 0;
        proof {
            assert(self@.stacks.take(0) =~= Seq::<Seq<ScopeView<V, W>>>::empty());
        }
        while i < n
            invariant
                n == self@.stacks.len(),
                i <= n,
                deref_all(out@) == stacks_whens(self@.stacks.take(i as int)),
            decreases n - i,
        {
            let st = &self.scope_stacks[i];
            let ghost sc = self@.stacks[i as int];
            let m = st.len();
            let mut j: usize = 0;
            let ghost base = deref_all(out@);
            proof {
                assert(sc.take(0) =~= Seq::<ScopeView<V, W>>::empty());
                assert(base + scopes_whens(sc.take(0)) =~= base);
            }
            while j < m
                invariant
                    i < n,
                    n == self@.stacks.len(),
                    st == self.scope_stacks@[i as int],
                    sc == self@.stacks[i as int],
                    m == sc.len(),
                    j <= m,
                    base == stacks_whens(self@.stacks.take(i as int)),
                    deref_all(out@) == base + scopes_whens(sc.take(j as int)),
                decreases m - j,
            {
                let ws_ = &st[j].whens;
                let w = ws_.len();
                let mut k: usize = 0;
                let ghost base2 = deref_all(out@);
                proof {
                    assert(sc[j as int].whens == ws_@);
                    assert(ws_@.take(0) =~= Seq::<W>::empty());
                    assert(base2 + ws_@.take(0) =~= base2);
                }
                while k < w
                    invariant
                        w == ws_@.len(),
                        k <= w,
                        deref_all(out@) == base2 + ws_@.take(k as int),
                    decreases w - k,
                {
                    let ghost before = out@;
                    let wr = &ws_[k];
                    out.push(wr);
                    k = k + 1;
                    proof {
                        assert(*wr == ws_@[k - 1]);
                        assert(deref_all(out@) =~= deref_all(before).push(ws_@[k - 1]));
                        assert(ws_@.take(k as int) =~= ws_@.take(k - 1).push(ws_@[k - 1]));
                        assert(deref_all(out@) =~= base2 + ws_@.take(k as int));
                    }
                }
                proof {
                    assert(ws_@.take(w as int) =~= ws_@);
                    assert(sc.take(j + 1).drop_last() =~= sc.take(j as int));
                    assert(sc.take(j + 1).last() == sc[j as int]);
                    assert(deref_all(out@) =~= base + scopes_whens(sc.take(j + 1)));
                }
                j = j + 1;
            }
            proof {
                assert(sc.take(m as int) =~= sc);
                assert(self@.stacks.take(i + 1).drop_last() =~= self@.stacks.take(i as int));
                assert(self@.stacks.take(i + 1).last() == sc);
            }
            i = i + 1;
        }
        proof {
            assert(self@.stacks.take(n as int) =~= self@.stacks);
        }
        out
    }

    /// Removes the variable that a name denotes, if any (a variable whose life time
    /// has run out).
    pub fn forget_var(&mut self, name: &str)
        requires
            old(self).wf(),
        ensures
            final(self).wf(),
            final(self)@ == match find_spec(old(self)@, name@) {
                Some((i, j)) => with_scope(
                    old(self)@,
                    i,
                    j,
                    ScopeView {
                        vars: old(self)@.stacks[i][j].vars.remove(name@),
                        whens: old(self)@.stacks[i][j].whens,
                    },
                ),
                None => old(self)@,
            },
    {
        let ghost s0 = self@;
        proof {
            lemma_find_in_range(s0, name@);
        }
        match self.find_var(name) {
            Some((i, j)) => {
                let mut sc = self.take_scope(i, j);
                sc.vars.remove_var(name);
                let ghost scv = sc@;
                self.put_scope(i, j, sc);
                proof {
                    lemma_with_scope_twice(
                        s0,
                        i as int,
                        j as int,
                        ScopeView { vars: Map::empty(), whens: Seq::empty() },
                        scv,
                    );
                }
            },
            None => {},
        }
    }

    /// The variable that a name denotes.
    pub fn get_var(&self, name: &str) -> (r: Option<&Variable<V>>)
        requires
            self.wf(),
        ensures
            r == (match lookup_spec(self@, name@) {
                Some(v) => Some(&v),
                None => None,
            }),
    {
        match self.find_var(name) {
            Some((i, j)) => {
                proof {
                    lemma_find_in_range(self@, name@);
                }
                assert(self.scope_stacks@[i as int]@[j as int].vars.wf());
                self.scope_stacks[i][j].vars.get_var(name)
            },
            None => None,
        }
    }
}

/// What a name denotes when both a variable and a function could be meant
#[derive(Debug, Clone, Copy, PartialEq, Eq, Structural)]
pub enum DefineKind {
    Var,
    Func,
}

/// What a name denotes, given the line from which the function of that name is usable
/// (`Some(None)` for a native function, `None` when there is no function), the line of
/// the variable of that name (if any), and whether that variable holds the function.
pub open spec fn choose_definition_spec(
    func: Option<Option<usize>>,
    var_line: Option<usize>,
    var_holds_func: bool,
) -> Option<DefineKind> {
    match func {
        None => match var_line {
            Some(_) => Some(DefineKind::Var),
            None => None,
        },
        Some(body_line) => match var_line {
            None => Some(DefineKind::Func),
            Some(line) => if var_holds_func {
                Some(DefineKind::Func)
            } else {
                match body_line {
                    Some(b) => if line > b {
                        Some(DefineKind::Var)
                    } else {
                        Some(DefineKind::Func)
                    },
                    None => Some(DefineKind::Var),
                }
            },
        },
    }
}

/// Decides what a name denotes when a variable and a function may both carry it: a
/// variable that holds the function is the function; otherwise the later definition
/// wins, and a variable always wins over a native function.
pub fn choose_definition(func: Option<Option<usize>>, var_line: Option<usize>, var_holds_func: bool) -> (r: Option<
    DefineKind,
>)
    ensures
        r == choose_definition_spec(func, var_line, var_holds_func),
{
    match func {
        None => match var_line {
            Some(_) => Some(DefineKind::Var),
            None => None,
        },
        Some(body_line) => match var_line {
            None => Some(DefineKind::Func),
            Some(line) => if var_holds_func {
                Some(DefineKind::Func)
            } else {
                match body_line {
                    Some(b) => if line > b {
                        Some(DefineKind::Var)
                    } else {
                        Some(DefineKind::Func)
                    },
                    None => Some(DefineKind::Var),
                }
            },
        },
    }
}

/// When a name carries both a function defined in the program (its body on line `b`)
/// and a variable declared on line `l` that does not hold it, the later definition
/// wins: the variable exactly when it comes after the function's body line. A
/// variable that holds the function denotes the function; a variable wins over a
/// native function; a lone function or variable is what the name denotes.
pub proof fn law_later_definition_wins(b: usize, l: usize, holds: bool)
    ensures
        choose_definition_spec(Some(Some(b)), Some(l), false) == Some(DefineKind::Var) <==> b < l,
        choose_definition_spec(Some(Some(b)), Some(l), false) == Some(DefineKind::Func) <==> l <= b,
        choose_definition_spec(Some(Some(b)), Some(l), true) == Some(DefineKind::Func),
        choose_definition_spec(Some(None), Some(l), false) == Some(DefineKind::Var),
        choose_definition_spec(Some(Some(b)), None, holds) == Some(DefineKind::Func),
        choose_definition_spec(None, Some(l), holds) == Some(DefineKind::Var),
        choose_definition_spec(None, None, holds) is None,
{
}

/// The number of entries is the size of the map when the names are distinct.
pub proof fn lemma_entries_map_len<V>(s: Seq<(String, Variable<V>)>)
    requires
        names_unique(s),
    ensures
        entries_map(s).dom().finite(),
        entries_map(s).len() == s.len(),
    decreases s.len(),
{
    if s.len() > 0 {
        let t = s.drop_last();
        assert(names_unique(t));
        lemma_entries_map_len(t);
        lemma_entries_map_key(t, s.last().0@);
        if entries_map(t).contains_key(s.last().0@) {
            let i = choose|i: int| 0 <= i < t.len() && t[i].0@ == s.last().0@;
            assert(s[i].0@ == s[s.len() - 1].0@);
        }
    }
}

} // verus!
