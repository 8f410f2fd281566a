//! Expressions: operators, unary operators, and how whitespace around the operators
//! decides which operation is applied first.
use vstd::prelude::*;
use std::cmp::Ordering;
use crate::interpreter::parsers::{lemma_ws_end, ws_count, ws_count_spec, ws_end};

verus! {

/// An expression over atoms of type `A`
#[derive(Debug)]
#[allow(inconsistent_fields)]
pub enum Expression<A> {
    Atom(A),
    UnaryOperation { operator: UnaryOperator, right: Box<Expression<A>> },
    Operation { left: Box<Expression<A>>, operator: Operator, right: Box<Expression<A>> },
}

/// A unary operator: `;` (not) or `-` (minus)
#[derive(Debug, Clone, Copy, PartialEq, Eq, Structural)]
pub enum UnaryOperator {
    Not,
    Minus,
}

/// A binary operator
#[derive(Debug, Clone, Copy)]
pub enum Operator {
    // comparison
    Equal,
    StrictEqual,
    NotEqual,
    StrictNotEqual,
    GreaterThan,
    GreaterThanOrEqual,
    LessThan,
    LessThanOrEqual,
    // logical
    And,
    Or,
    // arithmetic
    Add,
    Subtract,
    Multiply,
    Exponential,
    Divide,
    Modulo,
}

/// Whether `s` holds `c` at `i`.
pub open spec fn char_is(s: Seq<char>, i: int, c: char) -> bool {
    0 <= i < s.len() && s[i] == c
}

/// Whether `s` holds `c` at `i`.
pub fn char_at(s: &[char], i: usize, c: char) -> (r: bool)
    ensures
        r == char_is(s@, i as int, c),
{
    i < s.len() && s[i] == c
}

/// How tightly an operator binds: multiplication, division and modulo bind tighter
/// than the others, exponentiation tightest.
pub open spec fn precedence(op: Operator) -> nat {
    match op {
        Operator::Multiply | Operator::Divide | Operator::Modulo => 1,
        Operator::Exponential => 2,
        _ => 0,
    }
}

/// The operator at `i` and where it ends; the longer spellings are tried first.
pub open spec fn operator_spec(s: Seq<char>, i: int) -> Option<(int, Operator)> {
    if char_is(s, i, '=') && char_is(s, i + 1, '=') && char_is(s, i + 2, '=') {
        Some((i + 3, Operator::StrictEqual))
    } else if char_is(s, i, '=') && char_is(s, i + 1, '=') {
        Some((i + 2, Operator::Equal))
    } else if char_is(s, i, ';') && char_is(s, i + 1, '=') && char_is(s, i + 2, '=') {
        Some((i + 3, Operator::StrictNotEqual))
    } else if char_is(s, i, ';') && char_is(s, i + 1, '=') {
        Some((i + 2, Operator::NotEqual))
    } else if char_is(s, i, '>') && char_is(s, i + 1, '=') {
        Some((i + 2, Operator::GreaterThanOrEqual))
    } else if char_is(s, i, '>') {
        Some((i + 1, Operator::GreaterThan))
    } else if char_is(s, i, '<') && char_is(s, i + 1, '=') {
        Some((i + 2, Operator::LessThanOrEqual))
    } else if char_is(s, i, '<') {
        Some((i + 1, Operator::LessThan))
    } else if char_is(s, i, '&') && char_is(s, i + 1, '&') {
        Some((i + 2, Operator::And))
    } else if char_is(s, i, '|') && char_is(s, i + 1, '|') {
        Some((i + 2, Operator::Or))
    } else if char_is(s, i, '+') {
        Some((i + 1, Operator::Add))
    } else if char_is(s, i, '-') {
        Some((i + 1, Operator::Subtract))
    } else if char_is(s, i, '*') {
        Some((i + 1, Operator::Multiply))
    } else if char_is(s, i, '^') {
        Some((i + 1, Operator::Exponential))
    } else if char_is(s, i, '/') {
        Some((i + 1, Operator::Divide))
    } else if char_is(s, i, '%') {
        Some((i + 1, Operator::Modulo))
    } else {
        None
    }
}

impl Operator {
    /// How tightly the operator binds.
    pub fn precedence(&self) -> (r: usize)
        ensures
            r == precedence(*self),
    {
        match self {
            Operator::Multiply | Operator::Divide | Operator::Modulo => 1,
            Operator::Exponential => 2,
            _ => 0,
        }
    }

    /// Parses an operator at `i`.
    /// # Returns
    /// - where it ends and the operator
    pub fn parse(s: &[char], i: usize) -> (r: Option<(usize, Operator)>)
        ensures
            match operator_spec(s@, i as int) {
                Some((k, op)) => r == Some((k as usize, op)) && i < k <= s@.len(),
                None => r is None,
            },
    {
        let _n = s.len();
        if char_at(s, i, '=') && char_at(s, i + 1, '=') && char_at(s, i + 2, '=') {
            Some((i + 3, Operator::StrictEqual))
        } else if char_at(s, i, '=') && char_at(s, i + 1, '=') {
            Some((i + 2, Operator::Equal))
        } else if char_at(s, i, ';') && char_at(s, i + 1, '=') && char_at(s, i + 2, '=') {
            Some((i + 3, Operator::StrictNotEqual))
        } else if char_at(s, i, ';') && char_at(s, i + 1, '=') {
            Some((i + 2, Operator::NotEqual))
        } else if char_at(s, i, '>') && char_at(s, i + 1, '=') {
            Some((i + 2, Operator::GreaterThanOrEqual))
        } else if char_at(s, i, '>') {
            Some((i + 1, Operator::GreaterThan))
        } else if char_at(s, i, '<') && char_at(s, i + 1, '=') {
            Some((i + 2, Operator::LessThanOrEqual))
        } else if char_at(s, i, '<') {
            Some((i + 1, Operator::LessThan))
        } else if char_at(s, i, '&') && char_at(s, i + 1, '&') {
            Some((i + 2, Operator::And))
        } else if char_at(s, i, '|') && char_at(s, i + 1, '|') {
            Some((i + 2, Operator::Or))
        } else if char_at(s, i, '+') {
            Some((i + 1, Operator::Add))
        } else if char_at(s, i, '-') {
            Some((i + 1, Operator::Subtract))
        } else if char_at(s, i, '*') {
            Some((i + 1, Operator::Multiply))
        } else if char_at(s, i, '^') {
            Some((i + 1, Operator::Exponential))
        } else if char_at(s, i, '/') {
            Some((i + 1, Operator::Divide))
        } else if char_at(s, i, '%') {
            Some((i + 1, Operator::Modulo))
        } else {
            None
        }
    }
}

impl From<Operator> for usize {
    fn from(value: Operator) -> (r: usize) {
        value.precedence()
    }
}

impl vstd::std_specs::convert::FromSpecImpl<Operator> for usize {
    open spec fn obeys_from_spec() -> bool {
        true
    }

    open spec fn from_spec(v: Operator) -> usize {
        precedence(v) as usize
    }
}

impl PartialEq for Operator {
    fn eq(&self, other: &Self) -> (r: bool) {
        self.precedence() == other.precedence()
    }
}

impl vstd::std_specs::cmp::PartialEqSpecImpl for Operator {
    open spec fn obeys_eq_spec() -> bool {
        true
    }

    open spec fn eq_spec(&self, other: &Operator) -> bool {
        precedence(*self) == precedence(*other)
    }
}

impl Eq for Operator {

}

/// Operators are ordered by how tightly they bind.
pub open spec fn operator_order(a: Operator, b: Operator) -> Option<Ordering> {
    if precedence(a) < precedence(b) {
        Some(Ordering::Less)
    } else if precedence(a) == precedence(b) {
        Some(Ordering::Equal)
    } else {
        Some(Ordering::Greater)
    }
}

impl PartialOrd for Operator {
    fn partial_cmp(&self, other: &Self) -> (r: Option<Ordering>) {
        let a = self.precedence();
        let b = other.precedence();
        if a < b {
            Some(Ordering::Less)
        } else if a == b {
            Some(Ordering::Equal)
        } else {
            Some(Ordering::Greater)
        }
    }
}

impl vstd::std_specs::cmp::PartialOrdSpecImpl for Operator {
    open spec fn obeys_partial_cmp_spec() -> bool {
        true
    }

    open spec fn partial_cmp_spec(&self, other: &Operator) -> Option<Ordering> {
        operator_order(*self, *other)
    }
}

/// A unary operator at `i`.
pub open spec fn unary_spec(s: Seq<char>, i: int) -> Option<UnaryOperator> {
    if char_is(s, i, ';') {
        Some(UnaryOperator::Not)
    } else if char_is(s, i, '-') {
        Some(UnaryOperator::Minus)
    } else {
        None
    }
}

impl UnaryOperator {
    /// Parses a unary operator at `i`: `;` or `-`.
    pub fn parse(s: &[char], i: usize) -> (r: Option<UnaryOperator>)
        ensures
            r == unary_spec(s@, i as int),
    {
        if char_at(s, i, ';') {
            Some(UnaryOperator::Not)
        } else if char_at(s, i, '-') {
            Some(UnaryOperator::Minus)
        } else {
            None
        }
    }
}

/// A group of unary operators written together, and the whitespace after it
#[derive(Debug, Clone)]
pub struct UnaryGroup {
    pub ops: Vec<UnaryOperator>,
    pub ws: usize,
}

/// What a group of unary operators holds.
pub struct UnaryGroupView {
    pub ops: Seq<UnaryOperator>,
    pub ws: int,
}

impl View for UnaryGroup {
    type V = UnaryGroupView;

    open spec fn view(&self) -> UnaryGroupView {
        UnaryGroupView { ops: self.ops@, ws: self.ws as int }
    }
}

/// What a list of unary groups holds.
pub open spec fn groups_view(g: Seq<UnaryGroup>) -> Seq<UnaryGroupView> {
    g.map_values(|x: UnaryGroup| x@)
}

/// The unary operator that a character stands for (`;` not, any other minus).
pub open spec fn unary_of(c: char) -> UnaryOperator {
    if c == ';' {
        UnaryOperator::Not
    } else {
        UnaryOperator::Minus
    }
}

/// Where the run of unary operators from `i` on ends.
pub open spec fn unary_run_end(s: Seq<char>, i: int) -> int
    decreases s.len() - i,
{
    if 0 <= i < s.len() && unary_spec(s, i) is Some {
        unary_run_end(s, i + 1)
    } else {
        i
    }
}

proof fn lemma_unary_run_end(s: Seq<char>, i: int)
    requires
        0 <= i <= s.len(),
    ensures
        i <= unary_run_end(s, i) <= s.len(),
        forall|k: int| i <= k < unary_run_end(s, i) ==> #[trigger] unary_spec(s, k) is Some,
    decreases s.len() - i,
{
    if i < s.len() && unary_spec(s, i) is Some {
        lemma_unary_run_end(s, i + 1);
    }
}

/// The groups of unary operators from `i` on, as written, and where they end: each
/// group is a run of `;` and `-` with the whitespace after it.
pub open spec fn unary_groups_spec(s: Seq<char>, i: int) -> (Seq<UnaryGroupView>, int)
    decreases s.len() - i,
{
    let j = unary_run_end(s, i);
    let k = ws_end(s, j);
    if 0 <= i < j && j <= k <= s.len() {
        let g = UnaryGroupView {
            ops: s.subrange(i, j).map_values(|c: char| unary_of(c)),
            ws: ws_count_spec(s, j) as int,
        };
        let rest = unary_groups_spec(s, k);
        (seq![g] + rest.0, rest.1)
    } else {
        (Seq::empty(), i)
    }
}

/// What is left of a run of unary operators once equal neighbours cancel out, read
/// from position `k` with the operator seen last, whether it is still in use, and what
/// was kept so far.
pub open spec fn cancel_from(
    ops: Seq<UnaryOperator>,
    k: int,
    last: UnaryOperator,
    in_use: bool,
    kept: Seq<UnaryOperator>,
) -> Seq<UnaryOperator>
    decreases ops.len() - k,
{
    if k < 0 || k >= ops.len() {
        if in_use {
            kept.push(last)
        } else {
            kept
        }
    } else if ops[k] == last {
        cancel_from(ops, k + 1, last, !in_use, kept)
    } else {
        cancel_from(ops, k + 1, ops[k], true, if in_use {
            kept.push(ops[k])
        } else {
            kept
        })
    }
}

/// What is left of a run of unary operators: two equal operators next to each other
/// cancel out.
pub open spec fn cancel_run(ops: Seq<UnaryOperator>) -> Seq<UnaryOperator> {
    if ops.len() == 0 {
        ops
    } else {
        cancel_from(ops, 1, ops[0], true, Seq::empty())
    }
}

/// The groups from the last one written to the first, each reduced by `cancel_run`;
/// a group that cancels out entirely is dropped and its whitespace goes to the next
/// group kept.
pub open spec fn normalize_from(
    gs: Seq<UnaryGroupView>,
    k: int,
    ws_prior: int,
    acc: Seq<UnaryGroupView>,
) -> Seq<UnaryGroupView>
    decreases gs.len() - k,
{
    if k < 0 || k >= gs.len() {
        acc
    } else {
        let g = gs[gs.len() - 1 - k];
        let ws = g.ws + ws_prior;
        let ret = cancel_run(g.ops);
        if ret.len() == 0 {
            normalize_from(gs, k + 1, ws, acc)
        } else {
            normalize_from(gs, k + 1, 0, acc.push(UnaryGroupView { ops: ret, ws }))
        }
    }
}

/// The unary groups in the order in which they apply: from the one next to the atom
/// out, with equal neighbours cancelled out.
pub open spec fn normalize_spec(gs: Seq<UnaryGroupView>) -> Seq<UnaryGroupView> {
    normalize_from(gs, 0, 0, Seq::empty())
}

/// The sum of the whitespace of the groups.
pub open spec fn ws_total(gs: Seq<UnaryGroupView>) -> int
    decreases gs.len(),
{
    if gs.len() == 0 {
        0
    } else {
        gs.last().ws + ws_total(gs.drop_last())
    }
}

proof fn lemma_ws_total_suffix(gs: Seq<UnaryGroupView>, k: int)
    requires
        0 <= k <= gs.len(),
        forall|i: int| 0 <= i < gs.len() ==> #[trigger] gs[i].ws >= 0,
    ensures
        ws_total(gs.take(gs.len() - k)) + ws_total_top(gs, k) == ws_total(gs),
        ws_total(gs.take(gs.len() - k)) >= 0,
        ws_total_top(gs, k) >= 0,
    decreases k,
{
    if k > 0 {
        lemma_ws_total_suffix(gs, k - 1);
        assert(gs.take(gs.len() - (k - 1)).drop_last() =~= gs.take(gs.len() - k));
        lemma_ws_total_nonneg(gs.take(gs.len() - k));
    } else {
        assert(gs.take(gs.len() as int) =~= gs);
        lemma_ws_total_nonneg(gs);
    }
}

proof fn lemma_ws_total_nonneg(gs: Seq<UnaryGroupView>)
    requires
        forall|i: int| 0 <= i < gs.len() ==> #[trigger] gs[i].ws >= 0,
    ensures
        ws_total(gs) >= 0,
    decreases gs.len(),
{
    if gs.len() > 0 {
        lemma_ws_total_nonneg(gs.drop_last());
    }
}

/// The whitespace of the last `k` groups.
pub open spec fn ws_total_top(gs: Seq<UnaryGroupView>, k: int) -> int
    decreases k,
{
    if k <= 0 || k > gs.len() {
        0
    } else {
        gs[gs.len() - k].ws + ws_total_top(gs, k - 1)
    }
}

/// Reduces a run of unary operators: equal neighbours cancel out.
pub fn cancel_unaries(ops: &Vec<UnaryOperator>) -> (r: Vec<UnaryOperator>)
    ensures
        r@ == cancel_run(ops@),
{
    let n = ops.len();
    if n == 0 {
        return Vec::new();
    }
    let mut last = ops[0];
    let mut in_use = true;
    let mut kept: Vec<UnaryOperator> = Vec::new();
    let mut k: usize = 1;
    while k < n
        invariant
            n == ops@.len(),
            1 <= k <= n,
            cancel_run(ops@) == cancel_from(ops@, k as int, last, in_use, kept@),
        decreases n - k,
    {
        let u = ops[k];
        if u == last {
            in_use = !in_use;
        } else {
            last = u;
            if in_use {
                kept.push(u);
            }
            in_use = true;
        }
        k = k + 1;
    }
    if in_use {
        kept.push(last);
    }
    kept
}

/// Puts the groups of unary operators in the order in which they apply: from the one
/// next to the atom out. Equal neighbours in a group cancel out; a group that cancels
/// out entirely is dropped and its whitespace is added to that of the next group kept.
pub fn normalize_unaries(groups: Vec<UnaryGroup>) -> (r: Vec<UnaryGroup>)
    requires
        ws_total(groups_view(groups@)) <= usize::MAX,
    ensures
        groups_view(r@) == normalize_spec(groups_view(groups@)),
{
    let ghost gv = groups_view(groups@);
    let n = groups.len();
    let mut rest = groups;
    let mut out: Vec<UnaryGroup> = Vec::new();
    let mut ws_prior: usize = 0;
    let mut k: usize = 0;
    proof {
        assert forall|i: int| 0 <= i < gv.len() implies #[trigger] gv[i].ws >= 0 by {}
        lemma_ws_total_suffix(gv, 0);
        assert(rest@ =~= groups@.take(n as int));
        assert(groups_view(out@) =~= Seq::<UnaryGroupView>::empty());
    }
    while k < n
        invariant
            n == gv.len(),
            gv == groups_view(groups@),
            k <= n,
            rest@ == groups@.take(n - k),
            ws_total(gv) <= usize::MAX,
            forall|i: int| 0 <= i < gv.len() ==> #[trigger] gv[i].ws >= 0,
            ws_prior <= ws_total_top(gv, k as int),
            normalize_spec(gv) == normalize_from(gv, k as int, ws_prior as int, groups_view(out@)),
        decreases n - k,
    {
        let g = rest.pop().unwrap();
        proof {
            assert(g == groups@[n - 1 - k]);
            assert(gv[n - 1 - k] == g@);
            lemma_ws_total_suffix(gv, k + 1);
            assert(groups@.take(n - k).drop_last() =~= groups@.take(n - k - 1));
        }
        let ws = g.ws + ws_prior;
        let ret = cancel_unaries(&g.ops);
        if ret.len() == 0 {
            ws_prior = ws;
        } else {
            let ghost before = out@;
            out.push(UnaryGroup { ops: ret, ws });
            ws_prior = 0;
            proof {
                assert(groups_view(out@) =~= groups_view(before).push(UnaryGroupView { ops: cancel_run(g.ops@), ws: ws as int }));
            }
        }
        k = k + 1;
    }
    out
}

/// Parses the groups of unary operators before an atom: runs of `;` and `-`, each with
/// the whitespace after it.
/// # Returns
/// - where they end and the groups in the order in which they apply (see
///   `normalize_unaries`)
pub fn unary_prefix(s: &[char], i: usize) -> (r: (usize, Vec<UnaryGroup>))
    requires
        i <= s@.len(),
    ensures
        r.0 == unary_groups_spec(s@, i as int).1,
        i <= r.0 <= s@.len(),
        groups_view(r.1@) == normalize_spec(unary_groups_spec(s@, i as int).0),
{
    let n = s.len();
    let mut p: usize = i;
    let mut groups: Vec<UnaryGroup> = Vec::new();
    proof {
        assert(groups_view(groups@) + unary_groups_spec(s@, p as int).0 =~= unary_groups_spec(s@, i as int).0);
    }
    loop
        invariant
            n == s@.len(),
            i <= p <= n,
            groups_view(groups@) + unary_groups_spec(s@, p as int).0 == unary_groups_spec(s@, i as int).0,
            unary_groups_spec(s@, p as int).1 == unary_groups_spec(s@, i as int).1,
            ws_total(groups_view(groups@)) <= p - i,
        decreases n - p,
    {
        let mut j = p;
        let mut ops: Vec<UnaryOperator> = Vec::new();
        proof {
            lemma_unary_run_end(s@, p as int);
        }
        while j < n && UnaryOperator::parse(s, j).is_some()
            invariant
                n == s@.len(),
                p <= j <= n,
                unary_run_end(s@, p as int) == unary_run_end(s@, j as int),
                ops@ == s@.subrange(p as int, j as int).map_values(|c: char| unary_of(c)),
            decreases n - j,
        {
            let u = UnaryOperator::parse(s, j).unwrap();
            ops.push(u);
            j = j + 1;
            assert(ops@ =~= s@.subrange(p as int, j as int).map_values(|c: char| unary_of(c)));
        }
        if j == p {
            return (p, normalize_unaries(groups));
        }
        let (k, c) = ws_count(s, j);
        proof {
            lemma_ws_end(s@, j as int);
        }
        let ghost before = groups_view(groups@);
        groups.push(UnaryGroup { ops, ws: c });
        proof {
            let g = UnaryGroupView {
                ops: s@.subrange(p as int, j as int).map_values(|c: char| unary_of(c)),
                ws: ws_count_spec(s@, j as int) as int,
            };
            assert(groups_view(groups@) =~= before.push(g));
            assert(unary_groups_spec(s@, p as int).0 == seq![g] + unary_groups_spec(s@, k as int).0);
            assert(groups_view(groups@) + unary_groups_spec(s@, k as int).0 =~= before + unary_groups_spec(s@, p as int).0);
            assert(groups_view(groups@).drop_last() =~= before);
        }
        p = k;
    }
}

/// Whitespace, an operator and whitespace, from `i` on.
/// # Returns
/// - where they end, the operator and how many whitespace characters surround it
pub open spec fn op_chunk_spec(s: Seq<char>, i: int) -> Option<(int, Operator, int)> {
    let a = ws_end(s, i);
    match operator_spec(s, a) {
        Some((b, op)) => Some((ws_end(s, b), op, (ws_count_spec(s, i) + ws_count_spec(s, b)) as int)),
        None => None,
    }
}

/// Parses whitespace, an operator and whitespace.
/// # Returns
/// - where they end, the operator and how many whitespace characters surround it
pub fn op_chunk(s: &[char], i: usize) -> (r: Option<(usize, Operator, usize)>)
    requires
        i <= s@.len(),
    ensures
        match op_chunk_spec(s@, i as int) {
            Some((k, op, w)) => r == Some((k as usize, op, w as usize)) && i <= k <= s@.len(),
            None => r is None,
        },
{
    let _n = s.len();
    let (a, c1) = ws_count(s, i);
    proof {
        lemma_ws_end(s@, i as int);
    }
    match Operator::parse(s, a) {
        Some((b, op)) => {
            let (k, c2) = ws_count(s, b);
            proof {
                lemma_ws_end(s@, b as int);
            }
            Some((k, op, c1 + c2))
        },
        None => None,
    }
}

/// An operator, the whitespace around it, and the atom after it with its unary groups
#[derive(Debug)]
pub struct OpItem<A> {
    pub op: Operator,
    pub ws: usize,
    pub right: Expression<A>,
    pub unaries: Vec<UnaryGroup>,
}

/// What an operator item holds.
pub struct OpItemView<A> {
    pub op: Operator,
    pub ws: int,
    pub right: Expression<A>,
    pub unaries: Seq<UnaryGroupView>,
}

/// What a list of operator items holds.
pub open spec fn items_view<A>(items: Seq<OpItem<A>>) -> Seq<OpItemView<A>> {
    items.map_values(|it: OpItem<A>| OpItemView { op: it.op, ws: it.ws as int, right: it.right, unaries: groups_view(it.unaries@) })
}

/// The expression with the unary operators applied one after the other, the first
/// innermost.
pub open spec fn wrap_all<A>(e: Expression<A>, ops: Seq<UnaryOperator>) -> Expression<A>
    decreases ops.len(),
{
    if ops.len() == 0 {
        e
    } else {
        wrap_all(Expression::UnaryOperation { operator: ops[0], right: Box::new(e) }, ops.skip(1))
    }
}

/// Applies the unary groups at the front while their whitespace is at most that of the
/// next operator (with no next operator: while they have no whitespace).
pub open spec fn apply_immediate_spec<A>(
    pending: Seq<UnaryGroupView>,
    left: Expression<A>,
    next_ws: Option<int>,
) -> (Expression<A>, Seq<UnaryGroupView>)
    decreases pending.len(),
{
    if pending.len() > 0 && match next_ws {
        Some(w) => pending[0].ws <= w,
        None => pending[0].ws == 0,
    } {
        apply_immediate_spec(pending.skip(1), wrap_all(left, pending[0].ops), next_ws)
    } else {
        (left, pending)
    }
}

/// Where the building of an expression stands: the expression on the left, the unary
/// groups waiting to apply, the operations waiting for their right side, and the order
/// in which the waiting groups (`false`) and operations (`true`) were put aside.
pub struct BuildState<A> {
    pub left: Expression<A>,
    pub pending: Seq<UnaryGroupView>,
    pub order: Seq<bool>,
    pub left_pending: Seq<(Expression<A>, Operator)>,
}

/// How often `b` occurs in `s`.
pub open spec fn count_flags(s: Seq<bool>, b: bool) -> nat
    decreases s.len(),
{
    if s.len() == 0 {
        0
    } else {
        (if s[0] == b { 1nat } else { 0nat }) + count_flags(s.skip(1), b)
    }
}

proof fn lemma_count_concat(s: Seq<bool>, t: Seq<bool>, b: bool)
    ensures
        count_flags(s + t, b) == count_flags(s, b) + count_flags(t, b),
    decreases s.len(),
{
    if s.len() > 0 {
        assert((s + t).skip(1) =~= s.skip(1) + t);
        lemma_count_concat(s.skip(1), t, b);
    } else {
        assert(s + t =~= t);
    }
}

proof fn lemma_count_single(b: bool)
    ensures
        count_flags(seq![b], b) == 1,
        count_flags(seq![b], !b) == 0,
{
    assert(seq![b].skip(1) =~= Seq::<bool>::empty());
    assert(count_flags(Seq::<bool>::empty(), b) == 0);
    assert(count_flags(Seq::<bool>::empty(), !b) == 0);
}

proof fn lemma_count_falses(n: nat)
    ensures
        count_flags(Seq::new(n, |i: int| false), false) == n,
        count_flags(Seq::new(n, |i: int| false), true) == 0,
    decreases n,
{
    if n > 0 {
        assert(Seq::new(n, |i: int| false).skip(1) =~= Seq::new((n - 1) as nat, |i: int| false));
        lemma_count_falses((n - 1) as nat);
    }
}

/// Every operation put aside has its flag, and so has every unary group put aside.
pub open spec fn build_wf<A>(st: BuildState<A>) -> bool {
    &&& count_flags(st.order, true) == st.left_pending.len()
    &&& count_flags(st.order, false) == st.pending.len()
}

/// Completes the operation built on the left with what was put aside, going through
/// the flags in the order they were set: an operation put aside takes the expression
/// as its right side; a unary group applies when its whitespace is at most that of the
/// next operator (always when there is none), and otherwise stays aside.
pub open spec fn drain_spec<A>(
    st: BuildState<A>,
    order: Seq<bool>,
    i: int,
    kept: Seq<bool>,
    next_ws: Option<int>,
) -> BuildState<A>
    decreases order.len() - i,
{
    if i < 0 || i >= order.len() {
        BuildState { order: kept, ..st }
    } else if order[i] {
        let (li, oi) = st.left_pending.last();
        drain_spec(
            BuildState {
                left: Expression::Operation { left: Box::new(li), operator: oi, right: Box::new(st.left) },
                left_pending: st.left_pending.drop_last(),
                ..st
            },
            order,
            i + 1,
            kept,
            next_ws,
        )
    } else {
        let g = st.pending.last();
        let apply = match next_ws {
            Some(w) => g.ws <= w,
            None => true,
        };
        if apply {
            drain_spec(
                BuildState { left: wrap_all(st.left, g.ops), pending: st.pending.drop_last(), ..st },
                order,
                i + 1,
                kept,
                next_ws,
            )
        } else {
            drain_spec(st, order, i + 1, kept.push(false), next_ws)
        }
    }
}

/// One operator and the atom after it: its unary groups apply as far as they can; if
/// some remain, or the next operator binds tighter (less whitespace around it, or as
/// much and a higher precedence), the operation waits for its right side; otherwise
/// the operation is built and what waits is completed.
pub open spec fn step_spec<A>(st: BuildState<A>, item: OpItemView<A>, next: Option<(Operator, int)>) -> BuildState<A> {
    let next_ws = match next {
        Some(n) => Some(n.1),
        None => None,
    };
    let (right, rpend) = apply_immediate_spec(item.unaries, item.right, next_ws);
    if rpend.len() > 0 {
        BuildState {
            left: right,
            pending: st.pending + rpend,
            order: st.order + Seq::new(rpend.len(), |i: int| false) + seq![true],
            left_pending: st.left_pending.push((st.left, item.op)),
        }
    } else if next matches Some((nop, nws)) && (nws < item.ws || (nws == item.ws && precedence(nop)
        > precedence(item.op))) {
        BuildState {
            left: right,
            pending: st.pending,
            order: st.order.push(true),
            left_pending: st.left_pending.push((st.left, item.op)),
        }
    } else {
        drain_spec(
            BuildState {
                left: Expression::Operation { left: Box::new(st.left), operator: item.op, right: Box::new(right) },
                ..st
            },
            st.order,
            0,
            Seq::empty(),
            next_ws,
        )
    }
}

/// The operator and whitespace of the item after the `k`-th one.
pub open spec fn next_of<A>(items: Seq<OpItemView<A>>, k: int) -> Option<(Operator, int)> {
    if 0 <= k + 1 < items.len() {
        Some((items[k + 1].op, items[k + 1].ws))
    } else {
        None
    }
}

/// The building after the items from the `k`-th on.
pub open spec fn build_loop_spec<A>(st: BuildState<A>, items: Seq<OpItemView<A>>, k: int) -> BuildState<A>
    decreases items.len() - k,
{
    if k < 0 || k >= items.len() {
        st
    } else {
        build_loop_spec(step_spec(st, items[k], next_of(items, k)), items, k + 1)
    }
}

/// The unary groups still aside apply, the last one put aside first.
pub open spec fn finish_spec<A>(left: Expression<A>, pending: Seq<UnaryGroupView>) -> Expression<A>
    decreases pending.len(),
{
    if pending.len() == 0 {
        left
    } else {
        finish_spec(wrap_all(left, pending.last().ops), pending.drop_last())
    }
}

/// The expression built from the first atom with its unary groups and the operator
/// items that follow it.
pub open spec fn build_spec<A>(first: Expression<A>, unaries: Seq<UnaryGroupView>, items: Seq<OpItemView<A>>) -> Expression<A> {
    let next0 = if items.len() > 0 {
        Some(items[0].ws)
    } else {
        None
    };
    let (left0, pend0) = apply_immediate_spec(unaries, first, next0);
    let st0 = BuildState {
        left: left0,
        pending: pend0,
        order: Seq::new(pend0.len(), |i: int| false),
        left_pending: Seq::empty(),
    };
    let st = build_loop_spec(st0, items, 0);
    finish_spec(st.left, st.pending)
}

/// Applies the unary operators one after the other, the first innermost.
pub fn wrap_unaries<A>(e: Expression<A>, ops: &Vec<UnaryOperator>) -> (r: Expression<A>)
    ensures
        r == wrap_all(e, ops@),
{
    let n = ops.len();
    let mut left = e;
    let mut k: usize = 0;
    proof {
        assert(ops@.skip(0) =~= ops@);
    }
    while k < n
        invariant
            n == ops@.len(),
            k <= n,
            wrap_all(e, ops@) == wrap_all(left, ops@.skip(k as int)),
        decreases n - k,
    {
        let ghost before = left;
        left = Expression::UnaryOperation { operator: ops[k], right: Box::new(left) };
        proof {
            assert(ops@.skip(k as int).skip(1) =~= ops@.skip(k + 1));
        }
        k = k + 1;
    }
    left
}

/// Applies the unary groups at the front while their whitespace is at most that of the
/// next operator (with no next operator: while they have no whitespace); the groups
/// applied are removed.
pub fn apply_pending_unary_immediate<A>(
    pending: &mut Vec<UnaryGroup>,
    left: Expression<A>,
    next_ws: Option<usize>,
) -> (r: Expression<A>)
    ensures
        (r, groups_view(final(pending)@)) == apply_immediate_spec(
            groups_view(old(pending)@),
            left,
            opt_int(next_ws),
        ),
{
    let ghost nw = opt_int(next_ws);
    let ghost p0 = groups_view(pending@);
    let ghost left0 = left;
    let mut left = left;
    loop
        invariant
            apply_immediate_spec(p0, left0, nw) == apply_immediate_spec(groups_view(pending@), left, nw),
            nw == opt_int(next_ws),
        ensures
            (left, groups_view(pending@)) == apply_immediate_spec(p0, left0, nw),
        decreases pending@.len(),
    {
        if pending.len() == 0 {
            break;
        }
        let ws0 = pending[0].ws;
        let apply = match next_ws {
            Some(w) => ws0 <= w,
            None => ws0 == 0,
        };
        if !apply {
            break;
        }
        let ghost before = pending@;
        let g = pending.remove(0);
        proof {
            assert(groups_view(pending@) =~= groups_view(before).skip(1));
            assert(groups_view(before)[0] == g@);
        }
        left = wrap_unaries(left, &g.ops);
    }
    left
}

/// An optional whitespace count as an integer.
pub open spec fn opt_int(w: Option<usize>) -> Option<int> {
    match w {
        Some(w) => Some(w as int),
        None => None,
    }
}

/// The operator and whitespace of an item as integers.
pub open spec fn next_view(next: Option<(Operator, usize)>) -> Option<(Operator, int)> {
    match next {
        Some((o, w)) => Some((o, w as int)),
        None => None,
    }
}

/// Where the building of an expression stands
pub struct ExprBuilder<A> {
    left: Expression<A>,
    pending: Vec<UnaryGroup>,
    order: Vec<bool>,
    left_pending: Vec<(Expression<A>, Operator)>,
}

impl<A> View for ExprBuilder<A> {
    type V = BuildState<A>;

    closed spec fn view(&self) -> BuildState<A> {
        BuildState {
            left: self.left,
            pending: groups_view(self.pending@),
            order: self.order@,
            left_pending: self.left_pending@,
        }
    }
}

/// Completes the operation built on the left with what was put aside (see `drain_spec`).
fn drain<A>(st: ExprBuilder<A>, next_ws: Option<usize>) -> (r: ExprBuilder<A>)
    requires
        build_wf(st@),
    ensures
        r@ == drain_spec(st@, st@.order, 0, Seq::empty(), opt_int(next_ws)),
        build_wf(r@),
{
    let ghost st0 = st@;
    let ghost nw = opt_int(next_ws);
    let ExprBuilder { mut left, mut pending, order, mut left_pending } = st;
    let n = order.len();
    let mut kept: Vec<bool> = Vec::new();
    let mut i: usize = 0;
    proof {
        assert(order@.skip(0) =~= order@);
        assert(count_flags(kept@, false) == 0);
    }
    while i < n
        invariant
            n == order@.len(),
            order@ == st0.order,
            i <= n,
            nw == opt_int(next_ws),
            drain_spec(st0, st0.order, 0, Seq::empty(), nw) == drain_spec(
                BuildState { left, pending: groups_view(pending@), order: st0.order, left_pending: left_pending@ },
                st0.order,
                i as int,
                kept@,
                nw,
            ),
            left_pending@.len() == count_flags(order@.skip(i as int), true),
            pending@.len() == count_flags(kept@, false) + count_flags(order@.skip(i as int), false),
            count_flags(kept@, true) == 0,
        decreases n - i,
    {
        proof {
            assert(order@.skip(i as int).skip(1) =~= order@.skip(i + 1));
            assert(order@.skip(i as int)[0] == order@[i as int]);
            assert(count_flags(order@.skip(i as int), true) == (if order@[i as int] { 1nat } else { 0nat })
                + count_flags(order@.skip(i + 1), true));
            assert(count_flags(order@.skip(i as int), false) == (if !order@[i as int] { 1nat } else { 0nat })
                + count_flags(order@.skip(i + 1), false));
        }
        if order[i] {
            let (li, oi) = left_pending.pop().unwrap();
            left = Expression::Operation { left: Box::new(li), operator: oi, right: Box::new(left) };
        } else {
            let m = pending.len();
            let w = pending[m - 1].ws;
            let apply = match next_ws {
                Some(x) => w <= x,
                None => true,
            };
            if apply {
                let ghost before = pending@;
                let g = pending.pop().unwrap();
                proof {
                    assert(groups_view(pending@) =~= groups_view(before).drop_last());
                    assert(groups_view(before).last() == g@);
                }
                left = wrap_unaries(left, &g.ops);
            } else {
                proof {
                    lemma_count_concat(kept@, seq![false], false);
                    lemma_count_concat(kept@, seq![false], true);
                    lemma_count_single(false);
                    assert(seq![false].skip(1) =~= Seq::<bool>::empty());
                    assert(kept@.push(false) =~= kept@ + seq![false]);
                    assert(groups_view(pending@).last() == pending@[m - 1]@);
                }
                kept.push(false);
            }
        }
        i = i + 1;
    }
    proof {
        assert(order@.skip(n as int) =~= Seq::<bool>::empty());
    }
    ExprBuilder { left, pending, order: kept, left_pending }
}

/// One operator and the atom after it (see `step_spec`).
fn step<A>(st: ExprBuilder<A>, item: OpItem<A>, next: Option<(Operator, usize)>) -> (r: ExprBuilder<A>)
    requires
        build_wf(st@),
    ensures
        r@ == step_spec(
            st@,
            OpItemView { op: item.op, ws: item.ws as int, right: item.right, unaries: groups_view(item.unaries@) },
            next_view(next),
        ),
        build_wf(r@),
{
    let ghost st0 = st@;
    let ghost iv = OpItemView { op: item.op, ws: item.ws as int, right: item.right, unaries: groups_view(item.unaries@) };
    let OpItem { op, ws, right, unaries } = item;
    let mut rpend = unaries;
    let next_ws = match next {
        Some((_, w)) => Some(w),
        None => None,
    };
    assert(opt_int(next_ws) == match next_view(next) {
        Some(n) => Some(n.1),
        None => None::<int>,
    });
    let right = apply_pending_unary_immediate(&mut rpend, right, next_ws);
    let ExprBuilder { left, mut pending, mut order, mut left_pending } = st;
    if rpend.len() > 0 {
        let k = rpend.len();
        let mut j: usize = 0;
        let ghost order0 = order@;
        proof {
            assert(order@ =~= order0 + Seq::new(0, |i: int| false));
        }
        while j < k
            invariant
                j <= k,
                order@ == order0 + Seq::new(j as nat, |i: int| false),
            decreases k - j,
        {
            order.push(false);
            j = j + 1;
            proof {
                assert(order@ =~= order0 + Seq::new(j as nat, |i: int| false));
            }
        }
        let ghost pending0 = pending@;
        let ghost rpend0 = rpend@;
        pending.append(&mut rpend);
        order.push(true);
        left_pending.push((left, op));
        proof {
            assert(groups_view(pending@) =~= groups_view(pending0) + groups_view(rpend0));
            let falses = Seq::new(k as nat, |i: int| false);
            lemma_count_falses(k as nat);
            lemma_count_concat(order0, falses, true);
            lemma_count_concat(order0, falses, false);
            lemma_count_concat(order0 + falses, seq![true], true);
            lemma_count_concat(order0 + falses, seq![true], false);
            lemma_count_single(true);
            assert(seq![true].skip(1) =~= Seq::<bool>::empty());
            assert(order@ =~= order0 + falses + seq![true]);
        }
        return ExprBuilder { left: right, pending, order, left_pending };
    }
    let tighter = match next {
        Some((nop, nws)) => nws < ws || (nws == ws && nop.precedence() > op.precedence()),
        None => false,
    };
    if tighter {
        let ghost order0 = order@;
        left_pending.push((left, op));
        order.push(true);
        proof {
            lemma_count_concat(order0, seq![true], true);
            lemma_count_concat(order0, seq![true], false);
            lemma_count_single(true);
            assert(order@ =~= order0 + seq![true]);
        }
        return ExprBuilder { left: right, pending, order, left_pending };
    }
    let combined = Expression::Operation { left: Box::new(left), operator: op, right: Box::new(right) };
    drain(ExprBuilder { left: combined, pending, order, left_pending }, next_ws)
}

/// Builds an expression from its first atom with its unary groups and the operator
/// items that follow it. Whitespace decides the order of the operations: an
/// operation with less whitespace around its operator applies first; with as much
/// whitespace, the operator with the higher precedence; otherwise from left to right.
/// A unary group applies once the operators next to it have at least as much
/// whitespace as it has.
pub fn build_expression<A>(first: Expression<A>, first_unaries: Vec<UnaryGroup>, items: Vec<OpItem<A>>) -> (r: Expression<A>)
    ensures
        r == build_spec(first, groups_view(first_unaries@), items_view(items@)),
{
    let ghost iv = items_view(items@);
    let ghost uv = groups_view(first_unaries@);
    let n = items.len();
    let next0 = if n > 0 {
        Some(items[0].ws)
    } else {
        None
    };
    assert(opt_int(next0) == if iv.len() > 0 {
        Some(iv[0].ws)
    } else {
        None::<int>
    });
    let mut pend = first_unaries;
    let left0 = apply_pending_unary_immediate(&mut pend, first, next0);
    let k0 = pend.len();
    let mut order: Vec<bool> = Vec::new();
    let mut j: usize = 0;
    while j < k0
        invariant
            j <= k0,
            order@ == Seq::new(j as nat, |i: int| false),
        decreases k0 - j,
    {
        order.push(false);
        j = j + 1;
        proof {
            assert(order@ =~= Seq::new(j as nat, |i: int| false));
        }
    }
    proof {
        lemma_count_falses(k0 as nat);
    }
    let mut st = ExprBuilder { left: left0, pending: pend, order, left_pending: Vec::new() };
    let ghost st0 = st@;
    let mut rest = items;
    let mut k: usize = 0;
    proof {
        assert(rest@ =~= items@.skip(0));
    }
    while k < n
        invariant
            n == items@.len(),
            iv == items_view(items@),
            k <= n,
            rest@ == items@.skip(k as int),
            build_wf(st@),
            build_loop_spec(st0, iv, 0) == build_loop_spec(st@, iv, k as int),
        decreases n - k,
    {
        let next = if k + 1 < n {
            Some((rest[1].op, rest[1].ws))
        } else {
            None
        };
        proof {
            if k + 1 < n {
                assert(rest@[1] == items@[k + 1]);
            }
            assert(next_view(next) == next_of(iv, k as int));
        }
        let ghost before = rest@;
        let item = rest.remove(0);
        proof {
            assert(item == items@[k as int]);
            assert(rest@ =~= items@.skip(k + 1));
        }
        st = step(st, item, next);
        k = k + 1;
    }
    let ghost st_end = st@;
    let ExprBuilder { left, pending, order: _, left_pending: _ } = st;
    let mut left = left;
    let mut pending = pending;
    while pending.len() > 0
        invariant
            finish_spec(st_end.left, st_end.pending) == finish_spec(left, groups_view(pending@)),
        decreases pending@.len(),
    {
        let ghost before = pending@;
        let g = pending.pop().unwrap();
        proof {
            assert(groups_view(pending@) =~= groups_view(before).drop_last());
            assert(groups_view(before).last() == g@);
        }
        left = wrap_unaries(left, &g.ops);
    }
    left
}

/// A piece of an expression as written: an atom, an operator or a unary operator
pub enum Token<A> {
    Atom(A),
    Op(Operator),
    Unary(UnaryOperator),
}

/// The pieces of an expression in the order they are written: unary operators before
/// their operand, binary operators between their sides.
pub open spec fn flatten<A>(e: Expression<A>) -> Seq<Token<A>>
    decreases e,
{
    match e {
        Expression::Atom(a) => seq![Token::Atom(a)],
        Expression::UnaryOperation { operator, right } => seq![Token::Unary(operator)] + flatten(*right),
        Expression::Operation { left, operator, right } => flatten(*left) + seq![Token::Op(operator)]
            + flatten(*right),
    }
}

/// The pieces of the first `k` operator items in the order they are written.
pub open spec fn items_tokens<A>(items: Seq<OpItemView<A>>, k: int) -> Seq<Token<A>>
    decreases k,
{
    if k <= 0 || k > items.len() {
        Seq::empty()
    } else {
        items_tokens(items, k - 1) + seq![Token::Op(items[k - 1].op)] + flatten(items[k - 1].right)
    }
}

/// The pieces of the operations put aside, each left side followed by its operator.
pub open spec fn pending_tokens<A>(lp: Seq<(Expression<A>, Operator)>) -> Seq<Token<A>>
    decreases lp.len(),
{
    if lp.len() == 0 {
        Seq::empty()
    } else {
        pending_tokens(lp.drop_last()) + flatten(lp.last().0) + seq![Token::Op(lp.last().1)]
    }
}

/// The building keeps the pieces seen so far in order, with no unary group aside and
/// only operations put aside.
pub open spec fn build_in_order<A>(st: BuildState<A>, written: Seq<Token<A>>) -> bool {
    &&& st.pending.len() == 0
    &&& st.order == Seq::new(st.left_pending.len(), |i: int| true)
    &&& pending_tokens(st.left_pending) + flatten(st.left) == written
}

proof fn lemma_apply_immediate_empty<A>(e: Expression<A>, nw: Option<int>)
    ensures
        apply_immediate_spec(Seq::<UnaryGroupView>::empty(), e, nw) == (e, Seq::<UnaryGroupView>::empty()),
{
}

proof fn lemma_drain_trues<A>(st: BuildState<A>, order: Seq<bool>, i: int, nw: Option<int>)
    requires
        0 <= i <= order.len(),
        forall|j: int| 0 <= j < order.len() ==> #[trigger] order[j],
        st.left_pending.len() >= order.len() - i,
    ensures
        ({
            let r = drain_spec(st, order, i, Seq::empty(), nw);
            &&& pending_tokens(r.left_pending) + flatten(r.left) == pending_tokens(st.left_pending) + flatten(st.left)
            &&& r.pending == st.pending
            &&& r.order == Seq::<bool>::empty()
            &&& r.left_pending.len() == st.left_pending.len() - (order.len() - i)
        }),
    decreases order.len() - i,
{
    if i < order.len() {
        let (li, oi) = st.left_pending.last();
        let st2 = BuildState {
            left: Expression::Operation { left: Box::new(li), operator: oi, right: Box::new(st.left) },
            left_pending: st.left_pending.drop_last(),
            ..st
        };
        assert(pending_tokens(st2.left_pending) + flatten(st2.left) =~= pending_tokens(st.left_pending)
            + flatten(st.left));
        lemma_drain_trues(st2, order, i + 1, nw);
    }
}

proof fn lemma_build_loop_in_order<A>(st: BuildState<A>, items: Seq<OpItemView<A>>, k: int, first: Expression<A>)
    requires
        0 <= k <= items.len(),
        forall|j: int| 0 <= j < items.len() ==> (#[trigger] items[j]).unaries.len() == 0,
        build_in_order(st, flatten(first) + items_tokens(items, k)),
    ensures
        build_in_order(build_loop_spec(st, items, k), flatten(first) + items_tokens(items, items.len() as int)),
        (k < items.len() || st.left_pending.len() == 0) ==> build_loop_spec(st, items, k).left_pending.len() == 0,
    decreases items.len() - k,
{
    if k < items.len() {
        let item = items[k];
        let next = next_of(items, k);
        let nw = match next {
            Some(n) => Some(n.1),
            None => None,
        };
        assert(item.unaries == Seq::<UnaryGroupView>::empty());
        lemma_apply_immediate_empty(item.right, nw);
        let written = flatten(first) + items_tokens(items, k + 1);
        assert(items_tokens(items, k + 1) == items_tokens(items, k) + seq![Token::Op(item.op)] + flatten(item.right));
        let st2 = step_spec(st, item, next);
        if next matches Some((nop, nws)) && (nws < item.ws || (nws == item.ws && precedence(nop) > precedence(
            item.op,
        ))) {
            assert(st2.left_pending == st.left_pending.push((st.left, item.op)));
            assert(st2.left_pending.drop_last() =~= st.left_pending);
            assert(st2.order =~= Seq::new(st2.left_pending.len(), |i: int| true));
            let a = pending_tokens(st.left_pending);
            let b = flatten(st.left);
            let o = seq![Token::Op(item.op)];
            let fr = flatten(item.right);
            assert(pending_tokens(st2.left_pending) == a + b + o);
            assert((a + b + o) + fr =~= (a + b) + o + fr);
            assert(written =~= flatten(first) + items_tokens(items, k) + o + fr);
            assert(pending_tokens(st2.left_pending) + flatten(st2.left) == written);
        } else {
            let combined = BuildState {
                left: Expression::Operation { left: Box::new(st.left), operator: item.op, right: Box::new(item.right) },
                ..st
            };
            assert(forall|j: int| 0 <= j < st.order.len() ==> #[trigger] st.order[j]);
            lemma_drain_trues(combined, st.order, 0, nw);
            assert(flatten(combined.left) == flatten(st.left) + seq![Token::Op(item.op)] + flatten(item.right));
            let a = pending_tokens(st.left_pending);
            let b = flatten(st.left);
            let o = seq![Token::Op(item.op)];
            let fr = flatten(item.right);
            assert(a + (b + o + fr) =~= (a + b) + o + fr);
            assert(written =~= flatten(first) + items_tokens(items, k) + o + fr);
            assert(pending_tokens(combined.left_pending) + flatten(combined.left) == written);
            assert(st2.order =~= Seq::new(st2.left_pending.len(), |i: int| true));
        }
        lemma_build_loop_in_order(st2, items, k + 1, first);
    }
}

/// Without unary operators, building an expression keeps its atoms and operators in
/// the order they are written: whatever the whitespace, only the grouping changes.
pub proof fn law_build_keeps_written_order<A>(first: Expression<A>, items: Seq<OpItemView<A>>)
    requires
        forall|j: int| 0 <= j < items.len() ==> (#[trigger] items[j]).unaries.len() == 0,
    ensures
        flatten(build_spec(first, Seq::empty(), items)) == flatten(first) + items_tokens(items, items.len() as int),
{
    let next0 = if items.len() > 0 {
        Some(items[0].ws)
    } else {
        None
    };
    lemma_apply_immediate_empty(first, next0);
    let st0 = BuildState {
        left: first,
        pending: Seq::<UnaryGroupView>::empty(),
        order: Seq::new(0, |i: int| false),
        left_pending: Seq::<(Expression<A>, Operator)>::empty(),
    };
    assert(st0.order =~= Seq::new(st0.left_pending.len(), |i: int| true));
    assert(items_tokens(items, 0) == Seq::<Token<A>>::empty());
    assert(pending_tokens(st0.left_pending) + flatten(st0.left) =~= flatten(first) + items_tokens(items, 0));
    lemma_build_loop_in_order(st0, items, 0, first);
    let st = build_loop_spec(st0, items, 0);
    assert(pending_tokens(st.left_pending) == Seq::<Token<A>>::empty());
    assert(pending_tokens(st.left_pending) + flatten(st.left) =~= flatten(st.left));
}

/// The operation of three atoms `a op1 b op2 c`, as written with `w1` and `w2`
/// whitespace characters around the operators.
pub open spec fn three_atoms<A>(op1: Operator, w1: int, b: A, op2: Operator, w2: int, c: A) -> Seq<OpItemView<A>> {
    seq![
        OpItemView { op: op1, ws: w1, right: Expression::Atom(b), unaries: Seq::empty() },
        OpItemView { op: op2, ws: w2, right: Expression::Atom(c), unaries: Seq::empty() },
    ]
}

/// The grouping of `a op1 b op2 c` written with the same whitespace around both
/// operators: `right` says that `b op2 c` applies first.
pub open spec fn grouped<A>(a: A, op1: Operator, b: A, op2: Operator, c: A, right: bool) -> Expression<A> {
    if right {
        Expression::Operation {
            left: Box::new(Expression::Atom(a)),
            operator: op1,
            right: Box::new(Expression::Operation {
                left: Box::new(Expression::Atom(b)),
                operator: op2,
                right: Box::new(Expression::Atom(c)),
            }),
        }
    } else {
        Expression::Operation {
            left: Box::new(Expression::Operation {
                left: Box::new(Expression::Atom(a)),
                operator: op1,
                right: Box::new(Expression::Atom(b)),
            }),
            operator: op2,
            right: Box::new(Expression::Atom(c)),
        }
    }
}

/// With the same whitespace around both operators, multiplication, division and
/// modulo bind tighter than addition, subtraction, the comparisons and the logical
/// operators, and exponentiation binds tighter than all of them; operators that bind
/// alike apply from left to right. So `1+6/2` is `1 + (6 / 2)`, and `6/2*3` is
/// `(6 / 2) * 3`.
pub proof fn law_operator_binding<A>(a: A, op1: Operator, b: A, op2: Operator, c: A, w: int)
    ensures
        ({
            let loose = |op: Operator|
                op != Operator::Multiply && op != Operator::Divide && op != Operator::Modulo && op
                    != Operator::Exponential;
            let product = |op: Operator|
                op == Operator::Multiply || op == Operator::Divide || op == Operator::Modulo;
            let built = build_spec(Expression::Atom(a), Seq::empty(), three_atoms(op1, w, b, op2, w, c));
            &&& loose(op1) && product(op2) ==> built == grouped(a, op1, b, op2, c, true)
            &&& product(op1) && loose(op2) ==> built == grouped(a, op1, b, op2, c, false)
            &&& product(op1) && product(op2) ==> built == grouped(a, op1, b, op2, c, false)
            &&& loose(op1) && loose(op2) ==> built == grouped(a, op1, b, op2, c, false)
            &&& op1 != Operator::Exponential && op2 == Operator::Exponential ==> built == grouped(
                a,
                op1,
                b,
                op2,
                c,
                true,
            )
            &&& op1 == Operator::Exponential && op2 != Operator::Exponential ==> built == grouped(
                a,
                op1,
                b,
                op2,
                c,
                false,
            )
        }),
{
    law_whitespace_then_precedence(a, op1, w, b, op2, w, c);
}

/// Whitespace decides which of two operations applies first: the one with less
/// whitespace around its operator; with as much whitespace, the one whose operator
/// binds tighter; otherwise the left one.
pub proof fn law_whitespace_then_precedence<A>(a: A, op1: Operator, w1: int, b: A, op2: Operator, w2: int, c: A)
    ensures
        build_spec(Expression::Atom(a), Seq::empty(), three_atoms(op1, w1, b, op2, w2, c)) == if w2 < w1 || (w2
            == w1 && precedence(op2) > precedence(op1)) {
            Expression::Operation {
                left: Box::new(Expression::Atom(a)),
                operator: op1,
                right: Box::new(Expression::Operation {
                    left: Box::new(Expression::Atom(b)),
                    operator: op2,
                    right: Box::new(Expression::Atom(c)),
                }),
            }
        } else {
            Expression::Operation {
                left: Box::new(Expression::Operation {
                    left: Box::new(Expression::Atom(a)),
                    operator: op1,
                    right: Box::new(Expression::Atom(b)),
                }),
                operator: op2,
                right: Box::new(Expression::Atom(c)),
            }
        },
{
    let items = three_atoms(op1, w1, b, op2, w2, c);
    lemma_apply_immediate_empty(Expression::Atom(a), Some(w1));
    lemma_apply_immediate_empty(Expression::Atom(b), Some(w2));
    lemma_apply_immediate_empty(Expression::<A>::Atom(c), None);
    let st0 = BuildState {
        left: Expression::Atom(a),
        pending: Seq::<UnaryGroupView>::empty(),
        order: Seq::new(0, |i: int| false),
        left_pending: Seq::<(Expression<A>, Operator)>::empty(),
    };
    assert(st0.order =~= Seq::<bool>::empty());
    assert(next_of(items, 0) == Some((op2, w2)));
    assert(next_of(items, 1) is None);
    let st1 = step_spec(st0, items[0], next_of(items, 0));
    let st2 = step_spec(st1, items[1], next_of(items, 1));
    assert(build_loop_spec(st0, items, 0) == build_loop_spec(st1, items, 1));
    assert(build_loop_spec(st1, items, 1) == build_loop_spec(st2, items, 2));
    if w2 < w1 || (w2 == w1 && precedence(op2) > precedence(op1)) {
        assert(st1.left_pending == seq![(Expression::Atom(a), op1)]);
        assert(st1.order == seq![true]);
        let combined = BuildState {
            left: Expression::Operation {
                left: Box::new(Expression::Atom(b)),
                operator: op2,
                right: Box::new(Expression::Atom(c)),
            },
            ..st1
        };
        assert(st2 == drain_spec(combined, st1.order, 0, Seq::empty(), None));
        assert(seq![(Expression::Atom(a), op1)].drop_last() =~= Seq::<(Expression<A>, Operator)>::empty());
        let popped = BuildState {
            left: Expression::Operation {
                left: Box::new(Expression::Atom(a)),
                operator: op1,
                right: Box::new(combined.left),
            },
            left_pending: Seq::<(Expression<A>, Operator)>::empty(),
            ..combined
        };
        assert(drain_spec(combined, st1.order, 0, Seq::empty(), None) == drain_spec(
            popped,
            st1.order,
            1,
            Seq::empty(),
            None,
        ));
        assert(st2.left == popped.left);
        assert(st2.pending == Seq::<UnaryGroupView>::empty());
    } else {
        assert(st1.left_pending == Seq::<(Expression<A>, Operator)>::empty());
        assert(st1.order == Seq::<bool>::empty());
        assert(st1.left == Expression::Operation {
            left: Box::new(Expression::Atom(a)),
            operator: op1,
            right: Box::new(Expression::Atom(b)),
        });
        assert(st2.left_pending == Seq::<(Expression<A>, Operator)>::empty());
        assert(st2.left == Expression::Operation {
            left: Box::new(st1.left),
            operator: op2,
            right: Box::new(Expression::Atom(c)),
        });
        assert(st2.pending == Seq::<UnaryGroupView>::empty());
    }
    assert(finish_spec(st2.left, st2.pending) == st2.left);
}

/// A run of one unary operator written `n` times: what is left after cancelling
/// (`cancel_from` from position `k` with the run seen so far in use or not).
proof fn lemma_cancel_same(u: UnaryOperator, n: nat, k: int, in_use: bool)
    requires
        1 <= k <= n,
    ensures
        cancel_from(Seq::new(n, |i: int| u), k, u, in_use, Seq::empty()) == if (in_use && (n - k) % 2
            == 0) || (!in_use && (n - k) % 2 == 1) {
            seq![u]
        } else {
            Seq::<UnaryOperator>::empty()
        },
    decreases n - k,
{
    let ops = Seq::new(n, |i: int| u);
    if k < n {
        assert(ops[k] == u);
        lemma_cancel_same(u, n, k + 1, !in_use);
    } else {
        assert(Seq::<UnaryOperator>::empty().push(u) =~= seq![u]);
    }
}

/// A unary operator written twice cancels out: `n` copies of it leave one when `n` is
/// odd and none when it is even.
pub proof fn law_double_unary_cancels(u: UnaryOperator, n: nat)
    requires
        n >= 1,
    ensures
        cancel_run(Seq::new(n, |i: int| u)) == if n % 2 == 1 {
            seq![u]
        } else {
            Seq::<UnaryOperator>::empty()
        },
{
    lemma_cancel_same(u, n, 1, true);
}

} // verus!
