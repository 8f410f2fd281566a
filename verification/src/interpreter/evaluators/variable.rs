//! Declaring and assigning variables.
use vstd::prelude::*;
use crate::interpreter::evaluators::expression::{char_at, char_is};
use crate::interpreter::parsers::{
    end_of_statement, end_of_statement_spec, identifier_at, identifier_spec, lifetime_at, lifetime_spec,
    tag_at, ws, ws1, ws1_spec, ws_end, LifeTime, LifeTimeSpec, LtStep, ParseError, SpecLtStep, SpecStep,
    Step, Terminator,
};
use crate::interpreter::runtime::state::{lookup_spec, InterpreterState};
use crate::interpreter::parsers::types::{chars_to_string, slice_to_vec, Position};
use crate::interpreter::static_analysis::parsers::{decl_word_spec, word_const, word_var};

verus! {

/// How a variable may change: the first word says whether it can be reassigned, the
/// second whether its value can be modified in place
#[derive(Debug, Clone, Copy, PartialEq, Eq, Structural)]
pub enum VarType {
    VarVar,
    ConstVar,
    VarConst,
    ConstConst,
}

impl VarType {
    /// Whether a variable of this type can be given a new value.
    pub open spec fn reassignable(self) -> bool {
        self == VarType::VarConst || self == VarType::VarVar
    }

    /// Whether the value of a variable of this type can be modified in place.
    pub open spec fn mutable(self) -> bool {
        self == VarType::ConstVar || self == VarType::VarVar
    }

    /// Whether a variable of this type can be given a new value: `var const` and `var var`.
    pub fn allows_reassign(&self) -> (r: bool)
        ensures
            r == self.reassignable(),
    {
        match self {
            VarType::VarConst | VarType::VarVar => true,
            _ => false,
        }
    }

    /// Whether the value of a variable of this type can be modified in place: `const var`
    /// and `var var`.
    pub fn allows_mutation(&self) -> (r: bool)
        ensures
            r == self.mutable(),
    {
        match self {
            VarType::ConstVar | VarType::VarVar => true,
            _ => false,
        }
    }
}


/// How a variable is assigned: `=`, or an operator followed by `=`, or `++` / `--`
#[derive(Debug, Clone, Copy, PartialEq, Eq, Structural)]
pub enum VarSetOp {
    // assign
    Equals,
    // logical
    And,
    Or,
    // arithmetic
    Add,
    AddOne,
    SubOne,
    Subtract,
    Multiply,
    Exponential,
    Divide,
    Modulo,
}

/// The assignment operator at `i` and where it ends.
pub open spec fn var_set_op_spec(s: Seq<char>, i: int) -> Option<(int, VarSetOp)> {
    if char_is(s, i, '=') {
        Some((i + 1, VarSetOp::Equals))
    } else if char_is(s, i, '&') && char_is(s, i + 1, '=') {
        Some((i + 2, VarSetOp::And))
    } else if char_is(s, i, '|') && char_is(s, i + 1, '=') {
        Some((i + 2, VarSetOp::Or))
    } else if char_is(s, i, '+') && char_is(s, i + 1, '=') {
        Some((i + 2, VarSetOp::Add))
    } else if char_is(s, i, '+') && char_is(s, i + 1, '+') {
        Some((i + 2, VarSetOp::AddOne))
    } else if char_is(s, i, '-') && char_is(s, i + 1, '-') {
        Some((i + 2, VarSetOp::SubOne))
    } else if char_is(s, i, '-') && char_is(s, i + 1, '=') {
        Some((i + 2, VarSetOp::Subtract))
    } else if char_is(s, i, '*') && char_is(s, i + 1, '=') {
        Some((i + 2, VarSetOp::Multiply))
    } else if char_is(s, i, '^') && char_is(s, i + 1, '=') {
        Some((i + 2, VarSetOp::Exponential))
    } else if char_is(s, i, '/') && char_is(s, i + 1, '=') {
        Some((i + 2, VarSetOp::Divide))
    } else if char_is(s, i, '%') && char_is(s, i + 1, '=') {
        Some((i + 2, VarSetOp::Modulo))
    } else {
        None
    }
}

impl VarSetOp {
    /// Parses an assignment operator at `i`.
    /// # Returns
    /// - where it ends and the operator
    pub fn parse(s: &[char], i: usize) -> (r: Option<(usize, VarSetOp)>)
        ensures
            match var_set_op_spec(s@, i as int) {
                Some((k, op)) => r == Some((k as usize, op)) && i < k <= s@.len(),
                None => r is None,
            },
    {
        let _n = s.len();
        if char_at(s, i, '=') {
            Some((i + 1, VarSetOp::Equals))
        } else if char_at(s, i, '&') && char_at(s, i + 1, '=') {
            Some((i + 2, VarSetOp::And))
        } else if char_at(s, i, '|') && char_at(s, i + 1, '=') {
            Some((i + 2, VarSetOp::Or))
        } else if char_at(s, i, '+') && char_at(s, i + 1, '=') {
            Some((i + 2, VarSetOp::Add))
        } else if char_at(s, i, '+') && char_at(s, i + 1, '+') {
            Some((i + 2, VarSetOp::AddOne))
        } else if char_at(s, i, '-') && char_at(s, i + 1, '-') {
            Some((i + 2, VarSetOp::SubOne))
        } else if char_at(s, i, '-') && char_at(s, i + 1, '=') {
            Some((i + 2, VarSetOp::Subtract))
        } else if char_at(s, i, '*') && char_at(s, i + 1, '=') {
            Some((i + 2, VarSetOp::Multiply))
        } else if char_at(s, i, '^') && char_at(s, i + 1, '=') {
            Some((i + 2, VarSetOp::Exponential))
        } else if char_at(s, i, '/') && char_at(s, i + 1, '=') {
            Some((i + 2, VarSetOp::Divide))
        } else if char_at(s, i, '%') && char_at(s, i + 1, '=') {
            Some((i + 2, VarSetOp::Modulo))
        } else {
            None
        }
    }

    /// Whether the operator needs no expression after it: `++` and `--`.
    pub fn takes_no_expression(&self) -> (r: bool)
        ensures
            r == (*self == VarSetOp::AddOne || *self == VarSetOp::SubOne),
    {
        match self {
            VarSetOp::AddOne | VarSetOp::SubOne => true,
            _ => false,
        }
    }

    /// Whether the operator reads the variable's current value: all but `=`.
    pub fn reads_variable(&self) -> (r: bool)
        ensures
            r == (*self != VarSetOp::Equals),
    {
        match self {
            VarSetOp::Equals => false,
            _ => true,
        }
    }
}

/// The type that the two words of a declaration give (`const` when the word is the
/// longer one).
pub open spec fn var_type_of(first_const: bool, second_const: bool) -> VarType {
    if first_const && second_const {
        VarType::ConstConst
    } else if first_const {
        VarType::ConstVar
    } else if second_const {
        VarType::VarConst
    } else {
        VarType::VarVar
    }
}

/// The two words of a declaration (`var` or `const`, whitespace between them): where
/// they end and the type they give.
pub open spec fn var_type_spec(s: Seq<char>, i: int) -> Option<(int, VarType)> {
    match decl_word_spec(s, i) {
        None => None,
        Some(a) => match ws1_spec(s, a) {
            None => None,
            Some(b) => match decl_word_spec(s, b) {
                None => None,
                Some(c) => Some((c, var_type_of(a == i + 5, c == b + 5))),
            },
        },
    }
}

/// What the start of a declaration holds, up to its expression.
pub enum DeclHeadSpec {
    Done { expr_start: int, type_: VarType, name_start: int, name_end: int, life_time: Option<LifeTimeSpec> },
    Error,
    Failure,
    Panic,
}

/// The start of a declaration: `var const name<life time> = `, the life time being
/// optional; it ends where the expression starts.
pub open spec fn decl_head_spec(s: Seq<char>, i: int) -> DeclHeadSpec {
    match var_type_spec(s, i) {
        None => DeclHeadSpec::Error,
        Some((c0, t)) => match ws1_spec(s, c0) {
            None => DeclHeadSpec::Error,
            Some(c) => match identifier_spec(s, c, Terminator::LifeTime) {
                SpecStep::Panic => DeclHeadSpec::Panic,
                SpecStep::Done(d) => {
                    let (e, lt, fail) = match lifetime_spec(s, d) {
                        SpecLtStep::Done(e, lt) => (e, Some(lt), 0int),
                        SpecLtStep::Error => (d, None, 0int),
                        SpecLtStep::Failure => (d, None, 1int),
                        SpecLtStep::Panic => (d, None, 2int),
                    };
                    if fail == 1 {
                        DeclHeadSpec::Failure
                    } else if fail == 2 {
                        DeclHeadSpec::Panic
                    } else {
                        let f = ws_end(s, e);
                        if 0 <= f < s.len() && s[f] == '=' {
                            DeclHeadSpec::Done {
                                expr_start: ws_end(s, f + 1),
                                type_: t,
                                name_start: c,
                                name_end: d,
                                life_time: lt,
                            }
                        } else {
                            DeclHeadSpec::Error
                        }
                    }
                },
                _ => DeclHeadSpec::Error,
            },
        },
    }
}

/// The start of a declaration, up to its expression
#[derive(Debug)]
pub struct VariableDeclHead {
    pub name: String,
    /// The line the declaration starts on
    pub line: usize,
    pub type_: VarType,
    pub life_time: Option<LifeTime>,
}

/// The two words of a declaration and the type they give.
pub fn var_type_at(s: &[char], i: usize) -> (r: Option<(usize, VarType)>)
    requires
        i <= s@.len(),
    ensures
        match var_type_spec(s@, i as int) {
            Some((k, t)) => r == Some((k as usize, t)) && i < k <= s@.len(),
            None => r is None,
        },
{
    proof {
        reveal_strlit("const");
        reveal_strlit("var");
        assert("const"@ =~= word_const());
        assert("var"@ =~= word_var());
    }
    let n = s.len();
    let first_const = tag_at(s, i, "const");
    let a = if first_const {
        i + 5
    } else if tag_at(s, i, "var") {
        i + 3
    } else {
        return None;
    };
    let b = match ws1(s, a) {
        Some(b) => b,
        None => {
            return None;
        },
    };
    let second_const = tag_at(s, b, "const");
    let c = if second_const {
        b + 5
    } else if tag_at(s, b, "var") {
        b + 3
    } else {
        return None;
    };
    let t = if first_const && second_const {
        VarType::ConstConst
    } else if first_const {
        VarType::ConstVar
    } else if second_const {
        VarType::VarConst
    } else {
        VarType::VarVar
    };
    Some((c, t))
}

impl VariableDeclHead {
    /// Whether parsing the start of a declaration aborts on this input (a life time
    /// whose number of lines does not fit), so that `parse` cannot be called on it.
    pub fn aborts(input: &Position) -> (r: bool)
        ensures
            r == (decl_head_spec(input.input@, 0) is Panic),
    {
        let s = input.input.as_slice();
        let _n = s.len();
        let ghost sv = s@;
        let (c0, t) = match var_type_at(s, 0) {
            Some(x) => x,
            None => {
                assert(decl_head_spec(sv, 0) is Error);
                return false;
            },
        };
        assert(var_type_spec(sv, 0) == Some((c0 as int, t)));
        let c = match ws1(s, c0) {
            Some(c) => c,
            None => {
                assert(ws1_spec(sv, c0 as int) is None);
                assert(decl_head_spec(sv, 0) is Error);
                return false;
            },
        };
        assert(ws1_spec(sv, c0 as int) == Some(c as int));
        match identifier_at(s, c, Terminator::LifeTime) {
            Step::Done(d) => match lifetime_at(s, d) {
                LtStep::Panic => {
                    assert(identifier_spec(sv, c as int, Terminator::LifeTime) == SpecStep::Done(d as int));
                    assert(lifetime_spec(sv, d as int) is Panic);
                    assert(decl_head_spec(sv, 0) is Panic);
                    true
                },
                _ => {
                    assert(!(decl_head_spec(sv, 0) is Panic));
                    false
                },
            },
            Step::Panic => {
                assert(decl_head_spec(sv, 0) is Panic);
                true
            },
            _ => {
                assert(decl_head_spec(sv, 0) is Error);
                false
            },
        }
    }

    /// Parses the start of a declaration, `var const name<life time> = `, up to its
    /// expression (see `decl_head_spec`)
    /// # Returns
    /// - the position where the expression starts and the start of the declaration
    pub fn parse(input: &Position) -> (r: Result<(Position, VariableDeclHead), ParseError>)
        requires
            input.wf(),
            !(decl_head_spec(input.input@, 0) is Panic),
        ensures
            match decl_head_spec(input.input@, 0) {
                DeclHeadSpec::Done { expr_start, type_, name_start, name_end, life_time } => r matches Ok(
                    (rest, head),
                ) && input.advanced_by(expr_start, rest) && rest.wf() && head.type_ == type_
                    && head.line == input.line && head.name@ == input.input@.subrange(name_start, name_end)
                    && match head.life_time {
                    Some(lt) => life_time == Some(lt@),
                    None => life_time is None,
                },
                DeclHeadSpec::Failure => r == Err::<(Position, VariableDeclHead), ParseError>(
                    ParseError::Failure,
                ),
                _ => r == Err::<(Position, VariableDeclHead), ParseError>(ParseError::Error),
            },
    {
        let s = input.input.as_slice();
        let (c0, t) = match var_type_at(s, 0) {
            Some(x) => x,
            None => {
                return Err(ParseError::Error);
            },
        };
        let c = match ws1(s, c0) {
            Some(c) => c,
            None => {
                return Err(ParseError::Error);
            },
        };
        let d = match identifier_at(s, c, Terminator::LifeTime) {
            Step::Done(d) => d,
            _ => {
                return Err(ParseError::Error);
            },
        };
        let (e, life_time) = match lifetime_at(s, d) {
            LtStep::Done(e, lt) => (e, Some(lt)),
            LtStep::Failure => {
                return Err(ParseError::Failure);
            },
            _ => (d, None),
        };
        let f = ws(s, e);
        if f < s.len() && s[f] == '=' {
            let g = ws(s, f + 1);
            let name = chars_to_string(slice_to_vec(s, c, d).as_slice());
            Ok((input.advance(g), VariableDeclHead { name, line: input.line, type_: t, life_time }))
        } else {
            Err(ParseError::Error)
        }
    }
}

/// What the start of an assignment holds.
pub enum SetHeadSpec {
    /// The name, the operator, and where the expression starts, or where the statement
    /// ends for `++` and `--`
    Done { name_end: int, op: VarSetOp, next: int },
    Error,
    Panic,
}

/// The start of an assignment: a name (up to whitespace, a life time or an assignment
/// operator), whitespace, the operator and whitespace. An operator other than `=` needs
/// the variable to be declared (`declared`); `++` and `--` are followed by the end of
/// the statement.
pub open spec fn set_head_spec(s: Seq<char>, declared: bool) -> SetHeadSpec {
    match identifier_spec(s, 0, Terminator::LifeTimeOrAssign) {
        SpecStep::Panic => SetHeadSpec::Panic,
        SpecStep::Done(k) => match var_set_op_spec(s, ws_end(s, k)) {
            None => SetHeadSpec::Error,
            Some((b, op)) => {
                let c = ws_end(s, b);
                if op != VarSetOp::Equals && !declared {
                    SetHeadSpec::Error
                } else if op == VarSetOp::AddOne || op == VarSetOp::SubOne {
                    match end_of_statement_spec(s, c) {
                        Some(e) => SetHeadSpec::Done { name_end: k, op, next: e },
                        None => SetHeadSpec::Error,
                    }
                } else {
                    SetHeadSpec::Done { name_end: k, op, next: c }
                }
            },
        },
        _ => SetHeadSpec::Error,
    }
}

/// The start of an assignment
#[derive(Debug)]
pub struct VarSetHead {
    pub name: String,
    /// The line the assignment is on
    pub line: usize,
    pub op: VarSetOp,
}

impl VarSetHead {
    /// Parses the start of an assignment: the name, the operator, and for `++` and `--`
    /// the end of the statement (see `set_head_spec`); the variable is looked up in
    /// `state`
    /// # Returns
    /// - the position where the expression starts (after the statement for `++` and
    ///   `--`) and the start of the assignment; none when it does not match, and
    ///   `Err` when the name's life time aborts the parse
    pub fn parse<V, W>(input: &Position, state: &InterpreterState<V, W>) -> (r: Result<
        Option<(Position, VarSetHead)>,
        (),
    >)
        requires
            input.wf(),
            state.wf(),
        ensures
            ({
                let s = input.input@;
                let k = match identifier_spec(s, 0, Terminator::LifeTimeOrAssign) {
                    SpecStep::Done(k) => k,
                    _ => 0,
                };
                let declared = lookup_spec(state@, s.subrange(0, k)) is Some;
                match set_head_spec(s, declared) {
                    SetHeadSpec::Done { name_end, op, next } => r matches Ok(Some((rest, head)))
                        && input.advanced_by(next, rest) && rest.wf() && head.op == op && head.line
                        == input.line && head.name@ == s.subrange(0, name_end),
                    SetHeadSpec::Error => r == Ok::<Option<(Position, VarSetHead)>, ()>(None),
                    SetHeadSpec::Panic => r is Err,
                }
            }),
    {
        let s = input.input.as_slice();
        let _n = s.len();
        let k = match identifier_at(s, 0, Terminator::LifeTimeOrAssign) {
            Step::Done(k) => k,
            Step::Panic => {
                return Err(());
            },
            _ => {
                return Ok(None);
            },
        };
        let name = chars_to_string(slice_to_vec(s, 0, k).as_slice());
        let a = ws(s, k);
        let (b, op) = match VarSetOp::parse(s, a) {
            Some(x) => x,
            None => {
                return Ok(None);
            },
        };
        let c = ws(s, b);
        if op.reads_variable() && state.get_var(name.as_str()).is_none() {
            return Ok(None);
        }
        if op.takes_no_expression() {
            match end_of_statement(s, c) {
                Some(e) => Ok(Some((input.advance(e), VarSetHead { name, line: input.line, op }))),
                None => Ok(None),
            }
        } else {
            Ok(Some((input.advance(c), VarSetHead { name, line: input.line, op })))
        }
    }
}

} // verus!
