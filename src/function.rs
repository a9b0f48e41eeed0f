//! Function enforcement: binds arguments under a fresh scope, enforces the
//! body, and selects the returned value from every candidate result.
use vstd::prelude::*;

use crate::ast::{Expression, Function, FunctionInput, Span, Type, SYM_INPUT, SYM_SELF};
use crate::errors::{FunctionError, StatementError};
use crate::expression::{enforce_expression, eval};
use crate::program::{live, state_of, Constraint, ConstrainedProgram, ConstraintSystem, State};
use crate::statement::{results_view, run_block};
use crate::store::new_scope;
use crate::value::{lemma_view_values, view_value, view_values, ConstrainedValue, Val};

verus! {

/// The number of values a function declares it returns.
pub open spec fn output_arity(output: Option<Type>) -> int {
    match output {
        None => 0,
        Some(Type::Tuple(ts)) => ts.len() as int,
        Some(_) => 1,
    }
}

/// The name a parameter is bound under.
pub open spec fn input_name(i: FunctionInput) -> u32 {
    match i {
        FunctionInput::InputKeyword => SYM_INPUT,
        FunctionInput::SelfKeyword => SYM_SELF,
        FunctionInput::MutSelfKeyword => SYM_SELF,
        FunctionInput::Variable(_, x, _) => x,
    }
}

/// An argument as stored: wrapped in `Mutable` where the parameter is.
pub open spec fn input_value(i: FunctionInput, v: Val) -> Val {
    match i {
        FunctionInput::MutSelfKeyword => Val::Mutable(Box::new(v)),
        FunctionInput::Variable(true, _, _) => Val::Mutable(Box::new(v)),
        _ => v,
    }
}

/// The store after binding parameters `i..` to arguments evaluated in the
/// caller's scope; parameters and arguments are paired while both last. An
/// argument must have its parameter's declared type. A failing argument
/// comes with the store reached before it.
pub open spec fn bind_inputs(
    env: Map<Seq<u32>, Val>,
    fscope: Seq<u32>,
    caller: Seq<u32>,
    inputs: Seq<FunctionInput>,
    args: Seq<Expression>,
    i: int,
    sp: Span,
) -> Result<Map<Seq<u32>, Val>, (Map<Seq<u32>, Val>, StatementError)>
    decreases inputs.len() - i,
{
    if i < 0 || i >= inputs.len() || i >= args.len() {
        Ok(env)
    } else {
        match eval(env, caller, args[i], sp) {
            Err(e) => Err((env, e)),
            Ok(v) => if !input_typed(inputs[i], v) {
                Err((env, StatementError::TypeMismatch(sp)))
            } else {
                bind_inputs(
                env.insert(fscope.push(input_name(inputs[i])), input_value(inputs[i], v)),
                fscope,
                caller,
                inputs,
                args,
                i + 1,
                sp,
            )
            },
        }
    }
}

/// Whether an argument has the type its parameter declares; keyword
/// parameters declare none.
pub open spec fn input_typed(i: FunctionInput, v: Val) -> bool {
    match i {
        FunctionInput::Variable(_, _, t) => has_type(v, t),
        _ => true,
    }
}

/// The returned value: starting from the empty tuple, each result whose
/// indicator is live replaces the value so far.
pub open spec fn fold_results(rs: Seq<(Option<bool>, Val)>) -> Val
    decreases rs.len(),
{
    if rs.len() == 0 {
        Val::Tuple(seq![])
    } else {
        let acc = fold_results(rs.subrange(0, rs.len() - 1));
        if live(rs[rs.len() - 1].0) {
            rs[rs.len() - 1].1
        } else {
            acc
        }
    }
}

/// The number of values in a returned value.
pub open spec fn returned_count(v: Val) -> int {
    match v {
        Val::Tuple(vs) => vs.len() as int,
        Val::Return(vs) => vs.len() as int,
        _ => 1,
    }
}

/// Whether `v` is a value of the declared type `t`.
pub open spec fn has_type(v: Val, t: Type) -> bool
    decreases t,
{
    match t {
        Type::Integer => v is Integer,
        Type::Boolean => v is Boolean,
        Type::Field => v is FieldElement,
        Type::Group => v is GroupElement,
        Type::Array(elem, n) => match v {
            Val::Array(xs) => xs.len() == n && forall|i: int| 0 <= i < xs.len() ==> has_type(#[trigger] xs[i], *elem),
            _ => false,
        },
        Type::Tuple(ts) => match v {
            Val::Tuple(xs) => xs.len() == ts@.len() && forall|i: int|
                0 <= i < ts@.len() ==> has_type(#[trigger] xs[i], ts@[i]),
            _ => false,
        },
        Type::Circuit(c) => match v {
            Val::CircuitExpression(d, _) => c == d,
            _ => false,
        },
    }
}

/// The values a function handed back.
pub open spec fn returned_values(v: Val) -> Seq<Val> {
    match v {
        Val::Tuple(vs) => vs,
        Val::Return(vs) => vs,
        _ => seq![v],
    }
}

/// Whether each returned value has the type declared for its position.
pub open spec fn returns_typed(v: Val, output: Option<Type>) -> bool {
    returns_typed_seq(returned_values(v), output)
}

pub open spec fn returns_typed_seq(vs: Seq<Val>, output: Option<Type>) -> bool {
    match output {
        None => true,
        Some(Type::Tuple(ts)) => forall|i: int|
            0 <= i < ts@.len() && i < vs.len() ==> has_type(#[trigger] vs[i], ts@[i]),
        Some(t) => vs.len() > 0 ==> has_type(vs[0], t),
    }
}

/// Whether a value is of the declared type `t`.
#[verifier::loop_isolation(false)]
pub fn value_has_type(v: &ConstrainedValue, t: &Type) -> (r: bool)
    ensures
        r == has_type(v@, *t),
    decreases t,
{
    match t {
        Type::Integer => matches!(v, ConstrainedValue::Integer(_)),
        Type::Boolean => matches!(v, ConstrainedValue::Boolean(_)),
        Type::Field => matches!(v, ConstrainedValue::FieldElement(_)),
        Type::Group => matches!(v, ConstrainedValue::GroupElement(_)),
        Type::Circuit(c) => match v {
            ConstrainedValue::CircuitExpression(d, _) => *c == *d,
            _ => false,
        },
        Type::Array(elem, n) => match v {
            ConstrainedValue::Array(xs) => {
                proof {
                    lemma_view_values(xs@);
                }
                if xs.len() != *n {
                    return false;
                }
                let mut i: usize = 0;
                while i < xs.len()
                    invariant
                        0 <= i <= xs.len(),
                        forall|j: int| 0 <= j < i ==> has_type(view_value(#[trigger] xs@[j]), **elem),
                    decreases xs.len() - i,
                {
                    proof {
                        vstd::std_specs::vec::axiom_vec_index_decreases(*xs, i as int);
                    }
                    if !value_has_type(&xs[i], elem) {
                        proof {
                            lemma_view_values(xs@);
                            assert(!has_type(view_values(xs@)[i as int], **elem));
                        }
                        return false;
                    }
                    i = i + 1;
                }
                proof {
                    lemma_view_values(xs@);
                    assert forall|k: int| 0 <= k < view_values(xs@).len() implies has_type(
                        #[trigger] view_values(xs@)[k],
                        **elem,
                    ) by {
                        assert(has_type(view_value(xs@[k]), **elem));
                    }
                }
                true
            },
            _ => false,
        },
        Type::Tuple(ts) => match v {
            ConstrainedValue::Tuple(xs) => {
                proof {
                    lemma_view_values(xs@);
                }
                if xs.len() != ts.len() {
                    return false;
                }
                let mut i: usize = 0;
                while i < ts.len()
                    invariant
                        0 <= i <= ts.len(),
                        xs.len() == ts.len(),
                        forall|j: int| 0 <= j < i ==> has_type(view_value(#[trigger] xs@[j]), ts@[j]),
                    decreases ts.len() - i,
                {
                    proof {
                        vstd::std_specs::vec::axiom_vec_index_decreases(*ts, i as int);
                    }
                    if !value_has_type(&xs[i], &ts[i]) {
                        proof {
                            lemma_view_values(xs@);
                            assert(!has_type(view_values(xs@)[i as int], ts@[i as int]));
                        }
                        return false;
                    }
                    i = i + 1;
                }
                proof {
                    lemma_view_values(xs@);
                    assert forall|k: int| 0 <= k < ts@.len() implies has_type(
                        #[trigger] view_values(xs@)[k],
                        ts@[k],
                    ) by {
                        assert(has_type(view_value(xs@[k]), ts@[k]));
                    }
                }
                true
            },
            _ => false,
        },
    }
}

/// Whether each of `vs` has the type declared for its position.
#[verifier::loop_isolation(false)]
fn all_returns_typed(vs: &Vec<ConstrainedValue>, output: &Option<Type>) -> (r: bool)
    ensures
        r == returns_typed_seq(view_values(vs@), *output),
{
    proof {
        lemma_view_values(vs@);
    }
    match output {
        None => true,
        Some(Type::Tuple(ts)) => {
            let mut i: usize = 0;
            while i < ts.len() && i < vs.len()
                invariant
                    0 <= i <= ts.len(),
                    forall|j: int| 0 <= j < i && j < vs.len() ==> has_type(view_value(#[trigger] vs@[j]), ts@[j]),
                decreases ts.len() - i,
            {
                if !value_has_type(&vs[i], &ts[i]) {
                    proof {
                        lemma_view_values(vs@);
                        assert(!has_type(view_values(vs@)[i as int], ts@[i as int]));
                    }
                    return false;
                }
                i = i + 1;
            }
            proof {
                lemma_view_values(vs@);
                assert forall|k: int| 0 <= k < ts@.len() && k < view_values(vs@).len() implies has_type(
                    #[trigger] view_values(vs@)[k],
                    ts@[k],
                ) by {
                    assert(has_type(view_value(vs@[k]), ts@[k]));
                }
            }
            true
        },
        Some(t) => vs.len() == 0 || value_has_type(&vs[0], t),
    }
}

/// Whether each returned value has the type declared for its position.
pub fn returns_have_types(v: &ConstrainedValue, output: &Option<Type>) -> (r: bool)
    ensures
        r == returns_typed(v@, *output),
{
    match v {
        ConstrainedValue::Tuple(vs) => {
            let r = all_returns_typed(vs, output);
            assert(v@ == Val::Tuple(view_values(vs@)));
            r
        },
        ConstrainedValue::Return(vs) => {
            let r = all_returns_typed(vs, output);
            assert(v@ == Val::Return(view_values(vs@)));
            r
        },
        _ => match output {
            None => true,
            Some(Type::Tuple(ts)) => {
                let ghost rv = returned_values(v@);
                assert(rv == seq![v@]);
                if ts.len() == 0 {
                    true
                } else {
                    let r = value_has_type(v, &ts[0]);
                    assert(rv[0] == v@);
                    r
                }
            },
            Some(t) => {
                assert(returned_values(v@) == seq![v@]);
                value_has_type(v, t)
            },
        },
    }
}

pub open spec fn selections(n: nat) -> Seq<Constraint> {
    Seq::new(n, |i: int| Constraint::Selection)
}

/// Enforcing a call of `f` with arguments `args` read in `caller`.
pub open spec fn run_function(
    st: State,
    scope: Seq<u32>,
    caller: Seq<u32>,
    f: Function,
    args: Seq<Expression>,
) -> Result<(State, Val), (State, FunctionError)> {
    let fscope = scope.push(f.name);
    match bind_inputs(st.store, fscope, caller, f.input@, args, 0, f.span) {
        Err((env, e)) => Err((State { store: env, cs: st.cs }, FunctionError::Statement(e))),
        Ok(env) => match run_block(State { store: env, cs: st.cs }, fscope, None, f.statements@, 0) {
            Err((st2, e)) => Err((st2, FunctionError::Statement(e))),
            Ok((st2, rs)) => {
                let v = fold_results(rs);
                let st3 = State { store: st2.store, cs: st2.cs + selections(rs.len()) };
                if returned_count(v) != output_arity(f.output) {
                    Err(
                        (
                            st3,
                            FunctionError::ReturnArgumentsLength(
                                output_arity(f.output) as usize,
                                returned_count(v) as usize,
                                f.span,
                            ),
                        ),
                    )
                } else if !returns_typed(v, f.output) {
                    Err((st3, FunctionError::ReturnTypeMismatch(f.span)))
                } else {
                    Ok((st3, v))
                }
            },
        },
    }
}

impl ConstrainedProgram {
    /// Folds the candidate results into the returned value, one selection each.
    pub fn conditionally_select_result(
        cs: &mut ConstraintSystem,
        results: &Vec<(Option<bool>, ConstrainedValue)>,
    ) -> (r: ConstrainedValue)
        ensures
            r@ == fold_results(results_view(results@)),
            final(cs).constraints@ == old(cs).constraints@ + selections(results@.len()),
    {
        let empty: Vec<ConstrainedValue> = Vec::new();
        proof {
            lemma_view_values(empty@);
            assert(view_values(empty@) =~= seq![]);
        }
        let mut acc = ConstrainedValue::Tuple(empty);
        let mut i: usize = 0;
        proof {
            assert(results_view(results@).subrange(0, 0).len() == 0);
            assert(old(cs).constraints@ + selections(0) =~= old(cs).constraints@);
        }
        while i < results.len()
            invariant
                0 <= i <= results.len(),
                acc@ == fold_results(results_view(results@).subrange(0, i as int)),
                cs.constraints@ == old(cs).constraints@ + selections(i as nat),
            decreases results.len() - i,
        {
            let live_now = match results[i].0 {
                Some(b) => b,
                None => true,
            };
            if live_now {
                acc = results[i].1.duplicate();
            }
            cs.constraints.push(Constraint::Selection);
            proof {
                let rv = results_view(results@);
                assert(rv.subrange(0, i + 1).subrange(0, i as int) =~= rv.subrange(0, i as int));
                assert(old(cs).constraints@ + selections((i + 1) as nat) =~= old(cs).constraints@
                    + selections(i as nat) + seq![Constraint::Selection]);
            }
            i = i + 1;
        }
        assert(results_view(results@).subrange(0, results.len() as int) =~= results_view(results@));
        acc
    }

    fn bind_function_inputs(
        &mut self,
        fscope: &Vec<u32>,
        caller_scope: &Vec<u32>,
        inputs: &Vec<FunctionInput>,
        args: &Vec<Expression>,
        sp: Span,
    ) -> (r: Result<(), StatementError>)
        ensures
            match bind_inputs(old(self).store@, fscope@, caller_scope@, inputs@, args@, 0, sp) {
                Ok(env) => r is Ok && final(self).store@ == env,
                Err((env, e)) => r == Err::<(), StatementError>(e) && final(self).store@ == env,
            },
    {
        let mut i: usize = 0;
        while i < inputs.len() && i < args.len()
            invariant
                0 <= i <= inputs.len(),
                bind_inputs(old(self).store@, fscope@, caller_scope@, inputs@, args@, 0, sp) == bind_inputs(
                    self.store@,
                    fscope@,
                    caller_scope@,
                    inputs@,
                    args@,
                    i as int,
                    sp,
                ),
            decreases inputs.len() - i,
        {
            let value = enforce_expression(&self.store, caller_scope, &args[i], sp)?;
            if let FunctionInput::Variable(_, _, t) = &inputs[i] {
                if !value_has_type(&value, t) {
                    return Err(StatementError::TypeMismatch(sp));
                }
            }
            let (name, stored) = match &inputs[i] {
                FunctionInput::InputKeyword => (SYM_INPUT, value),
                FunctionInput::SelfKeyword => (SYM_SELF, value),
                FunctionInput::MutSelfKeyword => (SYM_SELF, ConstrainedValue::Mutable(Box::new(value))),
                FunctionInput::Variable(mutable, x, _) => if *mutable {
                    (*x, ConstrainedValue::Mutable(Box::new(value)))
                } else {
                    (*x, value)
                },
            };
            let key = new_scope(fscope, name);
            self.store.store(key, stored);
            i = i + 1;
        }
        Ok(())
    }

    /// Enforces a call of `function` with arguments read in `caller_scope`:
    /// the body runs unconditionally in the scope `scope` + the function's
    /// name, and the returned values must match the declared output in number
/// and in type.
    pub fn enforce_function(
        &mut self,
        cs: &mut ConstraintSystem,
        scope: &Vec<u32>,
        caller_scope: &Vec<u32>,
        function: &Function,
        input: &Vec<Expression>,
    ) -> (r: Result<ConstrainedValue, FunctionError>)
        ensures
            match run_function(state_of(*old(self), *old(cs)), scope@, caller_scope@, *function, input@) {
                Ok((st, v)) => r is Ok && r->Ok_0@ == v && state_of(*final(self), *final(cs)) == st,
                Err((st, e)) => r == Err::<ConstrainedValue, FunctionError>(e) && state_of(
                    *final(self),
                    *final(cs),
                ) == st,
            },
    {
        let function_name = new_scope(scope, function.name);
        match self.bind_function_inputs(&function_name, caller_scope, &function.input, input, function.span) {
            Ok(()) => {},
            Err(e) => {
                return Err(FunctionError::Statement(e));
            },
        }
        let results = match self.evaluate_branch(cs, &function_name, None, &function.statements) {
            Ok(rs) => rs,
            Err(e) => {
                return Err(FunctionError::Statement(e));
            },
        };
        let return_value = Self::conditionally_select_result(cs, &results);
        let return_types: usize = match &function.output {
            None => 0,
            Some(Type::Tuple(types)) => types.len(),
            Some(_) => 1,
        };
        let returned: usize = match &return_value {
            ConstrainedValue::Tuple(vs) => {
                proof {
                    lemma_view_values(vs@);
                }
                vs.len()
            },
            ConstrainedValue::Return(vs) => {
                proof {
                    lemma_view_values(vs@);
                }
                vs.len()
            },
            _ => 1,
        };
        if return_types != returned {
            return Err(FunctionError::ReturnArgumentsLength(return_types, returned, function.span));
        }
        if !returns_have_types(&return_value, &function.output) {
            return Err(FunctionError::ReturnTypeMismatch(function.span));
        }
        Ok(return_value)
    }
}

} // verus!
