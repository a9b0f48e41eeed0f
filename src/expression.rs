//! Evaluation of expressions against the program store.
use vstd::prelude::*;

use crate::ast::{Expression, Span};
use crate::errors::StatementError;
use crate::store::{new_scope, ProgramStore};
use crate::value::{lemma_view_values, view_value, view_values, ConstrainedValue, Val};

verus! {

/// What a read of a variable sees: the value without its `Mutable` wrapper.
pub open spec fn strip_mutable(v: Val) -> Val {
    match v {
        Val::Mutable(b) => *b,
        _ => v,
    }
}

/// An index or bound: the value must be an integer, read from literals or
/// from variables alike (a loop index is bound to an integer, so loop bodies
/// may use it).
pub open spec fn as_index(r: Result<Val, StatementError>, sp: Span) -> Result<int, StatementError> {
    match r {
        Err(x) => Err(x),
        Ok(Val::Integer(n)) => Ok(n as int),
        Ok(_) => Err(StatementError::NonConcreteIndex(sp)),
    }
}

/// The index `e` resolves to in `scope`.
pub open spec fn index_value(env: Map<Seq<u32>, Val>, scope: Seq<u32>, e: Expression, sp: Span) -> Result<
    int,
    StatementError,
> {
    as_index(eval(env, scope, e, sp), sp)
}

/// An optional bound: absent means `default`.
pub open spec fn bound_or(
    env: Map<Seq<u32>, Val>,
    scope: Seq<u32>,
    e: Option<Box<Expression>>,
    default: int,
    sp: Span,
) -> Result<int, StatementError> {
    match e {
        None => Ok(default),
        Some(b) => index_value(env, scope, *b, sp),
    }
}

/// A literal index: an integer literal or a sum of such.
pub open spec fn const_index(e: Expression, sp: Span) -> Result<int, StatementError>
    decreases e,
{
    match e {
        Expression::Integer(n) => Ok(n as int),
        Expression::Add(a, b) => match const_index(*a, sp) {
            Err(x) => Err(x),
            Ok(x) => match const_index(*b, sp) {
                Err(y) => Err(y),
                Ok(y) => if x + y <= u32::MAX {
                    Ok(x + y)
                } else {
                    Err(StatementError::Overflow(sp))
                },
            },
        },
        _ => Err(StatementError::NonConcreteIndex(sp)),
    }
}

/// A literal index resolves to its value in every store and scope.
pub proof fn lemma_const_index(env: Map<Seq<u32>, Val>, scope: Seq<u32>, e: Expression, sp: Span)
    ensures
        const_index(e, sp) is Ok ==> eval(env, scope, e, sp) == Ok::<Val, StatementError>(
            Val::Integer(const_index(e, sp)->Ok_0 as u32),
        ) && index_value(env, scope, e, sp) == const_index(e, sp),
    decreases e,
{
    if let Expression::Add(a, b) = e {
        lemma_const_index(env, scope, *a, sp);
        lemma_const_index(env, scope, *b, sp);
    }
}

/// The value of `e` read in `scope`.
pub open spec fn eval(env: Map<Seq<u32>, Val>, scope: Seq<u32>, e: Expression, sp: Span) -> Result<Val, StatementError>
    decreases e,
{
    match e {
        Expression::Integer(n) => Ok(Val::Integer(n)),
        Expression::Boolean(b) => Ok(Val::Boolean(b)),
        Expression::Field(f) => Ok(Val::FieldElement(f)),
        Expression::Identifier(x) => if env.contains_key(scope.push(x)) {
            Ok(strip_mutable(env[scope.push(x)]))
        } else {
            Err(StatementError::UndefinedVariable(sp))
        },
        Expression::Add(a, b) => match eval(env, scope, *a, sp) {
            Err(x) => Err(x),
            Ok(x) => match eval(env, scope, *b, sp) {
                Err(y) => Err(y),
                Ok(y) => match (x, y) {
                    (Val::Integer(m), Val::Integer(n)) => if m + n <= u32::MAX {
                        Ok(Val::Integer((m + n) as u32))
                    } else {
                        Err(StatementError::Overflow(sp))
                    },
                    _ => Err(StatementError::TypeMismatch(sp)),
                },
            },
        },
        Expression::Not(a) => match eval(env, scope, *a, sp) {
            Err(x) => Err(x),
            Ok(Val::Boolean(b)) => Ok(Val::Boolean(!b)),
            Ok(_) => Err(StatementError::TypeMismatch(sp)),
        },
        Expression::Slice(a, from, to) => match eval(env, scope, *a, sp) {
            Err(x) => Err(x),
            Ok(Val::Array(xs)) => match (match from {
                None => Ok(0int),
                Some(fb) => as_index(eval(env, scope, *fb, sp), sp),
            }) {
                Err(x) => Err(x),
                Ok(f) => match (match to {
                    None => Ok(xs.len() as int),
                    Some(tb) => as_index(eval(env, scope, *tb, sp), sp),
                }) {
                    Err(x) => Err(x),
                    Ok(t) => if f <= t <= xs.len() {
                        Ok(Val::Array(xs.subrange(f, t)))
                    } else {
                        Err(StatementError::IndexOutOfRange(sp))
                    },
                },
            },
            Ok(_) => Err(StatementError::TypeMismatch(sp)),
        },
    }
}

/// Resolves an index expression to an integer, reading variables in `scope`.
pub fn enforce_index(store: &ProgramStore, scope: &Vec<u32>, e: &Expression, sp: Span) -> (r: Result<
    u32,
    StatementError,
>)
    ensures
        match index_value(store@, scope@, *e, sp) {
            Ok(n) => r is Ok && n == r->Ok_0 as int,
            Err(x) => r == Err::<u32, StatementError>(x),
        },
{
    match enforce_expression(store, scope, e, sp)? {
        ConstrainedValue::Integer(n) => Ok(n),
        _ => Err(StatementError::NonConcreteIndex(sp)),
    }
}

/// Resolves an optional bound; absent means `default`.
pub fn enforce_bound(
    store: &ProgramStore,
    scope: &Vec<u32>,
    e: &Option<Box<Expression>>,
    default: usize,
    sp: Span,
) -> (r: Result<usize, StatementError>)
    ensures
        match bound_or(store@, scope@, *e, default as int, sp) {
            Ok(n) => r is Ok && n == r->Ok_0 as int,
            Err(x) => r == Err::<usize, StatementError>(x),
        },
{
    match e {
        None => Ok(default),
        Some(b) => {
            let n = enforce_index(store, scope, b, sp)?;
            Ok(n as usize)
        },
    }
}

/// Evaluates `e` in `scope`; a variable read yields a copy of its value.
pub fn enforce_expression(store: &ProgramStore, scope: &Vec<u32>, e: &Expression, sp: Span) -> (r: Result<
    ConstrainedValue,
    StatementError,
>)
    ensures
        match eval(store@, scope@, *e, sp) {
            Ok(v) => r is Ok && r->Ok_0@ == v,
            Err(x) => r == Err::<ConstrainedValue, StatementError>(x),
        },
    decreases e,
{
    match e {
        Expression::Integer(n) => Ok(ConstrainedValue::Integer(*n)),
        Expression::Boolean(b) => Ok(ConstrainedValue::Boolean(*b)),
        Expression::Field(f) => Ok(ConstrainedValue::FieldElement(*f)),
        Expression::Identifier(x) => {
            let key = new_scope(scope, *x);
            match store.get(&key) {
                None => Err(StatementError::UndefinedVariable(sp)),
                Some(v) => match v {
                    ConstrainedValue::Mutable(b) => Ok(*b),
                    other => Ok(other),
                },
            }
        },
        Expression::Add(a, b) => {
            let x = enforce_expression(store, scope, a, sp)?;
            let y = enforce_expression(store, scope, b, sp)?;
            match (x, y) {
                (ConstrainedValue::Integer(m), ConstrainedValue::Integer(n)) => {
                    if m <= u32::MAX - n {
                        Ok(ConstrainedValue::Integer(m + n))
                    } else {
                        Err(StatementError::Overflow(sp))
                    }
                },
                _ => Err(StatementError::TypeMismatch(sp)),
            }
        },
        Expression::Not(a) => {
            let x = enforce_expression(store, scope, a, sp)?;
            match x {
                ConstrainedValue::Boolean(b) => Ok(ConstrainedValue::Boolean(!b)),
                _ => Err(StatementError::TypeMismatch(sp)),
            }
        },
        Expression::Slice(a, from, to) => {
            let x = enforce_expression(store, scope, a, sp)?;
            match x {
                ConstrainedValue::Array(xs) => {
                    proof {
                        lemma_view_values(xs@);
                    }
                    let f: usize = match from {
                        None => 0,
                        Some(fb) => match enforce_expression(store, scope, fb, sp)? {
                            ConstrainedValue::Integer(n) => n as usize,
                            _ => {
                                return Err(StatementError::NonConcreteIndex(sp));
                            },
                        },
                    };
                    let t: usize = match to {
                        None => xs.len(),
                        Some(tb) => match enforce_expression(store, scope, tb, sp)? {
                            ConstrainedValue::Integer(n) => n as usize,
                            _ => {
                                return Err(StatementError::NonConcreteIndex(sp));
                            },
                        },
                    };
                    if !(f <= t && t <= xs.len()) {
                        return Err(StatementError::IndexOutOfRange(sp));
                    }
                    let mut out: Vec<ConstrainedValue> = Vec::new();
                    let mut i: usize = f;
                    while i < t
                        invariant
                            f <= i <= t <= xs.len(),
                            out@.len() == i - f,
                            forall|j: int|
                                0 <= j < out@.len() ==> view_value(#[trigger] out@[j]) == view_value(
                                    xs@[f + j],
                                ),
                        decreases t - i,
                    {
                        out.push(xs[i].duplicate());
                        i = i + 1;
                    }
                    proof {
                        lemma_view_values(out@);
                        assert(view_values(out@) =~= view_values(xs@).subrange(f as int, t as int));
                    }
                    Ok(ConstrainedValue::Array(out))
                },
                _ => Err(StatementError::TypeMismatch(sp)),
            }
        },
    }
}

} // verus!
