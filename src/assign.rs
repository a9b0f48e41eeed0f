//! The assignment mutator: resolves a target to a `Mutable` slot and writes a
//! conditionally selected value back.
use vstd::prelude::*;

use crate::ast::{Assignee, Expression, RangeOrExpression, Span};
use crate::errors::StatementError;
use crate::expression::{bound_or, enforce_bound, enforce_expression, enforce_index, eval, index_value};
use crate::program::{live, select, state_of, Constraint, ConstrainedProgram, ConstraintSystem, State};
use crate::store::new_scope;
use crate::value::{
    lemma_view_members, lemma_view_values, same_type, view_members, view_value, view_values,
    ConstrainedValue, Val,
};

verus! {

/// The variable an assignment writes to.
pub open spec fn assignee_root(a: Assignee) -> u32 {
    match a {
        Assignee::Identifier(x) => x,
        Assignee::Array(x, _) => x,
        Assignee::CircuitField(x, _) => x,
    }
}

/// The value inside the slot `name`, which must exist and be `Mutable`.
pub open spec fn mutable_slot(store: Map<Seq<u32>, Val>, name: Seq<u32>, sp: Span) -> Result<Val, StatementError> {
    if !store.contains_key(name) {
        Err(StatementError::UndefinedVariable(sp))
    } else {
        match store[name] {
            Val::Mutable(b) => Ok(*b),
            _ => Err(StatementError::ImmutableAssign(sp)),
        }
    }
}

/// `xs` with `[from, to)` replaced by `ys`.
pub open spec fn splice(xs: Seq<Val>, from: int, to: int, ys: Seq<Val>) -> Seq<Val> {
    xs.subrange(0, from) + ys + xs.subrange(to, xs.len() as int)
}

/// The index of the first member named `name` at or after `i`.
pub open spec fn member_index(ms: Seq<(u32, Val)>, name: u32, i: int) -> Option<int>
    decreases ms.len() - i,
{
    if i < 0 || i >= ms.len() {
        None
    } else if ms[i].0 == name {
        Some(i)
    } else {
        member_index(ms, name, i + 1)
    }
}

/// Stores the selected value back as `Mutable` and records the selection.
pub open spec fn write_back(st: State, name: Seq<u32>, sel: Result<Val, StatementError>) -> Result<
    State,
    StatementError,
> {
    match sel {
        Err(e) => Err(e),
        Ok(v) => Ok(
            State {
                store: st.store.insert(name, Val::Mutable(Box::new(v))),
                cs: st.cs.push(Constraint::Selection),
            },
        ),
    }
}

/// Assigning `new` to one element of the array in `name`.
pub open spec fn assign_element(st: State, name: Seq<u32>, idx: int, new: Val, cond: bool, sp: Span) -> Result<
    State,
    StatementError,
> {
    match mutable_slot(st.store, name, sp) {
        Err(e) => Err(e),
        Ok(Val::Array(xs)) => if idx >= xs.len() {
            Err(StatementError::IndexOutOfRange(sp))
        } else if !same_type(new, xs[idx]) {
            Err(StatementError::TypeMismatch(sp))
        } else {
            match select(cond, new, xs[idx], sp) {
                Err(e) => Err(e),
                Ok(v) => write_back(st, name, Ok(Val::Array(xs.update(idx, v)))),
            }
        },
        Ok(_) => Err(StatementError::ArrayAssignIndex(sp)),
    }
}

/// Assigning the array `new` over `[from, to)` of the array in `name`; an
/// absent `to` means the array's length. The whole array is selected.
pub open spec fn assign_range(
    st: State,
    name: Seq<u32>,
    from: int,
    to: Option<int>,
    new: Val,
    cond: bool,
    sp: Span,
) -> Result<State, StatementError> {
    match mutable_slot(st.store, name, sp) {
        Err(e) => Err(e),
        Ok(old) => match (old, new) {
            (Val::Array(xs), Val::Array(ys)) => {
                let t = match to {
                    Some(t) => t,
                    None => xs.len() as int,
                };
                if !(from <= t <= xs.len()) {
                    Err(StatementError::IndexOutOfRange(sp))
                } else {
                    write_back(st, name, select(cond, Val::Array(splice(xs, from, t, ys)), old, sp))
                }
            },
            _ => Err(StatementError::ArrayAssignRange(sp)),
        },
    }
}

/// Assigning `new` to member `m` of the circuit value in `name`.
pub open spec fn assign_member(st: State, name: Seq<u32>, m: u32, new: Val, cond: bool, sp: Span) -> Result<
    State,
    StatementError,
> {
    match mutable_slot(st.store, name, sp) {
        Err(e) => Err(e),
        Ok(Val::CircuitExpression(c, ms)) => match member_index(ms, m, 0) {
            None => Err(StatementError::UndefinedCircuitMember(sp)),
            Some(i) => match ms[i].1 {
                Val::Function(_, _) => Err(StatementError::ImmutableCircuitMember(sp)),
                Val::Static(_) => Err(StatementError::ImmutableCircuitMember(sp)),
                mv => if !same_type(new, mv) {
                    Err(StatementError::TypeMismatch(sp))
                } else {
                    match select(cond, new, mv, sp) {
                        Err(e) => Err(e),
                        Ok(v) => write_back(st, name, Ok(Val::CircuitExpression(c, ms.update(i, (m, v))))),
                    }
                },
            },
        },
        Ok(_) => Err(StatementError::UndefinedCircuit(sp)),
    }
}

/// The state after `a = e` under `indicator` in `scope`.
pub open spec fn assign(
    st: State,
    scope: Seq<u32>,
    indicator: Option<bool>,
    a: Assignee,
    e: Expression,
    sp: Span,
) -> Result<State, StatementError> {
    let name = scope.push(assignee_root(a));
    let cond = live(indicator);
    match eval(st.store, scope, e, sp) {
        Err(x) => Err(x),
        Ok(new) => match a {
            Assignee::Identifier(_) => match mutable_slot(st.store, name, sp) {
                Err(x) => Err(x),
                Ok(old) => if !same_type(new, old) {
                    Err(StatementError::TypeMismatch(sp))
                } else {
                    write_back(st, name, select(cond, new, old, sp))
                },
            },
            Assignee::Array(_, RangeOrExpression::Expression(ie)) => match index_value(st.store, scope, ie, sp) {
                Err(x) => Err(x),
                Ok(idx) => assign_element(st, name, idx, new, cond, sp),
            },
            Assignee::Array(_, RangeOrExpression::Range(f, t)) => match bound_or(st.store, scope, f, 0, sp) {
                Err(x) => Err(x),
                Ok(from) => match t {
                    None => assign_range(st, name, from, None, new, cond, sp),
                    Some(b) => match index_value(st.store, scope, *b, sp) {
                        Err(x) => Err(x),
                        Ok(to) => assign_range(st, name, from, Some(to), new, cond, sp),
                    },
                },
            },
            Assignee::CircuitField(_, m) => assign_member(st, name, m, new, cond, sp),
        },
    }
}

/// Immutability: assigning to a variable whose slot is not `Mutable` fails
/// with the immutable-assignment error, whatever the indicator.
pub proof fn lemma_immutable_assignment(
    st: State,
    scope: Seq<u32>,
    indicator: Option<bool>,
    x: u32,
    e: Expression,
    sp: Span,
)
    requires
        st.store.contains_key(scope.push(x)),
        !(st.store[scope.push(x)] is Mutable),
        eval(st.store, scope, e, sp) is Ok,
    ensures
        assign(st, scope, indicator, Assignee::Identifier(x), e, sp) == Err::<State, StatementError>(
            StatementError::ImmutableAssign(sp),
        ),
{
}

/// Range-assign idempotence: `a[from..to] = a[from..to]` leaves the store
/// as it was and emits one selection, whatever the indicator.
pub proof fn lemma_range_assign_idempotent(
    st: State,
    scope: Seq<u32>,
    indicator: Option<bool>,
    x: u32,
    xs: Seq<Val>,
    from: u32,
    to: u32,
    sp: Span,
)
    requires
        st.store.contains_key(scope.push(x)),
        st.store[scope.push(x)] == Val::Mutable(Box::new(Val::Array(xs))),
        from <= to <= xs.len(),
    ensures
        assign(
            st,
            scope,
            indicator,
            Assignee::Array(
                x,
                RangeOrExpression::Range(
                    Some(Box::new(Expression::Integer(from))),
                    Some(Box::new(Expression::Integer(to))),
                ),
            ),
            Expression::Slice(
                Box::new(Expression::Identifier(x)),
                Some(Box::new(Expression::Integer(from))),
                Some(Box::new(Expression::Integer(to))),
            ),
            sp,
        ) == Ok::<State, StatementError>(State { store: st.store, cs: st.cs.push(Constraint::Selection) }),
{
    let k = scope.push(x);
    let f = Some(Box::new(Expression::Integer(from)));
    let t = Some(Box::new(Expression::Integer(to)));
    let e = Expression::Slice(Box::new(Expression::Identifier(x)), f, t);
    assert(eval(st.store, scope, Expression::Identifier(x), sp) == Ok::<Val, StatementError>(Val::Array(xs)));
    assert(bound_or(st.store, scope, f, 0, sp) == Ok::<int, StatementError>(from as int));
    assert(bound_or(st.store, scope, t, xs.len() as int, sp) == Ok::<int, StatementError>(to as int));
    let sub = xs.subrange(from as int, to as int);
    assert(eval(st.store, scope, e, sp) == Ok::<Val, StatementError>(Val::Array(sub)));
    assert(mutable_slot(st.store, k, sp) == Ok::<Val, StatementError>(Val::Array(xs)));
    assert(splice(xs, from as int, to as int, sub) =~= xs);
    crate::value::lemma_same_type_refl(Val::Array(xs));
    assert(st.store.insert(k, Val::Mutable(Box::new(Val::Array(xs)))) =~= st.store);
}

/// `xs` with `[from, to)` replaced by copies of `ys`.
fn splice_values(xs: &Vec<ConstrainedValue>, from: usize, to: usize, ys: &Vec<ConstrainedValue>) -> (r: Vec<
    ConstrainedValue,
>)
    requires
        from <= to <= xs.len(),
    ensures
        view_values(r@) == splice(view_values(xs@), from as int, to as int, view_values(ys@)),
{
    proof {
        lemma_view_values(xs@);
        lemma_view_values(ys@);
    }
    let ghost target = splice(view_values(xs@), from as int, to as int, view_values(ys@));
    let mut out: Vec<ConstrainedValue> = Vec::new();
    let mut j: usize = 0;
    while j < from
        invariant
            0 <= j <= from <= to <= xs.len(),
            target == splice(view_values(xs@), from as int, to as int, view_values(ys@)),
            view_values(xs@).len() == xs.len(),
            view_values(ys@).len() == ys.len(),
            forall|k: int| 0 <= k < xs.len() ==> #[trigger] view_values(xs@)[k] == view_value(xs@[k]),
            out@.len() == j,
            forall|k: int| 0 <= k < out@.len() ==> view_value(#[trigger] out@[k]) == target[k],
        decreases from - j,
    {
        out.push(xs[j].duplicate());
        j = j + 1;
    }
    let mut j: usize = 0;
    while j < ys.len()
        invariant
            0 <= j <= ys.len(),
            from <= to <= xs.len(),
            target == splice(view_values(xs@), from as int, to as int, view_values(ys@)),
            view_values(xs@).len() == xs.len(),
            view_values(ys@).len() == ys.len(),
            forall|k: int| 0 <= k < ys.len() ==> #[trigger] view_values(ys@)[k] == view_value(ys@[k]),
            out@.len() == from + j,
            forall|k: int| 0 <= k < out@.len() ==> view_value(#[trigger] out@[k]) == target[k],
        decreases ys.len() - j,
    {
        out.push(ys[j].duplicate());
        j = j + 1;
    }
    let mut j: usize = to;
    while j < xs.len()
        invariant
            from <= to <= j <= xs.len(),
            target == splice(view_values(xs@), from as int, to as int, view_values(ys@)),
            view_values(xs@).len() == xs.len(),
            view_values(ys@).len() == ys.len(),
            forall|k: int| 0 <= k < xs.len() ==> #[trigger] view_values(xs@)[k] == view_value(xs@[k]),
            out@.len() == from + ys.len() + (j - to),
            forall|k: int| 0 <= k < out@.len() ==> view_value(#[trigger] out@[k]) == target[k],
        decreases xs.len() - j,
    {
        out.push(xs[j].duplicate());
        j = j + 1;
    }
    proof {
        lemma_view_values(out@);
        assert(view_values(out@) =~= target);
    }
    out
}

proof fn lemma_view_values_update(xs: Seq<ConstrainedValue>, i: int, v: ConstrainedValue)
    requires
        0 <= i < xs.len(),
    ensures
        view_values(xs.update(i, v)) == view_values(xs).update(i, view_value(v)),
{
    lemma_view_values(xs);
    lemma_view_values(xs.update(i, v));
    assert(view_values(xs.update(i, v)) =~= view_values(xs).update(i, view_value(v)));
}

proof fn lemma_view_members_update(ms: Seq<(u32, ConstrainedValue)>, i: int, m: u32, v: ConstrainedValue)
    requires
        0 <= i < ms.len(),
    ensures
        view_members(ms.update(i, (m, v))) == view_members(ms).update(i, (m, view_value(v))),
{
    lemma_view_members(ms);
    lemma_view_members(ms.update(i, (m, v)));
    assert(view_members(ms.update(i, (m, v))) =~= view_members(ms).update(i, (m, view_value(v))));
}

impl ConstrainedProgram {
    /// The scope name of the variable an assignment writes to.
    pub fn resolve_assignee(scope: &Vec<u32>, assignee: &Assignee) -> (r: Vec<u32>)
        ensures
            r@ == scope@.push(assignee_root(*assignee)),
    {
        match assignee {
            Assignee::Identifier(x) => new_scope(scope, *x),
            Assignee::Array(x, _) => new_scope(scope, *x),
            Assignee::CircuitField(x, _) => new_scope(scope, *x),
        }
    }

    /// A copy of the value inside the `Mutable` slot `name`.
    pub fn get_mutable_assignee(&self, name: &Vec<u32>, sp: Span) -> (r: Result<ConstrainedValue, StatementError>)
        ensures
            match mutable_slot(self.store@, name@, sp) {
                Ok(v) => r is Ok && r->Ok_0@ == v,
                Err(e) => r == Err::<ConstrainedValue, StatementError>(e),
            },
    {
        match self.store.get(name) {
            None => Err(StatementError::UndefinedVariable(sp)),
            Some(ConstrainedValue::Mutable(b)) => Ok(*b),
            Some(_) => Err(StatementError::ImmutableAssign(sp)),
        }
    }

    fn write_mutable(&mut self, name: Vec<u32>, v: ConstrainedValue)
        ensures
            final(self).store@ == old(self).store@.insert(name@, Val::Mutable(Box::new(v@))),
    {
        self.store.store(name, ConstrainedValue::Mutable(Box::new(v)));
    }

    /// Assigns to an element (`name[i] = v`) or a range (`name[a..b] = v`) of
    /// an array variable.
    pub fn mutate_array(
        &mut self,
        cs: &mut ConstraintSystem,
        scope: &Vec<u32>,
        indicator: Option<bool>,
        name: Vec<u32>,
        range_or_expression: &RangeOrExpression,
        new_value: ConstrainedValue,
        sp: Span,
    ) -> (r: Result<(), StatementError>)
        ensures
            r is Err ==> state_of(*final(self), *final(cs)) == state_of(*old(self), *old(cs)),
            match range_or_expression {
                RangeOrExpression::Expression(ie) => match index_value(old(self).store@, scope@, *ie, sp) {
                    Err(x) => r == Err::<(), StatementError>(x),
                    Ok(idx) => match assign_element(
                        state_of(*old(self), *old(cs)),
                        name@,
                        idx,
                        new_value@,
                        live(indicator),
                        sp,
                    ) {
                        Ok(st) => r is Ok && state_of(*final(self), *final(cs)) == st,
                        Err(x) => r == Err::<(), StatementError>(x),
                    },
                },
                RangeOrExpression::Range(f, t) => match bound_or(old(self).store@, scope@, *f, 0, sp) {
                    Err(x) => r == Err::<(), StatementError>(x),
                    Ok(from) => match (match t {
                        None => Ok(assign_range(
                            state_of(*old(self), *old(cs)),
                            name@,
                            from,
                            None,
                            new_value@,
                            live(indicator),
                            sp,
                        )),
                        Some(b) => match index_value(old(self).store@, scope@, **b, sp) {
                            Err(x) => Err(x),
                            Ok(to) => Ok(assign_range(
                                state_of(*old(self), *old(cs)),
                                name@,
                                from,
                                Some(to),
                                new_value@,
                                live(indicator),
                                sp,
                            )),
                        },
                    }) {
                        Err(x) => r == Err::<(), StatementError>(x),
                        Ok(Err(x)) => r == Err::<(), StatementError>(x),
                        Ok(Ok(st)) => r is Ok && state_of(*final(self), *final(cs)) == st,
                    },
                },
            },
    {
        let cond = match indicator {
            Some(b) => b,
            None => true,
        };
        match range_or_expression {
            RangeOrExpression::Expression(ie) => {
                let idx = enforce_index(&self.store, scope, ie, sp)?;
                let old = self.get_mutable_assignee(&name, sp)?;
                match old {
                    ConstrainedValue::Array(mut xs) => {
                        proof {
                            lemma_view_values(xs@);
                        }
                        if idx as usize >= xs.len() {
                            return Err(StatementError::IndexOutOfRange(sp));
                        }
                        let i = idx as usize;
                        if !crate::value::types_match(&new_value, &xs[i]) {
                            return Err(StatementError::TypeMismatch(sp));
                        }
                        let prev = xs[i].duplicate();
                        let sel = Self::conditionally_select(cs, cond, new_value, prev, sp)?;
                        proof {
                            lemma_view_values_update(xs@, i as int, sel);
                        }
                        xs.set(i, sel);
                        self.write_mutable(name, ConstrainedValue::Array(xs));
                        Ok(())
                    },
                    _ => Err(StatementError::ArrayAssignIndex(sp)),
                }
            },
            RangeOrExpression::Range(f, t) => {
                let from = enforce_bound(&self.store, scope, f, 0, sp)?;
                let to_opt: Option<usize> = match t {
                    None => None,
                    Some(b) => {
                        let n = enforce_index(&self.store, scope, b, sp)?;
                        Some(n as usize)
                    },
                };
                let old = self.get_mutable_assignee(&name, sp)?;
                match (old, new_value) {
                    (ConstrainedValue::Array(xs), ConstrainedValue::Array(ys)) => {
                        proof {
                            lemma_view_values(xs@);
                        }
                        let to = match to_opt {
                            Some(n) => n,
                            None => xs.len(),
                        };
                        if !(from <= to && to <= xs.len()) {
                            return Err(StatementError::IndexOutOfRange(sp));
                        }
                        let spliced = splice_values(&xs, from, to, &ys);
                        let sel = Self::conditionally_select(
                            cs,
                            cond,
                            ConstrainedValue::Array(spliced),
                            ConstrainedValue::Array(xs),
                            sp,
                        )?;
                        self.write_mutable(name, sel);
                        Ok(())
                    },
                    _ => Err(StatementError::ArrayAssignRange(sp)),
                }
            },
        }
    }

    /// Assigns to member `member` of a circuit variable; methods and constants
    /// cannot be assigned.
    pub fn mutute_circuit_field(
        &mut self,
        cs: &mut ConstraintSystem,
        indicator: Option<bool>,
        circuit_name: Vec<u32>,
        member: u32,
        new_value: ConstrainedValue,
        sp: Span,
    ) -> (r: Result<(), StatementError>)
        ensures
            r is Err ==> state_of(*final(self), *final(cs)) == state_of(*old(self), *old(cs)),
            match assign_member(
                state_of(*old(self), *old(cs)),
                circuit_name@,
                member,
                new_value@,
                live(indicator),
                sp,
            ) {
                Ok(st) => r is Ok && state_of(*final(self), *final(cs)) == st,
                Err(x) => r == Err::<(), StatementError>(x),
            },
    {
        let cond = match indicator {
            Some(b) => b,
            None => true,
        };
        let old = self.get_mutable_assignee(&circuit_name, sp)?;
        match old {
            ConstrainedValue::CircuitExpression(c, mut ms) => {
                let ghost vm = view_members(ms@);
                proof {
                    lemma_view_members(ms@);
                }
                let mut i: usize = 0;
                while i < ms.len() && ms[i].0 != member
                    invariant
                        0 <= i <= ms.len(),
                        vm == view_members(ms@),
                        vm.len() == ms.len(),
                        forall|k: int| 0 <= k < ms.len() ==> #[trigger] vm[k] == (ms@[k].0, view_value(ms@[k].1)),
                        member_index(vm, member, 0) == member_index(vm, member, i as int),
                    decreases ms.len() - i,
                {
                    i = i + 1;
                }
                if i == ms.len() {
                    return Err(StatementError::UndefinedCircuitMember(sp));
                }
                match &ms[i].1 {
                    ConstrainedValue::Function(_, _) => {
                        return Err(StatementError::ImmutableCircuitMember(sp));
                    },
                    ConstrainedValue::Static(_) => {
                        return Err(StatementError::ImmutableCircuitMember(sp));
                    },
                    _ => {},
                }
                if !crate::value::types_match(&new_value, &ms[i].1) {
                    return Err(StatementError::TypeMismatch(sp));
                }
                let prev = ms[i].1.duplicate();
                let sel = Self::conditionally_select(cs, cond, new_value, prev, sp)?;
                proof {
                    lemma_view_members_update(ms@, i as int, member, sel);
                }
                ms.set(i, (member, sel));
                self.write_mutable(circuit_name, ConstrainedValue::CircuitExpression(c, ms));
                Ok(())
            },
            _ => Err(StatementError::UndefinedCircuit(sp)),
        }
    }

    /// Enforces `assignee = expression` under `indicator`: the new value is
    /// selected against the old one, so the store changes only where the
    /// indicator is live.
    pub fn enforce_assign_statement(
        &mut self,
        cs: &mut ConstraintSystem,
        scope: &Vec<u32>,
        indicator: Option<bool>,
        assignee: &Assignee,
        expression: &Expression,
        sp: Span,
    ) -> (r: Result<(), StatementError>)
        ensures
            r is Err ==> state_of(*final(self), *final(cs)) == state_of(*old(self), *old(cs)),
            match assign(state_of(*old(self), *old(cs)), scope@, indicator, *assignee, *expression, sp) {
                Ok(st) => r is Ok && state_of(*final(self), *final(cs)) == st,
                Err(x) => r == Err::<(), StatementError>(x),
            },
    {
        let variable_name = Self::resolve_assignee(scope, assignee);
        let new_value = enforce_expression(&self.store, scope, expression, sp)?;
        match assignee {
            Assignee::Identifier(_) => {
                let cond = match indicator {
                    Some(b) => b,
                    None => true,
                };
                let old = self.get_mutable_assignee(&variable_name, sp)?;
                if !crate::value::types_match(&new_value, &old) {
                    return Err(StatementError::TypeMismatch(sp));
                }
                let sel = Self::conditionally_select(cs, cond, new_value, old, sp)?;
                self.write_mutable(variable_name, sel);
                Ok(())
            },
            Assignee::Array(_, range_or_expression) => self.mutate_array(
                cs,
                scope,
                indicator,
                variable_name,
                range_or_expression,
                new_value,
                sp,
            ),
            Assignee::CircuitField(_, member) => self.mutute_circuit_field(
                cs,
                indicator,
                variable_name,
                *member,
                new_value,
                sp,
            ),
        }
    }
}

} // verus!
