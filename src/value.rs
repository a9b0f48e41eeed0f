//! Runtime values of circuit variables and their mathematical model.
use vstd::prelude::*;

verus! {

/// A value a circuit variable can hold.
#[derive(Debug)]
pub enum ConstrainedValue {
    Integer(u32),
    Boolean(bool),
    FieldElement(u64),
    GroupElement(u64),
    Array(Vec<ConstrainedValue>),
    Tuple(Vec<ConstrainedValue>),
    /// A circuit value: its type name and its members in order.
    CircuitExpression(u32, Vec<(u32, ConstrainedValue)>),
    /// A method: the owning circuit and the function's name.
    Function(u32, u32),
    Static(Box<ConstrainedValue>),
    Mutable(Box<ConstrainedValue>),
    Return(Vec<ConstrainedValue>),
}

/// The model of a value: the same shape, with sequences in place of vectors.
pub enum Val {
    Integer(u32),
    Boolean(bool),
    FieldElement(u64),
    GroupElement(u64),
    Array(Seq<Val>),
    Tuple(Seq<Val>),
    CircuitExpression(u32, Seq<(u32, Val)>),
    Function(u32, u32),
    Static(Box<Val>),
    Mutable(Box<Val>),
    Return(Seq<Val>),
}

pub open spec fn view_value(v: ConstrainedValue) -> Val
    decreases v, 0nat,
{
    match v {
        ConstrainedValue::Integer(n) => Val::Integer(n),
        ConstrainedValue::Boolean(b) => Val::Boolean(b),
        ConstrainedValue::FieldElement(f) => Val::FieldElement(f),
        ConstrainedValue::GroupElement(g) => Val::GroupElement(g),
        ConstrainedValue::Array(xs) => Val::Array(view_values(xs@)),
        ConstrainedValue::Tuple(xs) => Val::Tuple(view_values(xs@)),
        ConstrainedValue::CircuitExpression(c, ms) => Val::CircuitExpression(c, view_members(ms@)),
        ConstrainedValue::Function(c, f) => Val::Function(c, f),
        ConstrainedValue::Static(b) => Val::Static(Box::new(view_value(*b))),
        ConstrainedValue::Mutable(b) => Val::Mutable(Box::new(view_value(*b))),
        ConstrainedValue::Return(xs) => Val::Return(view_values(xs@)),
    }
}

pub open spec fn view_values(xs: Seq<ConstrainedValue>) -> Seq<Val>
    decreases xs, xs.len(),
{
    if xs.len() == 0 {
        seq![]
    } else {
        view_values(xs.subrange(0, xs.len() - 1)).push(view_value(xs[xs.len() - 1]))
    }
}

pub open spec fn view_members(ms: Seq<(u32, ConstrainedValue)>) -> Seq<(u32, Val)>
    decreases ms, ms.len(),
{
    if ms.len() == 0 {
        seq![]
    } else {
        view_members(ms.subrange(0, ms.len() - 1)).push(
            (ms[ms.len() - 1].0, view_value(ms[ms.len() - 1].1)),
        )
    }
}

impl View for ConstrainedValue {
    type V = Val;

    open spec fn view(&self) -> Val {
        view_value(*self)
    }
}

pub proof fn lemma_view_values(xs: Seq<ConstrainedValue>)
    ensures
        view_values(xs).len() == xs.len(),
        forall|i: int| 0 <= i < xs.len() ==> #[trigger] view_values(xs)[i] == view_value(xs[i]),
    decreases xs.len(),
{
    if xs.len() > 0 {
        lemma_view_values(xs.subrange(0, xs.len() - 1));
    }
}

pub proof fn lemma_view_members(ms: Seq<(u32, ConstrainedValue)>)
    ensures
        view_members(ms).len() == ms.len(),
        forall|i: int|
            0 <= i < ms.len() ==> #[trigger] view_members(ms)[i] == (ms[i].0, view_value(ms[i].1)),
    decreases ms.len(),
{
    if ms.len() > 0 {
        lemma_view_members(ms.subrange(0, ms.len() - 1));
    }
}

/// Two value sequences with equal models elementwise have equal models.
pub proof fn lemma_view_values_ext(xs: Seq<ConstrainedValue>, ys: Seq<ConstrainedValue>)
    requires
        xs.len() == ys.len(),
        forall|i: int| 0 <= i < xs.len() ==> view_value(#[trigger] xs[i]) == view_value(ys[i]),
    ensures
        view_values(xs) == view_values(ys),
{
    lemma_view_values(xs);
    lemma_view_values(ys);
    assert(view_values(xs) =~= view_values(ys));
}

impl ConstrainedValue {
    /// A copy with the same model.
    pub fn duplicate(&self) -> (r: ConstrainedValue)
        ensures
            r@ == self@,
        decreases self,
    {
        match self {
            ConstrainedValue::Integer(n) => ConstrainedValue::Integer(*n),
            ConstrainedValue::Boolean(b) => ConstrainedValue::Boolean(*b),
            ConstrainedValue::FieldElement(f) => ConstrainedValue::FieldElement(*f),
            ConstrainedValue::GroupElement(g) => ConstrainedValue::GroupElement(*g),
            ConstrainedValue::Array(xs) => ConstrainedValue::Array(duplicate_all(xs)),
            ConstrainedValue::Tuple(xs) => ConstrainedValue::Tuple(duplicate_all(xs)),
            ConstrainedValue::CircuitExpression(c, ms) => ConstrainedValue::CircuitExpression(
                *c,
                duplicate_members(ms),
            ),
            ConstrainedValue::Function(c, f) => ConstrainedValue::Function(*c, *f),
            ConstrainedValue::Static(b) => ConstrainedValue::Static(Box::new(b.duplicate())),
            ConstrainedValue::Mutable(b) => ConstrainedValue::Mutable(Box::new(b.duplicate())),
            ConstrainedValue::Return(xs) => ConstrainedValue::Return(duplicate_all(xs)),
        }
    }
}

/// Copies of each value, in order.
pub fn duplicate_all(xs: &Vec<ConstrainedValue>) -> (r: Vec<ConstrainedValue>)
    ensures
        view_values(r@) == view_values(xs@),
    decreases xs,
{
    let mut out: Vec<ConstrainedValue> = Vec::new();
    let mut i: usize = 0;
    while i < xs.len()
        invariant
            0 <= i <= xs.len(),
            out@.len() == i,
            forall|j: int| 0 <= j < i ==> view_value(#[trigger] out@[j]) == view_value(xs@[j]),
        decreases xs.len() - i,
    {
        proof {
            vstd::std_specs::vec::axiom_vec_index_decreases(*xs, i as int);
        }
        let v = xs[i].duplicate();
        out.push(v);
        i = i + 1;
    }
    proof {
        lemma_view_values_ext(out@, xs@);
    }
    out
}

/// Copies of each member, in order.
pub fn duplicate_members(ms: &Vec<(u32, ConstrainedValue)>) -> (r: Vec<(u32, ConstrainedValue)>)
    ensures
        view_members(r@) == view_members(ms@),
    decreases ms,
{
    let mut out: Vec<(u32, ConstrainedValue)> = Vec::new();
    let mut i: usize = 0;
    while i < ms.len()
        invariant
            0 <= i <= ms.len(),
            out@.len() == i,
            forall|j: int|
                0 <= j < i ==> (#[trigger] out@[j]).0 == ms@[j].0 && view_value(out@[j].1)
                    == view_value(ms@[j].1),
        decreases ms.len() - i,
    {
        proof {
            vstd::std_specs::vec::axiom_vec_index_decreases(*ms, i as int);
            assert(decreases_to!(ms[i as int] => ms[i as int].1));
        }
        let v = ms[i].1.duplicate();
        out.push((ms[i].0, v));
        i = i + 1;
    }
    proof {
        lemma_view_members(out@);
        lemma_view_members(ms@);
        assert(view_members(out@) =~= view_members(ms@));
    }
    out
}

/// Whether two values have the same structural type: the same variant; for
/// arrays, tuples and returned values the same length and elementwise the
/// same type; for circuits the same type name and, member by member, the
/// same name and type.
pub open spec fn same_type(a: Val, b: Val) -> bool
    decreases a,
{
    match (a, b) {
        (Val::Integer(_), Val::Integer(_)) => true,
        (Val::Boolean(_), Val::Boolean(_)) => true,
        (Val::FieldElement(_), Val::FieldElement(_)) => true,
        (Val::GroupElement(_), Val::GroupElement(_)) => true,
        (Val::Array(x), Val::Array(y)) => x.len() == y.len() && forall|i: int|
            0 <= i < x.len() ==> same_type(#[trigger] x[i], y[i]),
        (Val::Tuple(x), Val::Tuple(y)) => x.len() == y.len() && forall|i: int|
            0 <= i < x.len() ==> same_type(#[trigger] x[i], y[i]),
        (Val::Return(x), Val::Return(y)) => x.len() == y.len() && forall|i: int|
            0 <= i < x.len() ==> same_type(#[trigger] x[i], y[i]),
        (Val::CircuitExpression(c, x), Val::CircuitExpression(d, y)) => c == d && x.len() == y.len()
            && forall|i: int|
            0 <= i < x.len() ==> (#[trigger] x[i]).0 == y[i].0 && same_type(x[i].1, y[i].1),
        (Val::Function(c, _), Val::Function(d, _)) => c == d,
        (Val::Static(x), Val::Static(y)) => same_type(*x, *y),
        (Val::Mutable(x), Val::Mutable(y)) => same_type(*x, *y),
        _ => false,
    }
}

/// Every value has its own type.
pub proof fn lemma_same_type_refl(v: Val)
    ensures
        same_type(v, v),
    decreases v,
{
    match v {
        Val::Array(x) | Val::Tuple(x) | Val::Return(x) => {
            assert forall|i: int| 0 <= i < x.len() implies same_type(#[trigger] x[i], x[i]) by {
                lemma_same_type_refl(x[i]);
            }
        },
        Val::CircuitExpression(c, x) => {
            assert forall|i: int| 0 <= i < x.len() implies (#[trigger] x[i]).0 == x[i].0 && same_type(
                x[i].1,
                x[i].1,
            ) by {
                assert(decreases_to!(x[i] => x[i].1));
                lemma_same_type_refl(x[i].1);
            }
        },
        Val::Static(x) | Val::Mutable(x) => lemma_same_type_refl(*x),
        _ => {},
    }
}

/// Whether two values have the same structural type.
pub fn types_match(a: &ConstrainedValue, b: &ConstrainedValue) -> (r: bool)
    ensures
        r == same_type(a@, b@),
    decreases a,
{
    match (a, b) {
        (ConstrainedValue::Integer(_), ConstrainedValue::Integer(_)) => true,
        (ConstrainedValue::Boolean(_), ConstrainedValue::Boolean(_)) => true,
        (ConstrainedValue::FieldElement(_), ConstrainedValue::FieldElement(_)) => true,
        (ConstrainedValue::GroupElement(_), ConstrainedValue::GroupElement(_)) => true,
        (ConstrainedValue::Array(x), ConstrainedValue::Array(y)) => all_types_match(x, y),
        (ConstrainedValue::Tuple(x), ConstrainedValue::Tuple(y)) => all_types_match(x, y),
        (ConstrainedValue::Return(x), ConstrainedValue::Return(y)) => all_types_match(x, y),
        (ConstrainedValue::CircuitExpression(c, x), ConstrainedValue::CircuitExpression(d, y)) => {
            *c == *d && member_types_match(x, y)
        },
        (ConstrainedValue::Function(c, _), ConstrainedValue::Function(d, _)) => *c == *d,
        (ConstrainedValue::Static(x), ConstrainedValue::Static(y)) => types_match(x, y),
        (ConstrainedValue::Mutable(x), ConstrainedValue::Mutable(y)) => types_match(x, y),
        _ => false,
    }
}

/// Whether two value sequences have the same length and elementwise the same type.
pub fn all_types_match(x: &Vec<ConstrainedValue>, y: &Vec<ConstrainedValue>) -> (r: bool)
    ensures
        r == (view_values(x@).len() == view_values(y@).len() && forall|i: int|
            0 <= i < view_values(x@).len() ==> same_type(
                #[trigger] view_values(x@)[i],
                view_values(y@)[i],
            )),
    decreases x,
{
    proof {
        lemma_view_values(x@);
        lemma_view_values(y@);
    }
    if x.len() != y.len() {
        return false;
    }
    let mut i: usize = 0;
    while i < x.len()
        invariant
            0 <= i <= x.len(),
            x.len() == y.len(),
            forall|j: int| 0 <= j < i ==> same_type(view_value(#[trigger] x@[j]), view_value(y@[j])),
        decreases x.len() - i,
    {
        proof {
            vstd::std_specs::vec::axiom_vec_index_decreases(*x, i as int);
        }
        if !types_match(&x[i], &y[i]) {
            proof {
                lemma_view_values(x@);
                lemma_view_values(y@);
                assert(!same_type(view_values(x@)[i as int], view_values(y@)[i as int]));
            }
            return false;
        }
        i = i + 1;
    }
    proof {
        lemma_view_values(x@);
        lemma_view_values(y@);
        assert forall|k: int| 0 <= k < view_values(x@).len() implies same_type(
            #[trigger] view_values(x@)[k],
            view_values(y@)[k],
        ) by {
            assert(same_type(view_value(x@[k]), view_value(y@[k])));
        }
    }
    true
}

/// Whether two member lists agree in names and, member by member, in type.
pub fn member_types_match(x: &Vec<(u32, ConstrainedValue)>, y: &Vec<(u32, ConstrainedValue)>) -> (r: bool)
    ensures
        r == (view_members(x@).len() == view_members(y@).len() && forall|i: int|
            0 <= i < view_members(x@).len() ==> (#[trigger] view_members(x@)[i]).0 == view_members(
                y@,
            )[i].0 && same_type(view_members(x@)[i].1, view_members(y@)[i].1)),
    decreases x,
{
    proof {
        lemma_view_members(x@);
        lemma_view_members(y@);
    }
    if x.len() != y.len() {
        return false;
    }
    let mut i: usize = 0;
    while i < x.len()
        invariant
            0 <= i <= x.len(),
            x.len() == y.len(),
            forall|j: int|
                0 <= j < i ==> (#[trigger] x@[j]).0 == y@[j].0 && same_type(
                    view_value(x@[j].1),
                    view_value(y@[j].1),
                ),
        decreases x.len() - i,
    {
        proof {
            vstd::std_specs::vec::axiom_vec_index_decreases(*x, i as int);
            assert(decreases_to!(x[i as int] => x[i as int].1));
        }
        if x[i].0 != y[i].0 || !types_match(&x[i].1, &y[i].1) {
            proof {
                lemma_view_members(x@);
                lemma_view_members(y@);
                let k = i as int;
                assert(!(view_members(x@)[k].0 == view_members(y@)[k].0 && same_type(
                    view_members(x@)[k].1,
                    view_members(y@)[k].1,
                )));
            }
            return false;
        }
        i = i + 1;
    }
    proof {
        lemma_view_members(x@);
        lemma_view_members(y@);
        assert forall|k: int| 0 <= k < view_members(x@).len() implies (#[trigger] view_members(x@)[k]).0
            == view_members(y@)[k].0 && same_type(view_members(x@)[k].1, view_members(y@)[k].1) by {
            assert(x@[k].0 == y@[k].0);
        }
    }
    true
}

/// Whether two values are equal.
pub fn values_equal(a: &ConstrainedValue, b: &ConstrainedValue) -> (r: bool)
    ensures
        r == (a@ == b@),
    decreases a,
{
    match (a, b) {
        (ConstrainedValue::Integer(x), ConstrainedValue::Integer(y)) => *x == *y,
        (ConstrainedValue::Boolean(x), ConstrainedValue::Boolean(y)) => *x == *y,
        (ConstrainedValue::FieldElement(x), ConstrainedValue::FieldElement(y)) => *x == *y,
        (ConstrainedValue::GroupElement(x), ConstrainedValue::GroupElement(y)) => *x == *y,
        (ConstrainedValue::Array(x), ConstrainedValue::Array(y)) => all_equal(x, y),
        (ConstrainedValue::Tuple(x), ConstrainedValue::Tuple(y)) => all_equal(x, y),
        (ConstrainedValue::Return(x), ConstrainedValue::Return(y)) => all_equal(x, y),
        (ConstrainedValue::CircuitExpression(c, x), ConstrainedValue::CircuitExpression(d, y)) => {
            *c == *d && members_equal(x, y)
        },
        (ConstrainedValue::Function(c, f), ConstrainedValue::Function(d, g)) => *c == *d && *f == *g,
        (ConstrainedValue::Static(x), ConstrainedValue::Static(y)) => values_equal(x, y),
        (ConstrainedValue::Mutable(x), ConstrainedValue::Mutable(y)) => values_equal(x, y),
        _ => false,
    }
}

/// Whether two value sequences are equal elementwise.
pub fn all_equal(x: &Vec<ConstrainedValue>, y: &Vec<ConstrainedValue>) -> (r: bool)
    ensures
        r == (view_values(x@) == view_values(y@)),
    decreases x,
{
    proof {
        lemma_view_values(x@);
        lemma_view_values(y@);
    }
    if x.len() != y.len() {
        return false;
    }
    let mut i: usize = 0;
    while i < x.len()
        invariant
            0 <= i <= x.len(),
            x.len() == y.len(),
            forall|j: int| 0 <= j < i ==> view_value(#[trigger] x@[j]) == view_value(y@[j]),
        decreases x.len() - i,
    {
        proof {
            vstd::std_specs::vec::axiom_vec_index_decreases(*x, i as int);
        }
        if !values_equal(&x[i], &y[i]) {
            proof {
                lemma_view_values(x@);
                lemma_view_values(y@);
                assert(view_values(x@)[i as int] != view_values(y@)[i as int]);
            }
            return false;
        }
        i = i + 1;
    }
    proof {
        lemma_view_values_ext(x@, y@);
    }
    true
}

/// Whether two member lists are equal elementwise.
pub fn members_equal(x: &Vec<(u32, ConstrainedValue)>, y: &Vec<(u32, ConstrainedValue)>) -> (r: bool)
    ensures
        r == (view_members(x@) == view_members(y@)),
    decreases x,
{
    proof {
        lemma_view_members(x@);
        lemma_view_members(y@);
    }
    if x.len() != y.len() {
        return false;
    }
    let mut i: usize = 0;
    while i < x.len()
        invariant
            0 <= i <= x.len(),
            x.len() == y.len(),
            forall|j: int|
                0 <= j < i ==> (#[trigger] x@[j]).0 == y@[j].0 && view_value(x@[j].1) == view_value(
                    y@[j].1,
                ),
        decreases x.len() - i,
    {
        proof {
            vstd::std_specs::vec::axiom_vec_index_decreases(*x, i as int);
            assert(decreases_to!(x[i as int] => x[i as int].1));
        }
        if x[i].0 != y[i].0 || !values_equal(&x[i].1, &y[i].1) {
            proof {
                lemma_view_members(x@);
                lemma_view_members(y@);
                assert(view_members(x@)[i as int] != view_members(y@)[i as int]);
            }
            return false;
        }
        i = i + 1;
    }
    proof {
        lemma_view_members(x@);
        lemma_view_members(y@);
        assert(view_members(x@) =~= view_members(y@));
    }
    true
}

} // verus!
