//! The state threaded through enforcement: the program store and the
//! constraints emitted so far.
use vstd::prelude::*;

use crate::errors::StatementError;
use crate::store::ProgramStore;
use crate::value::{same_type, types_match, ConstrainedValue, Val};

verus! {

/// The kind of a constraint emitted into the circuit.
#[derive(Clone, Copy, Debug, PartialEq, Eq, Structural)]
pub enum Constraint {
    /// A boolean AND computing a branch indicator.
    Conjunction,
    /// A conditional select between a new and an old value.
    Selection,
    /// A conditional equality.
    Equality,
}

/// The constraints emitted so far, in order.
pub struct ConstraintSystem {
    pub constraints: Vec<Constraint>,
}

impl ConstraintSystem {
    pub fn new() -> (r: ConstraintSystem)
        ensures
            r.constraints@ == Seq::<Constraint>::empty(),
    {
        ConstraintSystem { constraints: Vec::new() }
    }

    pub fn num_constraints(&self) -> (r: usize)
        ensures
            r == self.constraints@.len(),
    {
        self.constraints.len()
    }
}

/// The program store of a compilation.
pub struct ConstrainedProgram {
    pub store: ProgramStore,
}

/// The model of enforcement state: store contents and emitted constraints.
pub struct State {
    pub store: Map<Seq<u32>, Val>,
    pub cs: Seq<Constraint>,
}

pub open spec fn state_of(p: ConstrainedProgram, cs: ConstraintSystem) -> State {
    State { store: p.store@, cs: cs.constraints@ }
}

/// The live bit of an indicator: no indicator means always live.
pub open spec fn live(indicator: Option<bool>) -> bool {
    match indicator {
        Some(b) => b,
        None => true,
    }
}

/// Conditional select: `new` where `cond` holds, else `old`; the two must
/// have the same shape.
pub open spec fn select(cond: bool, new: Val, old: Val, sp: crate::ast::Span) -> Result<Val, StatementError> {
    if same_type(new, old) {
        Ok(if cond { new } else { old })
    } else {
        Err(StatementError::SelectFail(sp))
    }
}

impl ConstrainedProgram {
    pub fn new() -> (r: ConstrainedProgram)
        ensures
            r.store@ == Map::<Seq<u32>, Val>::empty(),
    {
        ConstrainedProgram { store: ProgramStore::new() }
    }

    /// Emits one selection constraint and picks `new` or `old` by `cond`.
    pub fn conditionally_select(
        cs: &mut ConstraintSystem,
        cond: bool,
        new: ConstrainedValue,
        prev: ConstrainedValue,
        sp: crate::ast::Span,
    ) -> (r: Result<ConstrainedValue, StatementError>)
        ensures
            match select(cond, new@, prev@, sp) {
                Ok(v) => r is Ok && r->Ok_0@ == v && final(cs).constraints@ == old(
                    cs,
                ).constraints@.push(Constraint::Selection),
                Err(e) => r == Err::<ConstrainedValue, StatementError>(e) && final(cs).constraints@
                    == old(cs).constraints@,
            },
    {
        if !types_match(&new, &prev) {
            return Err(StatementError::SelectFail(sp));
        }
        cs.constraints.push(Constraint::Selection);
        if cond {
            Ok(new)
        } else {
            Ok(prev)
        }
    }
}

} // verus!
