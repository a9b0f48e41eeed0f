//! Statement enforcement. Every branch of a conditional is enforced, under an
//! indicator that says whether it is live; loops are unrolled. Loop bounds and
//! array indices are resolved against the store when they are reached, so a
//! loop body may index by its loop variable.
use vstd::prelude::*;

use crate::assign::assign;
use crate::ast::{ConditionalNestedOrEndStatement, ConditionalStatement, Expression, Span, Statement};
use crate::errors::StatementError;
use crate::expression::{const_index, enforce_expression, enforce_index, eval, index_value, lemma_const_index};
use crate::program::{live, state_of, Constraint, ConstrainedProgram, ConstraintSystem, State};
use crate::store::new_scope;
use crate::value::{lemma_view_values, same_type, types_match, values_equal, view_values, ConstrainedValue, Val};

verus! {

/// The `(indicator, value)` pairs a statement yields, with the state after
/// it; an error comes with the state reached when it arose.
pub type Outcome = Result<(State, Seq<(Option<bool>, Val)>), (State, StatementError)>;

pub open spec fn results_view(rs: Seq<(Option<bool>, ConstrainedValue)>) -> Seq<(Option<bool>, Val)> {
    rs.map_values(|p: (Option<bool>, ConstrainedValue)| (p.0, p.1@))
}

/// `rs` followed by the results of `o`.
pub open spec fn prepend(rs: Seq<(Option<bool>, Val)>, o: Outcome) -> Outcome {
    match o {
        Err(e) => Err(e),
        Ok((st, rs2)) => Ok((st, rs + rs2)),
    }
}

/// Whether an exec result and final state are those of `o`.
pub open spec fn outcome_is(
    o: Outcome,
    st: State,
    r: Result<Vec<(Option<bool>, ConstrainedValue)>, StatementError>,
) -> bool {
    match o {
        Ok((st2, rs)) => r is Ok && st == st2 && results_view(r->Ok_0@) == rs,
        Err((st2, e)) => r == Err::<Vec<(Option<bool>, ConstrainedValue)>, StatementError>(e) && st == st2,
    }
}

/// The values of `es`, in order.
pub open spec fn eval_all(env: Map<Seq<u32>, Val>, scope: Seq<u32>, es: Seq<Expression>, sp: Span) -> Result<
    Seq<Val>,
    StatementError,
>
    decreases es.len(),
{
    if es.len() == 0 {
        Ok(seq![])
    } else {
        match eval_all(env, scope, es.subrange(0, es.len() - 1), sp) {
            Err(x) => Err(x),
            Ok(vs) => match eval(env, scope, es[es.len() - 1], sp) {
                Err(x) => Err(x),
                Ok(v) => Ok(vs.push(v)),
            },
        }
    }
}

/// The indicators of the two branches of `if b` under `outer`.
pub open spec fn branch_indicators(outer: bool, b: bool) -> (bool, bool) {
    (outer && b, outer && !b)
}

/// A value as a definition stores it: wrapped in `Mutable` where declared so.
pub open spec fn declared(mutable: bool, v: Val) -> Val {
    if mutable {
        Val::Mutable(Box::new(v))
    } else {
        v
    }
}

/// The store after binding the first `n` names to the first `n` values.
pub open spec fn define_all(
    env: Map<Seq<u32>, Val>,
    scope: Seq<u32>,
    names: Seq<(bool, u32)>,
    vs: Seq<Val>,
    n: int,
) -> Map<Seq<u32>, Val>
    decreases n,
{
    if n <= 0 {
        env
    } else {
        define_all(env, scope, names, vs, n - 1).insert(
            scope.push(names[n - 1].1),
            declared(names[n - 1].0, vs[n - 1]),
        )
    }
}

/// The elements of a tuple or returned value.
pub open spec fn tuple_elements(v: Val) -> Option<Seq<Val>> {
    match v {
        Val::Tuple(vs) => Some(vs),
        Val::Return(vs) => Some(vs),
        _ => None,
    }
}

/// One statement under `indicator` in `scope`.
pub open spec fn run_stmt(st: State, scope: Seq<u32>, indicator: Option<bool>, s: Statement) -> Outcome
    decreases s, 1nat, 0int,
{
    match s {
        Statement::Return(es, sp) => match eval_all(st.store, scope, es@, sp) {
            Err(x) => Err((st, x)),
            Ok(vs) => Ok((st, seq![(indicator, Val::Return(vs))])),
        },
        Statement::Definition(m, x, e, sp) => match eval(st.store, scope, e, sp) {
            Err(err) => Err((st, err)),
            Ok(v) => Ok(
                (
                    State {
                        store: st.store.insert(scope.push(x), declared(m, v)),
                        cs: st.cs,
                    },
                    seq![],
                ),
            ),
        },
        Statement::Assign(a, e, sp) => match assign(st, scope, indicator, a, e, sp) {
            Err(x) => Err((st, x)),
            Ok(st2) => Ok((st2, seq![])),
        },
        Statement::MultipleAssign(names, e, sp) => match eval(st.store, scope, e, sp) {
            Err(x) => Err((st, x)),
            Ok(v) => match tuple_elements(v) {
                Some(vs) => if vs.len() == names@.len() {
                    Ok(
                        (
                            State {
                                store: define_all(st.store, scope, names@, vs, vs.len() as int),
                                cs: st.cs,
                            },
                            seq![],
                        ),
                    )
                } else {
                    Err((st, StatementError::TypeMismatch(sp)))
                },
                None => Err((st, StatementError::TypeMismatch(sp))),
            },
        },
        Statement::Conditional(c, sp) => run_cond(st, scope, indicator, c, sp),
        Statement::For(x, a, b, body, sp) => match index_value(st.store, scope, a, sp) {
            Err(err) => Err((st, err)),
            Ok(from) => match index_value(st.store, scope, b, sp) {
                Err(err) => Err((st, err)),
                Ok(to) => run_for(st, scope, indicator, x, body@, from, to),
            },
        },
        Statement::AssertEq(a, b, sp) => match eval(st.store, scope, a, sp) {
            Err(x) => Err((st, x)),
            Ok(l) => match eval(st.store, scope, b, sp) {
                Err(x) => Err((st, x)),
                Ok(r) => if !same_type(l, r) {
                    Err((st, StatementError::AssertionFailed(sp)))
                } else if live(indicator) && l != r {
                    Err((st, StatementError::AssertionFailed(sp)))
                } else {
                    Ok((State { store: st.store, cs: st.cs.push(Constraint::Equality) }, seq![]))
                },
            },
        },
        Statement::Expression(e, sp) => match eval(st.store, scope, e, sp) {
            Err(x) => Err((st, x)),
            Ok(v) => match v {
                Val::Return(vs) => if vs.len() == 0 {
                    Ok((st, seq![(indicator, v)]))
                } else {
                    Err((st, StatementError::Unassigned(sp)))
                },
                _ => Err((st, StatementError::Unassigned(sp))),
            },
        },
    }
}

/// The statements of `stmts` from `i` on, in order.
pub open spec fn run_block(st: State, scope: Seq<u32>, indicator: Option<bool>, stmts: Seq<Statement>, i: int) -> Outcome
    decreases stmts, 0nat, stmts.len() - i,
{
    if i < 0 || i >= stmts.len() {
        Ok((st, seq![]))
    } else {
        match run_stmt(st, scope, indicator, stmts[i]) {
            Err(x) => Err(x),
            Ok((st1, rs)) => prepend(rs, run_block(st1, scope, indicator, stmts, i + 1)),
        }
    }
}

/// Iterations `i..to` of a loop over `body` with index variable `x`.
pub open spec fn run_for(
    st: State,
    scope: Seq<u32>,
    indicator: Option<bool>,
    x: u32,
    body: Seq<Statement>,
    i: int,
    to: int,
) -> Outcome
    decreases body, 1nat, to - i,
{
    if i >= to {
        Ok((st, seq![]))
    } else {
        let st1 = State { store: st.store.insert(scope.push(x), Val::Integer(i as u32)), cs: st.cs };
        match run_block(st1, scope, indicator, body, 0) {
            Err(e) => Err(e),
            Ok((st2, rs)) => prepend(rs, run_for(st2, scope, indicator, x, body, i + 1, to)),
        }
    }
}

/// An if/else-if/else chain: the condition's branch runs under
/// `outer && b`, the rest of the chain under `outer && !b`; both always run.
pub open spec fn run_cond(
    st: State,
    scope: Seq<u32>,
    indicator: Option<bool>,
    c: ConditionalStatement,
    sp: Span,
) -> Outcome
    decreases c, 1nat, 0int,
{
    match eval(st.store, scope, c.condition, sp) {
        Err(x) => Err((st, x)),
        Ok(Val::Boolean(b)) => {
            let (b1, b2) = branch_indicators(live(indicator), b);
            let st1 = State { store: st.store, cs: st.cs.push(Constraint::Conjunction) };
            match run_block(st1, scope, Some(b1), c.statements@, 0) {
                Err(x) => Err(x),
                Ok((st2, rs1)) => {
                    let st3 = State { store: st2.store, cs: st2.cs.push(Constraint::Conjunction) };
                    prepend(
                        rs1,
                        match c.next {
                            None => Ok((st3, seq![])),
                            Some(ConditionalNestedOrEndStatement::Nested(n)) => run_cond(
                                st3,
                                scope,
                                Some(b2),
                                *n,
                                sp,
                            ),
                            Some(ConditionalNestedOrEndStatement::End(ss)) => run_block(
                                st3,
                                scope,
                                Some(b2),
                                ss@,
                                0,
                            ),
                        },
                    )
                },
            }
        },
        Ok(_) => Err((st, StatementError::ConditionalBoolean(sp))),
    }
}

proof fn lemma_prepend_assoc(a: Seq<(Option<bool>, Val)>, b: Seq<(Option<bool>, Val)>, o: Outcome)
    ensures
        prepend(a, prepend(b, o)) == prepend(a + b, o),
{
    if let Ok((st, rs)) = o {
        assert(a + (b + rs) =~= (a + b) + rs);
    }
}

proof fn lemma_results_append(a: Seq<(Option<bool>, ConstrainedValue)>, b: Seq<(Option<bool>, ConstrainedValue)>)
    ensures
        results_view(a + b) == results_view(a) + results_view(b),
{
    assert(results_view(a + b) =~= results_view(a) + results_view(b));
}

/// Evaluates each expression, in order.
pub fn enforce_all(store: &crate::store::ProgramStore, scope: &Vec<u32>, es: &Vec<Expression>, sp: Span) -> (r: Result<
    Vec<ConstrainedValue>,
    StatementError,
>)
    ensures
        match eval_all(store@, scope@, es@, sp) {
            Ok(vs) => r is Ok && view_values(r->Ok_0@) == vs,
            Err(e) => r == Err::<Vec<ConstrainedValue>, StatementError>(e),
        },
{
    let mut out: Vec<ConstrainedValue> = Vec::new();
    let mut i: usize = 0;
    assert(es@.subrange(0, 0).len() == 0);
    while i < es.len()
        invariant
            0 <= i <= es.len(),
            eval_all(store@, scope@, es@.subrange(0, i as int), sp) == Ok::<Seq<Val>, StatementError>(
                view_values(out@),
            ),
        decreases es.len() - i,
    {
        let ghost pre = es@.subrange(0, i as int);
        assert(es@.subrange(0, i + 1).subrange(0, i as int) =~= pre);
        let v = match enforce_expression(store, scope, &es[i], sp) {
            Ok(v) => v,
            Err(e) => {
                assert(eval_all(store@, scope@, es@.subrange(0, i + 1), sp) == Err::<Seq<Val>, StatementError>(e));
                assert(eval_all(store@, scope@, es@, sp) == Err::<Seq<Val>, StatementError>(e)) by {
                    lemma_eval_all_err(store@, scope@, es@, sp, i + 1, e);
                }
                return Err(e);
            },
        };
        proof {
            assert(out@.push(v).subrange(0, out@.len() as int) =~= out@);
        }
        out.push(v);
        i = i + 1;
    }
    assert(es@.subrange(0, es.len() as int) =~= es@);
    Ok(out)
}

proof fn lemma_eval_all_err(
    env: Map<Seq<u32>, Val>,
    scope: Seq<u32>,
    es: Seq<Expression>,
    sp: Span,
    k: int,
    e: StatementError,
)
    requires
        0 <= k <= es.len(),
        eval_all(env, scope, es.subrange(0, k), sp) == Err::<Seq<Val>, StatementError>(e),
    ensures
        eval_all(env, scope, es, sp) == Err::<Seq<Val>, StatementError>(e),
    decreases es.len() - k,
{
    if k < es.len() {
        assert(es.subrange(0, k + 1).subrange(0, k) =~= es.subrange(0, k));
        lemma_eval_all_err(env, scope, es, sp, k + 1, e);
    } else {
        assert(es.subrange(0, k) =~= es);
    }
}


/// The leaf indicators of a chain with conditions `conds` under `outer`:
/// one per `if`, then one for the final `else` where there is one.
pub open spec fn leaf_indicators(outer: bool, conds: Seq<bool>, has_else: bool) -> Seq<bool>
    decreases conds.len(),
{
    if conds.len() == 0 {
        if has_else {
            seq![outer]
        } else {
            seq![]
        }
    } else {
        let (b1, b2) = branch_indicators(outer, conds[0]);
        seq![b1] + leaf_indicators(b2, conds.drop_first(), has_else)
    }
}

pub open spec fn count_true(s: Seq<bool>) -> nat
    decreases s.len(),
{
    if s.len() == 0 {
        0
    } else {
        (if s[0] { 1nat } else { 0nat }) + count_true(s.drop_first())
    }
}

/// Mutual exclusivity: under a live outer indicator exactly one leaf of an
/// if/else-if/else chain is live, whatever the conditions; without a final
/// `else` at most one is; under a dead outer indicator none is.
pub proof fn lemma_mutual_exclusivity(outer: bool, conds: Seq<bool>, has_else: bool)
    ensures
        count_true(leaf_indicators(outer, conds, has_else)) <= 1,
        outer && has_else ==> count_true(leaf_indicators(outer, conds, has_else)) == 1,
        !outer ==> count_true(leaf_indicators(outer, conds, has_else)) == 0,
    decreases conds.len(),
{
    let l = leaf_indicators(outer, conds, has_else);
    if conds.len() == 0 {
        if has_else {
            assert(l.drop_first() =~= seq![]);
            assert(count_true(l.drop_first()) == 0);
            assert(count_true(l) == (if outer { 1nat } else { 0nat }));
        } else {
            assert(count_true(l) == 0);
        }
    } else {
        let (b1, b2) = branch_indicators(outer, conds[0]);
        let rest = leaf_indicators(b2, conds.drop_first(), has_else);
        lemma_mutual_exclusivity(b2, conds.drop_first(), has_else);
        assert(l.drop_first() =~= rest);
        assert(l[0] == b1);
        assert(count_true(l) == (if b1 { 1nat } else { 0nat }) + count_true(rest));
    }
}

/// Following `run_cond` step by step: the indicators it hands to the leaf
/// blocks of a chain, the condition values it read, and whether the chain
/// ends in an `else`. `None` where `run_cond` stops on an error first.
pub open spec fn chain_leaves(
    st: State,
    scope: Seq<u32>,
    indicator: Option<bool>,
    c: ConditionalStatement,
    sp: Span,
) -> Option<(Seq<bool>, Seq<bool>, bool)>
    decreases c,
{
    match eval(st.store, scope, c.condition, sp) {
        Ok(Val::Boolean(b)) => {
            let (b1, b2) = branch_indicators(live(indicator), b);
            let st1 = State { store: st.store, cs: st.cs.push(Constraint::Conjunction) };
            match run_block(st1, scope, Some(b1), c.statements@, 0) {
                Ok((st2, _)) => {
                    let st3 = State { store: st2.store, cs: st2.cs.push(Constraint::Conjunction) };
                    match c.next {
                        None => Some((seq![b1], seq![b], false)),
                        Some(ConditionalNestedOrEndStatement::Nested(n)) => match chain_leaves(
                            st3,
                            scope,
                            Some(b2),
                            *n,
                            sp,
                        ) {
                            Some((ls, cs, he)) => Some((seq![b1] + ls, seq![b] + cs, he)),
                            None => None,
                        },
                        Some(ConditionalNestedOrEndStatement::End(_)) => Some((seq![b1, b2], seq![b], true)),
                    }
                },
                Err(_) => None,
            }
        },
        _ => None,
    }
}

/// The indicators `run_cond` hands to the leaf blocks of a chain are those
/// of `leaf_indicators` over the conditions it read; so under a live outer
/// indicator exactly one leaf of an if/else-if/else chain is live, at most
/// one without a final `else`, and none under a dead outer indicator.
pub proof fn lemma_chain_exclusivity(
    st: State,
    scope: Seq<u32>,
    indicator: Option<bool>,
    c: ConditionalStatement,
    sp: Span,
)
    ensures
        chain_leaves(st, scope, indicator, c, sp) matches Some((ls, conds, he)) ==> {
            &&& ls == leaf_indicators(live(indicator), conds, he)
            &&& count_true(ls) <= 1
            &&& live(indicator) && he ==> count_true(ls) == 1
            &&& !live(indicator) ==> count_true(ls) == 0
        },
    decreases c,
{
    if let Ok(Val::Boolean(b)) = eval(st.store, scope, c.condition, sp) {
        let (b1, b2) = branch_indicators(live(indicator), b);
        let st1 = State { store: st.store, cs: st.cs.push(Constraint::Conjunction) };
        if let Ok((st2, _)) = run_block(st1, scope, Some(b1), c.statements@, 0) {
            let st3 = State { store: st2.store, cs: st2.cs.push(Constraint::Conjunction) };
            match c.next {
                None => {
                    let outer = live(indicator);
                    assert(seq![b].drop_first() =~= Seq::<bool>::empty());
                    assert(leaf_indicators(b2, seq![b].drop_first(), false) == Seq::<bool>::empty());
                    assert(leaf_indicators(outer, seq![b], false) == seq![b1] + leaf_indicators(
                        b2,
                        seq![b].drop_first(),
                        false,
                    ));
                    assert(seq![b1] + Seq::<bool>::empty() =~= seq![b1]);
                },
                Some(ConditionalNestedOrEndStatement::Nested(n)) => {
                    lemma_chain_exclusivity(st3, scope, Some(b2), *n, sp);
                    if let Some((ls, cs, he)) = chain_leaves(st3, scope, Some(b2), *n, sp) {
                        let outer = live(indicator);
                        assert((seq![b] + cs).drop_first() =~= cs);
                        assert((seq![b] + cs)[0] == b);
                        assert(leaf_indicators(outer, seq![b] + cs, he) == seq![b1] + leaf_indicators(
                            b2,
                            (seq![b] + cs).drop_first(),
                            he,
                        ));
                    }
                },
                Some(ConditionalNestedOrEndStatement::End(_)) => {
                    let outer = live(indicator);
                    assert(seq![b].drop_first() =~= Seq::<bool>::empty());
                    assert(leaf_indicators(b2, seq![b].drop_first(), true) == seq![b2]);
                    assert(leaf_indicators(outer, seq![b], true) == seq![b1] + leaf_indicators(
                        b2,
                        seq![b].drop_first(),
                        true,
                    ));
                    assert(seq![b1] + seq![b2] =~= seq![b1, b2]);
                },
            }
        }
    }
    if let Some((ls, conds, he)) = chain_leaves(st, scope, indicator, c, sp) {
        lemma_mutual_exclusivity(live(indicator), conds, he);
    }
}

/// Whether every loop bound in `s` is an integer literal or a sum of such.
/// Then the constraints `s` emits depend on its text alone; a bound read from
/// a variable may depend on what an earlier selection wrote there.
pub open spec fn stmt_fixed(s: Statement) -> bool
    decreases s, 1nat, 0int,
{
    match s {
        Statement::Conditional(c, _) => cond_fixed(c),
        Statement::For(_, a, b, body, sp) => const_index(a, sp) is Ok && const_index(b, sp) is Ok
            && block_fixed(body@, 0),
        _ => true,
    }
}

pub open spec fn block_fixed(stmts: Seq<Statement>, i: int) -> bool
    decreases stmts, 0nat, stmts.len() - i,
{
    if i < 0 || i >= stmts.len() {
        true
    } else {
        stmt_fixed(stmts[i]) && block_fixed(stmts, i + 1)
    }
}

pub open spec fn cond_fixed(c: ConditionalStatement) -> bool
    decreases c, 1nat, 0int,
{
    block_fixed(c.statements@, 0) && match c.next {
        None => true,
        Some(ConditionalNestedOrEndStatement::Nested(n)) => cond_fixed(*n),
        Some(ConditionalNestedOrEndStatement::End(ss)) => block_fixed(ss@, 0),
    }
}

/// The constraints one statement with literal loop bounds emits.
pub open spec fn stmt_cost(s: Statement) -> int
    decreases s, 1nat, 0int,
{
    match s {
        Statement::Assign(_, _, _) => 1,
        Statement::AssertEq(_, _, _) => 1,
        Statement::Conditional(c, _) => cond_cost(c),
        Statement::For(_, a, b, body, sp) => match (const_index(a, sp), const_index(b, sp)) {
            (Ok(from), Ok(to)) => for_cost(body@, from, to),
            _ => 0,
        },
        _ => 0,
    }
}

pub open spec fn block_cost(stmts: Seq<Statement>, i: int) -> int
    decreases stmts, 0nat, stmts.len() - i,
{
    if i < 0 || i >= stmts.len() {
        0
    } else {
        stmt_cost(stmts[i]) + block_cost(stmts, i + 1)
    }
}

pub open spec fn for_cost(body: Seq<Statement>, i: int, to: int) -> int
    decreases body, 1nat, to - i,
{
    if i >= to {
        0
    } else {
        block_cost(body, 0) + for_cost(body, i + 1, to)
    }
}

/// Two conjunctions for the branch indicators, plus both branches in full.
pub open spec fn cond_cost(c: ConditionalStatement) -> int
    decreases c, 1nat, 0int,
{
    2 + block_cost(c.statements@, 0) + match c.next {
        None => 0,
        Some(ConditionalNestedOrEndStatement::Nested(n)) => cond_cost(*n),
        Some(ConditionalNestedOrEndStatement::End(ss)) => block_cost(ss@, 0),
    }
}

/// The `(indicator, value)` pairs one statement with literal loop bounds
/// yields: one per `return` or expression statement reached in its text.
pub open spec fn stmt_yield(s: Statement) -> int
    decreases s, 1nat, 0int,
{
    match s {
        Statement::Return(_, _) => 1,
        Statement::Expression(_, _) => 1,
        Statement::Conditional(c, _) => cond_yield(c),
        Statement::For(_, a, b, body, sp) => match (const_index(a, sp), const_index(b, sp)) {
            (Ok(from), Ok(to)) => for_yield(body@, from, to),
            _ => 0,
        },
        _ => 0,
    }
}

pub open spec fn block_yield(stmts: Seq<Statement>, i: int) -> int
    decreases stmts, 0nat, stmts.len() - i,
{
    if i < 0 || i >= stmts.len() {
        0
    } else {
        stmt_yield(stmts[i]) + block_yield(stmts, i + 1)
    }
}

pub open spec fn for_yield(body: Seq<Statement>, i: int, to: int) -> int
    decreases body, 1nat, to - i,
{
    if i >= to {
        0
    } else {
        block_yield(body, 0) + for_yield(body, i + 1, to)
    }
}

/// Every branch yields its pairs, whatever the conditions.
pub open spec fn cond_yield(c: ConditionalStatement) -> int
    decreases c, 1nat, 0int,
{
    block_yield(c.statements@, 0) + match c.next {
        None => 0,
        Some(ConditionalNestedOrEndStatement::Nested(n)) => cond_yield(*n),
        Some(ConditionalNestedOrEndStatement::End(ss)) => block_yield(ss@, 0),
    }
}

/// How many pairs a successful outcome yields.
pub open spec fn yielded(o: Outcome) -> Option<int> {
    match o {
        Ok((_, rs)) => Some(rs.len() as int),
        Err(_) => None,
    }
}

pub open spec fn emitted(st: State, o: Outcome) -> Option<int> {
    match o {
        Ok((st2, _)) => Some(st2.cs.len() - st.cs.len()),
        Err(_) => None,
    }
}

/// A statement with literal loop bounds that succeeds emits exactly its
/// cost, under any indicator and from any state.
pub proof fn lemma_stmt_cost(st: State, scope: Seq<u32>, indicator: Option<bool>, s: Statement)
    requires
        stmt_fixed(s),
    ensures
        run_stmt(st, scope, indicator, s) is Ok ==> emitted(st, run_stmt(st, scope, indicator, s)) == Some(
            stmt_cost(s),
        ),
        run_stmt(st, scope, indicator, s) is Ok ==> yielded(run_stmt(st, scope, indicator, s)) == Some(
            stmt_yield(s),
        ),
    decreases s, 1nat, 0int,
{
    match s {
        Statement::Conditional(c, sp) => lemma_conditional_completeness(st, scope, indicator, c, sp),
        Statement::For(x, a, b, body, sp) => {
            lemma_const_index(st.store, scope, a, sp);
            lemma_const_index(st.store, scope, b, sp);
            if let (Ok(from), Ok(to)) = (const_index(a, sp), const_index(b, sp)) {
                lemma_for_cost(st, scope, indicator, x, body@, from, to);
            }
        },
        _ => {},
    }
}

/// A block with literal loop bounds that succeeds emits exactly the sum of
/// its statements' costs.
pub proof fn lemma_block_cost(st: State, scope: Seq<u32>, indicator: Option<bool>, stmts: Seq<Statement>, i: int)
    requires
        block_fixed(stmts, i),
    ensures
        run_block(st, scope, indicator, stmts, i) is Ok ==> emitted(st, run_block(st, scope, indicator, stmts, i))
            == Some(block_cost(stmts, i)),
        run_block(st, scope, indicator, stmts, i) is Ok ==> yielded(run_block(st, scope, indicator, stmts, i))
            == Some(block_yield(stmts, i)),
    decreases stmts, 0nat, stmts.len() - i,
{
    if 0 <= i < stmts.len() {
        lemma_stmt_cost(st, scope, indicator, stmts[i]);
        if let Ok((st1, rs)) = run_stmt(st, scope, indicator, stmts[i]) {
            lemma_block_cost(st1, scope, indicator, stmts, i + 1);
        }
    }
}

proof fn lemma_for_cost(
    st: State,
    scope: Seq<u32>,
    indicator: Option<bool>,
    x: u32,
    body: Seq<Statement>,
    i: int,
    to: int,
)
    requires
        block_fixed(body, 0),
    ensures
        run_for(st, scope, indicator, x, body, i, to) is Ok ==> emitted(
            st,
            run_for(st, scope, indicator, x, body, i, to),
        ) == Some(for_cost(body, i, to)),
        run_for(st, scope, indicator, x, body, i, to) is Ok ==> yielded(
            run_for(st, scope, indicator, x, body, i, to),
        ) == Some(for_yield(body, i, to)),
    decreases body, 1nat, to - i,
{
    if i < to {
        let st1 = State { store: st.store.insert(scope.push(x), Val::Integer(i as u32)), cs: st.cs };
        lemma_block_cost(st1, scope, indicator, body, 0);
        if let Ok((st2, rs)) = run_block(st1, scope, indicator, body, 0) {
            lemma_for_cost(st2, scope, indicator, x, body, i + 1, to);
        }
    }
}

/// Completeness: a conditional chain with literal loop bounds that succeeds
/// emits two conjunctions plus what each branch emits on its own, and yields
/// the pairs of every branch, whatever the conditions' values and the outer
/// indicator: no branch is ever skipped.
pub proof fn lemma_conditional_completeness(
    st: State,
    scope: Seq<u32>,
    indicator: Option<bool>,
    c: ConditionalStatement,
    sp: Span,
)
    requires
        cond_fixed(c),
    ensures
        run_cond(st, scope, indicator, c, sp) is Ok ==> emitted(st, run_cond(st, scope, indicator, c, sp))
            == Some(cond_cost(c)),
        run_cond(st, scope, indicator, c, sp) is Ok ==> yielded(run_cond(st, scope, indicator, c, sp))
            == Some(cond_yield(c)),
    decreases c, 1nat, 0int,
{
    if let Ok(Val::Boolean(b)) = eval(st.store, scope, c.condition, sp) {
        let (b1, b2) = branch_indicators(live(indicator), b);
        let st1 = State { store: st.store, cs: st.cs.push(Constraint::Conjunction) };
        lemma_block_cost(st1, scope, Some(b1), c.statements@, 0);
        if let Ok((st2, rs1)) = run_block(st1, scope, Some(b1), c.statements@, 0) {
            let st3 = State { store: st2.store, cs: st2.cs.push(Constraint::Conjunction) };
            match c.next {
                None => {},
                Some(ConditionalNestedOrEndStatement::Nested(n)) => {
                    lemma_conditional_completeness(st3, scope, Some(b2), *n, sp);
                },
                Some(ConditionalNestedOrEndStatement::End(ss)) => {
                    lemma_block_cost(st3, scope, Some(b2), ss@, 0);
                },
            }
        }
    }
}

impl ConstrainedProgram {
    /// Emits a conditional equality; the gadget rejects operands of different
    /// types, and fails when the indicator is live and the two values differ.
    pub fn enforce_assert_eq_statement(
        cs: &mut ConstraintSystem,
        indicator: Option<bool>,
        left: &ConstrainedValue,
        right: &ConstrainedValue,
        sp: Span,
    ) -> (r: Result<(), StatementError>)
        ensures
            !same_type(left@, right@) ==> r == Err::<(), StatementError>(StatementError::AssertionFailed(sp)),
            same_type(left@, right@) && live(indicator) && left@ != right@ ==> r == Err::<(), StatementError>(
                StatementError::AssertionFailed(sp),
            ),
            same_type(left@, right@) && !(live(indicator) && left@ != right@) ==> r is Ok && final(cs).constraints@ == old(
                cs,
            ).constraints@.push(Constraint::Equality),
            r is Err ==> final(cs).constraints@ == old(cs).constraints@,
    {
        let condition = match indicator {
            Some(b) => b,
            None => true,
        };
        if !types_match(left, right) {
            return Err(StatementError::AssertionFailed(sp));
        }
        if condition && !values_equal(left, right) {
            return Err(StatementError::AssertionFailed(sp));
        }
        cs.constraints.push(Constraint::Equality);
        Ok(())
    }

    /// Enforces `statements` in order under `indicator`, collecting every
    /// `(indicator, value)` pair they yield.
    pub fn evaluate_branch(
        &mut self,
        cs: &mut ConstraintSystem,
        scope: &Vec<u32>,
        indicator: Option<bool>,
        statements: &Vec<Statement>,
    ) -> (r: Result<Vec<(Option<bool>, ConstrainedValue)>, StatementError>)
        ensures
            outcome_is(
                run_block(state_of(*old(self), *old(cs)), scope@, indicator, statements@, 0),
                state_of(*final(self), *final(cs)),
                r,
            ),
        decreases statements@, 0nat, statements@.len(),
    {
        let ghost st0 = state_of(*self, *cs);
        let mut results: Vec<(Option<bool>, ConstrainedValue)> = Vec::new();
        let mut i: usize = 0;
        proof {
            let o = run_block(st0, scope@, indicator, statements@, 0);
            if let Ok((st, rs)) = o {
                assert(results_view(results@) + rs =~= rs);
            }
        }
        while i < statements.len()
            invariant
                0 <= i <= statements.len(),
                st0 == state_of(*old(self), *old(cs)),
                run_block(st0, scope@, indicator, statements@, 0) == prepend(
                    results_view(results@),
                    run_block(state_of(*self, *cs), scope@, indicator, statements@, i as int),
                ),
            decreases statements.len() - i,
        {
            let ghost before = state_of(*self, *cs);
            let ghost prefix = results@;
            let mut rs = match self.enforce_statement(cs, scope, indicator, &statements[i]) {
                Ok(rs) => rs,
                Err(e) => {
                    return Err(e);
                },
            };
            proof {
                lemma_prepend_assoc(
                    results_view(prefix),
                    results_view(rs@),
                    run_block(state_of(*self, *cs), scope@, indicator, statements@, i + 1),
                );
                lemma_results_append(prefix, rs@);
            }
            results.append(&mut rs);
            i = i + 1;
        }
        proof {
            assert(results_view(results@) + seq![] =~= results_view(results@));
        }
        Ok(results)
    }

    /// Unrolls `for x in from..to { body }`: the index is bound in `scope`
    /// to each value in turn and the body enforced once per value. Loops open
    /// no scope of their own, so the index stays bound after the loop and
    /// hides an earlier variable of the same name.
    pub fn enforce_for_statement(
        &mut self,
        cs: &mut ConstraintSystem,
        scope: &Vec<u32>,
        indicator: Option<bool>,
        x: u32,
        body: &Vec<Statement>,
        from: u32,
        to: u32,
    ) -> (r: Result<Vec<(Option<bool>, ConstrainedValue)>, StatementError>)
        ensures
            outcome_is(
                run_for(state_of(*old(self), *old(cs)), scope@, indicator, x, body@, from as int, to as int),
                state_of(*final(self), *final(cs)),
                r,
            ),
        decreases body@, 1nat, 0int,
    {
        let ghost st0 = state_of(*self, *cs);
        let mut results: Vec<(Option<bool>, ConstrainedValue)> = Vec::new();
        let mut i: u32 = from;
        proof {
            let o = run_for(st0, scope@, indicator, x, body@, from as int, to as int);
            if let Ok((st, rs)) = o {
                assert(results_view(results@) + rs =~= rs);
            }
        }
        while i < to
            invariant
                from <= i || from >= to,
                st0 == state_of(*old(self), *old(cs)),
                run_for(st0, scope@, indicator, x, body@, from as int, to as int) == prepend(
                    results_view(results@),
                    run_for(state_of(*self, *cs), scope@, indicator, x, body@, i as int, to as int),
                ),
            decreases to - i,
        {
            let ghost prefix = results@;
            let index_name = new_scope(scope, x);
            self.store.store(index_name, ConstrainedValue::Integer(i));
            let mut rs = match self.evaluate_branch(cs, scope, indicator, body) {
                Ok(rs) => rs,
                Err(e) => {
                    return Err(e);
                },
            };
            proof {
                lemma_prepend_assoc(
                    results_view(prefix),
                    results_view(rs@),
                    run_for(state_of(*self, *cs), scope@, indicator, x, body@, i + 1, to as int),
                );
                lemma_results_append(prefix, rs@);
            }
            results.append(&mut rs);
            i = i + 1;
        }
        proof {
            assert(results_view(results@) + seq![] =~= results_view(results@));
        }
        Ok(results)
    }

    /// Enforces an if/else-if/else chain. Both branches are always enforced:
    /// the first under `outer && condition`, the rest of the chain under
    /// `outer && !condition`, each indicator costing one conjunction.
    pub fn enforce_conditional_statement(
        &mut self,
        cs: &mut ConstraintSystem,
        scope: &Vec<u32>,
        indicator: Option<bool>,
        statement: &ConditionalStatement,
        sp: Span,
    ) -> (r: Result<Vec<(Option<bool>, ConstrainedValue)>, StatementError>)
        ensures
            outcome_is(
                run_cond(state_of(*old(self), *old(cs)), scope@, indicator, *statement, sp),
                state_of(*final(self), *final(cs)),
                r,
            ),
        decreases *statement, 1nat, 0int,
    {
        let outer = match indicator {
            Some(b) => b,
            None => true,
        };
        let inner = match enforce_expression(&self.store, scope, &statement.condition, sp)? {
            ConstrainedValue::Boolean(b) => b,
            _ => {
                return Err(StatementError::ConditionalBoolean(sp));
            },
        };
        let branch_1_indicator = outer && inner;
        cs.constraints.push(Constraint::Conjunction);
        let mut results = self.evaluate_branch(cs, scope, Some(branch_1_indicator), &statement.statements)?;
        let branch_2_indicator = outer && !inner;
        cs.constraints.push(Constraint::Conjunction);
        let ghost mid = results@;
        let mut rest = match &statement.next {
            None => Vec::new(),
            Some(ConditionalNestedOrEndStatement::Nested(nested)) => self.enforce_conditional_statement(
                cs,
                scope,
                Some(branch_2_indicator),
                nested,
                sp,
            )?,
            Some(ConditionalNestedOrEndStatement::End(statements)) => self.evaluate_branch(
                cs,
                scope,
                Some(branch_2_indicator),
                statements,
            )?,
        };
        proof {
            lemma_results_append(mid, rest@);
        }
        results.append(&mut rest);
        Ok(results)
    }

    /// Binds each name to the element of a tuple value at its position.
    pub fn enforce_multiple_definition(
        &mut self,
        scope: &Vec<u32>,
        names: &Vec<(bool, u32)>,
        value: ConstrainedValue,
        sp: Span,
    ) -> (r: Result<(), StatementError>)
        ensures
            r is Err ==> final(self).store@ == old(self).store@,
            match tuple_elements(value@) {
                Some(vs) => if vs.len() == names@.len() {
                    r is Ok && final(self).store@ == define_all(
                        old(self).store@,
                        scope@,
                        names@,
                        vs,
                        vs.len() as int,
                    )
                } else {
                    r == Err::<(), StatementError>(StatementError::TypeMismatch(sp))
                },
                None => r == Err::<(), StatementError>(StatementError::TypeMismatch(sp)),
            },
    {
        let vs = match value {
            ConstrainedValue::Tuple(vs) => vs,
            ConstrainedValue::Return(vs) => vs,
            _ => {
                return Err(StatementError::TypeMismatch(sp));
            },
        };
        proof {
            lemma_view_values(vs@);
        }
        if vs.len() != names.len() {
            return Err(StatementError::TypeMismatch(sp));
        }
        let ghost vv = view_values(vs@);
        let mut i: usize = 0;
        while i < names.len()
            invariant
                0 <= i <= names.len(),
                vs.len() == names.len(),
                vv == view_values(vs@),
                vv.len() == vs.len(),
                forall|k: int| 0 <= k < vs.len() ==> #[trigger] vv[k] == vs@[k]@,
                self.store@ == define_all(old(self).store@, scope@, names@, vv, i as int),
            decreases names.len() - i,
        {
            let (mutable, x) = names[i];
            let v = vs[i].duplicate();
            let name = new_scope(scope, x);
            if mutable {
                self.store.store(name, ConstrainedValue::Mutable(Box::new(v)));
            } else {
                self.store.store(name, v);
            }
            i = i + 1;
        }
        Ok(())
    }

    /// Enforces one statement under `indicator` and returns the
    /// `(indicator, value)` pairs it yields.
    pub fn enforce_statement(
        &mut self,
        cs: &mut ConstraintSystem,
        scope: &Vec<u32>,
        indicator: Option<bool>,
        statement: &Statement,
    ) -> (r: Result<Vec<(Option<bool>, ConstrainedValue)>, StatementError>)
        ensures
            outcome_is(
                run_stmt(state_of(*old(self), *old(cs)), scope@, indicator, *statement),
                state_of(*final(self), *final(cs)),
                r,
            ),
        decreases *statement, 1nat, 0int,
    {
        let mut results: Vec<(Option<bool>, ConstrainedValue)> = Vec::new();
        match statement {
            Statement::Return(expressions, sp) => {
                let values = enforce_all(&self.store, scope, expressions, *sp)?;
                results.push((indicator, ConstrainedValue::Return(values)));
                proof {
                    assert(results_view(results@) =~= seq![(indicator, results@[0].1@)]);
                }
            },
            Statement::Definition(mutable, x, expression, sp) => {
                let value = enforce_expression(&self.store, scope, expression, *sp)?;
                let name = new_scope(scope, *x);
                if *mutable {
                    self.store.store(name, ConstrainedValue::Mutable(Box::new(value)));
                } else {
                    self.store.store(name, value);
                }
                proof {
                    assert(results_view(results@) =~= seq![]);
                }
            },
            Statement::Assign(assignee, expression, sp) => {
                self.enforce_assign_statement(cs, scope, indicator, assignee, expression, *sp)?;
                proof {
                    assert(results_view(results@) =~= seq![]);
                }
            },
            Statement::MultipleAssign(names, expression, sp) => {
                let value = enforce_expression(&self.store, scope, expression, *sp)?;
                self.enforce_multiple_definition(scope, names, value, *sp)?;
                proof {
                    assert(results_view(results@) =~= seq![]);
                }
            },
            Statement::Conditional(c, sp) => {
                return self.enforce_conditional_statement(cs, scope, indicator, c, *sp);
            },
            Statement::For(x, start, stop, body, sp) => {
                let from = enforce_index(&self.store, scope, start, *sp)?;
                let to = enforce_index(&self.store, scope, stop, *sp)?;
                return self.enforce_for_statement(cs, scope, indicator, *x, body, from, to);
            },
            Statement::AssertEq(left, right, sp) => {
                let l = enforce_expression(&self.store, scope, left, *sp)?;
                let r = enforce_expression(&self.store, scope, right, *sp)?;
                Self::enforce_assert_eq_statement(cs, indicator, &l, &r, *sp)?;
                proof {
                    assert(results_view(results@) =~= seq![]);
                }
            },
            Statement::Expression(expression, sp) => {
                let value = enforce_expression(&self.store, scope, expression, *sp)?;
                let empty = match &value {
                    ConstrainedValue::Return(vs) => {
                        proof {
                            lemma_view_values(vs@);
                        }
                        vs.len() == 0
                    },
                    _ => false,
                };
                if !empty {
                    return Err(StatementError::Unassigned(*sp));
                }
                results.push((indicator, value));
                proof {
                    assert(results_view(results@) =~= seq![(indicator, results@[0].1@)]);
                }
            },
        }
        Ok(results)
    }
}

} // verus!
