use leo_compiler::ast::{
    Assignee, ConditionalNestedOrEndStatement, ConditionalStatement, Expression, Function, FunctionInput,
    RangeOrExpression, Span, Statement, Type,
};
use leo_compiler::errors::{FunctionError, StatementError};
use leo_compiler::program::{Constraint, ConstrainedProgram, ConstraintSystem};
use leo_compiler::store::new_scope;
use leo_compiler::value::{values_equal, ConstrainedValue};

const X: u32 = 30;
const I: u32 = 31;
const ARR: u32 = 32;
const C1: u32 = 33;
const C2: u32 = 34;
const OBJ: u32 = 35;
const FIELD: u32 = 36;
const METHOD: u32 = 37;
const CONSTANT: u32 = 38;
const POINT: u32 = 39;
const FUNC: u32 = 40;

fn sp() -> Span {
    Span { line: 3, start: 5 }
}

fn lit(n: u32) -> Expression {
    Expression::Integer(n)
}

fn ident(x: u32) -> Expression {
    Expression::Identifier(x)
}

fn add(a: Expression, b: Expression) -> Expression {
    Expression::Add(Box::new(a), Box::new(b))
}

fn let_(mutable: bool, x: u32, e: Expression) -> Statement {
    Statement::Definition(mutable, x, e, sp())
}

fn set(x: u32, e: Expression) -> Statement {
    Statement::Assign(Assignee::Identifier(x), e, sp())
}

fn ret(es: Vec<Expression>) -> Statement {
    Statement::Return(es, sp())
}

fn scope() -> Vec<u32> {
    vec![1, 2]
}

fn as_int(v: &ConstrainedValue) -> u32 {
    match v {
        ConstrainedValue::Integer(n) => *n,
        ConstrainedValue::Mutable(b) => as_int(b),
        other => panic!("not an integer: {:?}", other),
    }
}

fn lookup(p: &ConstrainedProgram, x: u32) -> ConstrainedValue {
    p.store.get(&new_scope(&scope(), x)).unwrap()
}

fn run(p: &mut ConstrainedProgram, cs: &mut ConstraintSystem, stmts: &Vec<Statement>) -> Result<Vec<(Option<bool>, ConstrainedValue)>, StatementError> {
    p.evaluate_branch(cs, &scope(), None, stmts)
}

fn ints(ns: &[u32]) -> ConstrainedValue {
    ConstrainedValue::Array(ns.iter().map(|n| ConstrainedValue::Integer(*n)).collect())
}

fn bind(p: &mut ConstrainedProgram, x: u32, v: ConstrainedValue) {
    p.store.store(new_scope(&scope(), x), v);
}

fn chain() -> Statement {
    let inner = ConditionalStatement {
        condition: ident(C2),
        statements: vec![ret(vec![lit(2)])],
        next: Some(ConditionalNestedOrEndStatement::End(vec![ret(vec![lit(3)])])),
    };
    let outer = ConditionalStatement {
        condition: ident(C1),
        statements: vec![ret(vec![lit(1)])],
        next: Some(ConditionalNestedOrEndStatement::Nested(Box::new(inner))),
    };
    Statement::Conditional(outer, sp())
}

#[test]
fn loop_unrolling_matches_sequential_assignments() {
    let mut p = ConstrainedProgram::new();
    let mut cs = ConstraintSystem::new();
    let looped = vec![
        let_(true, X, lit(0)),
        Statement::For(I, lit(0), lit(3), vec![set(X, add(ident(X), ident(I)))], sp()),
    ];
    run(&mut p, &mut cs, &looped).unwrap();

    let mut q = ConstrainedProgram::new();
    let mut cs2 = ConstraintSystem::new();
    let sequential = vec![
        let_(true, X, lit(0)),
        set(X, add(ident(X), lit(0))),
        set(X, add(ident(X), lit(1))),
        set(X, add(ident(X), lit(2))),
    ];
    run(&mut q, &mut cs2, &sequential).unwrap();

    assert_eq!(as_int(&lookup(&p, X)), 3);
    assert!(values_equal(&lookup(&p, X), &lookup(&q, X)));
    assert!(matches!(lookup(&p, X), ConstrainedValue::Mutable(_)));
    assert_eq!(cs.num_constraints(), 3);
    assert_eq!(cs2.num_constraints(), 3);
    // The index stays bound in the enclosing scope after the loop.
    assert_eq!(as_int(&lookup(&p, I)), 2);
}

#[test]
fn empty_loop_range_runs_nothing() {
    let mut p = ConstrainedProgram::new();
    let mut cs = ConstraintSystem::new();
    let stmts = vec![let_(true, X, lit(5)), Statement::For(I, lit(3), lit(3), vec![set(X, lit(0))], sp())];
    run(&mut p, &mut cs, &stmts).unwrap();
    assert_eq!(as_int(&lookup(&p, X)), 5);
    assert_eq!(cs.num_constraints(), 0);
}

#[test]
fn loop_bound_read_from_variable() {
    let mut p = ConstrainedProgram::new();
    let mut cs = ConstraintSystem::new();
    let stmts = vec![
        let_(false, C2, lit(4)),
        let_(true, X, lit(0)),
        Statement::For(I, lit(1), ident(C2), vec![set(X, add(ident(X), ident(I)))], sp()),
    ];
    run(&mut p, &mut cs, &stmts).unwrap();
    assert_eq!(as_int(&lookup(&p, X)), 6);
    assert_eq!(cs.num_constraints(), 3);
}

#[test]
fn loop_bound_must_be_an_integer() {
    let mut p = ConstrainedProgram::new();
    let mut cs = ConstraintSystem::new();
    let stmts = vec![let_(false, X, Expression::Boolean(true)), Statement::For(I, lit(0), ident(X), vec![], sp())];
    assert_eq!(run(&mut p, &mut cs, &stmts).unwrap_err(), StatementError::NonConcreteIndex(sp()));
}

#[test]
fn loop_body_indexes_by_loop_variable() {
    let mut p = ConstrainedProgram::new();
    let mut cs = ConstraintSystem::new();
    bind(&mut p, ARR, ConstrainedValue::Mutable(Box::new(ints(&[0, 0, 0]))));
    let stmts = vec![Statement::For(
        I,
        lit(0),
        lit(3),
        vec![Statement::Assign(Assignee::Array(ARR, RangeOrExpression::Expression(ident(I))), add(ident(I), lit(5)), sp())],
        sp(),
    )];
    run(&mut p, &mut cs, &stmts).unwrap();
    assert!(values_equal(&lookup(&p, ARR), &ConstrainedValue::Mutable(Box::new(ints(&[5, 6, 7])))));
}

#[test]
fn range_bounds_read_from_variables() {
    let mut p = ConstrainedProgram::new();
    let mut cs = ConstraintSystem::new();
    bind(&mut p, ARR, ConstrainedValue::Mutable(Box::new(ints(&[1, 2, 3]))));
    bind(&mut p, I, ConstrainedValue::Integer(1));
    bind(&mut p, X, ints(&[8, 9]));
    let stmts = vec![
        Statement::Assign(Assignee::Array(ARR, RangeOrExpression::Range(Some(Box::new(ident(I))), None)), ident(X), sp()),
        let_(false, C1, Expression::Slice(Box::new(ident(ARR)), Some(Box::new(ident(I))), None)),
    ];
    run(&mut p, &mut cs, &stmts).unwrap();
    assert!(values_equal(&lookup(&p, ARR), &ConstrainedValue::Mutable(Box::new(ints(&[1, 8, 9])))));
    assert!(values_equal(&lookup(&p, C1), &ints(&[8, 9])));
}

#[test]
fn exactly_one_leaf_indicator_is_live() {
    for (c1, c2, live_leaf) in [(true, true, 0usize), (true, false, 0), (false, true, 1), (false, false, 2)] {
        let mut p = ConstrainedProgram::new();
        let mut cs = ConstraintSystem::new();
        bind(&mut p, C1, ConstrainedValue::Boolean(c1));
        bind(&mut p, C2, ConstrainedValue::Boolean(c2));
        let results = p.enforce_statement(&mut cs, &scope(), None, &chain()).unwrap();
        assert_eq!(results.len(), 3);
        let live: Vec<usize> =
            results.iter().enumerate().filter(|(_, r)| r.0 == Some(true)).map(|(i, _)| i).collect();
        assert_eq!(live, vec![live_leaf]);
        match &results[live_leaf].1 {
            ConstrainedValue::Return(vs) => assert_eq!(as_int(&vs[0]), live_leaf as u32 + 1),
            other => panic!("unexpected {:?}", other),
        }
    }
}

#[test]
fn dead_outer_indicator_kills_every_leaf() {
    let mut p = ConstrainedProgram::new();
    let mut cs = ConstraintSystem::new();
    bind(&mut p, C1, ConstrainedValue::Boolean(true));
    bind(&mut p, C2, ConstrainedValue::Boolean(false));
    let results = p.enforce_statement(&mut cs, &scope(), Some(false), &chain()).unwrap();
    assert_eq!(results.len(), 3);
    assert!(results.iter().all(|r| r.0 == Some(false)));
}

#[test]
fn conditional_emits_every_branch_whatever_the_condition() {
    let mut counts = vec![];
    for c in [true, false] {
        let mut p = ConstrainedProgram::new();
        let mut cs = ConstraintSystem::new();
        bind(&mut p, C1, ConstrainedValue::Boolean(c));
        let stmts = vec![
            let_(true, X, lit(0)),
            Statement::Conditional(
                ConditionalStatement {
                    condition: ident(C1),
                    statements: vec![set(X, lit(1)), set(X, lit(2))],
                    next: Some(ConditionalNestedOrEndStatement::End(vec![set(X, lit(3))])),
                },
                sp(),
            ),
        ];
        run(&mut p, &mut cs, &stmts).unwrap();
        assert_eq!(as_int(&lookup(&p, X)), if c { 2 } else { 3 });
        assert_eq!(cs.constraints[0], Constraint::Conjunction);
        counts.push(cs.num_constraints());
    }
    // Two conjunctions, two selections in the first branch, one in the else.
    assert_eq!(counts, vec![5, 5]);
}

#[test]
fn condition_must_be_boolean() {
    let mut p = ConstrainedProgram::new();
    let mut cs = ConstraintSystem::new();
    let stmts = vec![Statement::Conditional(
        ConditionalStatement { condition: lit(1), statements: vec![], next: None },
        sp(),
    )];
    assert_eq!(run(&mut p, &mut cs, &stmts).unwrap_err(), StatementError::ConditionalBoolean(sp()));
}

#[test]
fn function_returning_scalar_for_pair_fails_arity() {
    let mut p = ConstrainedProgram::new();
    let mut cs = ConstraintSystem::new();
    let f = Function {
        name: FUNC,
        input: vec![],
        statements: vec![ret(vec![lit(1)])],
        output: Some(Type::Tuple(vec![Type::Integer, Type::Integer])),
        span: Span { line: 9, start: 1 },
    };
    let r = p.enforce_function(&mut cs, &vec![1], &vec![1], &f, &vec![]);
    assert_eq!(r.unwrap_err(), FunctionError::ReturnArgumentsLength(2, 1, Span { line: 9, start: 1 }));
}

#[test]
fn function_without_output_or_return_gives_empty_tuple() {
    let mut p = ConstrainedProgram::new();
    let mut cs = ConstraintSystem::new();
    let f = Function { name: FUNC, input: vec![], statements: vec![], output: None, span: sp() };
    let r = p.enforce_function(&mut cs, &vec![1], &vec![1], &f, &vec![]).unwrap();
    match r {
        ConstrainedValue::Tuple(vs) => assert!(vs.is_empty()),
        other => panic!("unexpected {:?}", other),
    }
    assert_eq!(cs.num_constraints(), 0);
}

#[test]
fn function_selects_the_live_return() {
    let mut p = ConstrainedProgram::new();
    let mut cs = ConstraintSystem::new();
    let caller = vec![1];
    p.store.store(new_scope(&caller, C1), ConstrainedValue::Boolean(false));
    let f = Function {
        name: FUNC,
        input: vec![FunctionInput::Variable(false, C1, Type::Boolean), FunctionInput::Variable(true, X, Type::Integer)],
        statements: vec![
            set(X, add(ident(X), lit(1))),
            Statement::Conditional(
                ConditionalStatement {
                    condition: ident(C1),
                    statements: vec![ret(vec![lit(10)])],
                    next: Some(ConditionalNestedOrEndStatement::End(vec![ret(vec![ident(X)])])),
                },
                sp(),
            ),
        ],
        output: Some(Type::Integer),
        span: sp(),
    };
    let r = p.enforce_function(&mut cs, &vec![1], &caller, &f, &vec![ident(C1), lit(41)]).unwrap();
    match r {
        ConstrainedValue::Return(vs) => assert_eq!(as_int(&vs[0]), 42),
        other => panic!("unexpected {:?}", other),
    }
    // The mutable parameter is stored as Mutable under the function's scope.
    let bound = p.store.get(&new_scope(&new_scope(&vec![1], FUNC), X)).unwrap();
    assert!(matches!(bound, ConstrainedValue::Mutable(_)));
    // One assignment, two conjunctions, two result selections.
    assert_eq!(cs.num_constraints(), 5);
}

#[test]
fn function_binds_keyword_inputs() {
    let mut p = ConstrainedProgram::new();
    let mut cs = ConstraintSystem::new();
    let f = Function {
        name: FUNC,
        input: vec![FunctionInput::MutSelfKeyword],
        statements: vec![
            Statement::Assign(Assignee::Identifier(leo_compiler::ast::SYM_SELF), lit(8), sp()),
            ret(vec![ident(leo_compiler::ast::SYM_SELF)]),
        ],
        output: Some(Type::Integer),
        span: sp(),
    };
    let r = p.enforce_function(&mut cs, &vec![1], &vec![1], &f, &vec![lit(4)]).unwrap();
    match r {
        ConstrainedValue::Return(vs) => assert_eq!(as_int(&vs[0]), 8),
        other => panic!("unexpected {:?}", other),
    }
}

#[test]
fn range_assign_to_itself_leaves_array_unchanged() {
    let mut p = ConstrainedProgram::new();
    let mut cs = ConstraintSystem::new();
    bind(&mut p, ARR, ConstrainedValue::Mutable(Box::new(ints(&[4, 5, 6]))));
    let range = || RangeOrExpression::Range(Some(Box::new(lit(0))), Some(Box::new(lit(3))));
    let slice = Expression::Slice(Box::new(ident(ARR)), Some(Box::new(lit(0))), Some(Box::new(lit(3))));
    let stmts = vec![Statement::Assign(Assignee::Array(ARR, range()), slice, sp())];
    run(&mut p, &mut cs, &stmts).unwrap();
    assert!(values_equal(&lookup(&p, ARR), &ConstrainedValue::Mutable(Box::new(ints(&[4, 5, 6])))));
    assert_eq!(cs.num_constraints(), 1);
}

#[test]
fn range_assign_splices_new_elements() {
    let mut p = ConstrainedProgram::new();
    let mut cs = ConstraintSystem::new();
    bind(&mut p, ARR, ConstrainedValue::Mutable(Box::new(ints(&[1, 2, 3, 4]))));
    bind(&mut p, X, ints(&[8, 9]));
    let stmts = vec![Statement::Assign(
        Assignee::Array(ARR, RangeOrExpression::Range(Some(Box::new(lit(1))), Some(Box::new(lit(3))))),
        ident(X),
        sp(),
    )];
    run(&mut p, &mut cs, &stmts).unwrap();
    assert!(values_equal(&lookup(&p, ARR), &ConstrainedValue::Mutable(Box::new(ints(&[1, 8, 9, 4])))));
}

#[test]
fn range_assign_with_open_end_changing_length_fails_selection() {
    let mut p = ConstrainedProgram::new();
    let mut cs = ConstraintSystem::new();
    bind(&mut p, ARR, ConstrainedValue::Mutable(Box::new(ints(&[1, 2, 3]))));
    bind(&mut p, X, ints(&[7]));
    let stmts = vec![Statement::Assign(
        Assignee::Array(ARR, RangeOrExpression::Range(Some(Box::new(lit(1))), None)),
        ident(X),
        sp(),
    )];
    assert_eq!(run(&mut p, &mut cs, &stmts).unwrap_err(), StatementError::SelectFail(sp()));
}

#[test]
fn range_assign_of_non_array_fails() {
    let mut p = ConstrainedProgram::new();
    let mut cs = ConstraintSystem::new();
    bind(&mut p, ARR, ConstrainedValue::Mutable(Box::new(ints(&[1, 2]))));
    let stmts = vec![Statement::Assign(Assignee::Array(ARR, RangeOrExpression::Range(None, None)), lit(1), sp())];
    assert_eq!(run(&mut p, &mut cs, &stmts).unwrap_err(), StatementError::ArrayAssignRange(sp()));
}

#[test]
fn element_assign_under_indicator() {
    for (c, expected) in [(true, 9u32), (false, 2u32)] {
        let mut p = ConstrainedProgram::new();
        let mut cs = ConstraintSystem::new();
        bind(&mut p, ARR, ConstrainedValue::Mutable(Box::new(ints(&[1, 2, 3]))));
        let stmt =
            Statement::Assign(Assignee::Array(ARR, RangeOrExpression::Expression(add(lit(0), lit(1)))), lit(9), sp());
        p.enforce_statement(&mut cs, &scope(), Some(c), &stmt).unwrap();
        assert!(values_equal(&lookup(&p, ARR), &ConstrainedValue::Mutable(Box::new(ints(&[1, expected, 3])))));
    }
}

#[test]
fn element_assign_out_of_range_fails() {
    let mut p = ConstrainedProgram::new();
    let mut cs = ConstraintSystem::new();
    bind(&mut p, ARR, ConstrainedValue::Mutable(Box::new(ints(&[1]))));
    let stmts = vec![Statement::Assign(Assignee::Array(ARR, RangeOrExpression::Expression(lit(1))), lit(9), sp())];
    assert_eq!(run(&mut p, &mut cs, &stmts).unwrap_err(), StatementError::IndexOutOfRange(sp()));
}

#[test]
fn element_assign_into_non_array_fails() {
    let mut p = ConstrainedProgram::new();
    let mut cs = ConstraintSystem::new();
    let stmts = vec![
        let_(true, X, lit(1)),
        Statement::Assign(Assignee::Array(X, RangeOrExpression::Expression(lit(0))), lit(9), sp()),
    ];
    assert_eq!(run(&mut p, &mut cs, &stmts).unwrap_err(), StatementError::ArrayAssignIndex(sp()));
}

#[test]
fn element_index_must_be_an_integer() {
    let mut p = ConstrainedProgram::new();
    let mut cs = ConstraintSystem::new();
    bind(&mut p, ARR, ConstrainedValue::Mutable(Box::new(ints(&[1]))));
    let stmts = vec![let_(false, I, Expression::Boolean(false)), Statement::Assign(Assignee::Array(ARR, RangeOrExpression::Expression(ident(I))), lit(9), sp())];
    assert_eq!(run(&mut p, &mut cs, &stmts).unwrap_err(), StatementError::NonConcreteIndex(sp()));
}

#[test]
fn assignment_to_immutable_variable_fails() {
    let mut p = ConstrainedProgram::new();
    let mut cs = ConstraintSystem::new();
    let stmts = vec![let_(false, X, lit(1)), set(X, lit(2))];
    assert_eq!(run(&mut p, &mut cs, &stmts).unwrap_err(), StatementError::ImmutableAssign(sp()));
    assert_eq!(as_int(&lookup(&p, X)), 1);
}

#[test]
fn assignment_to_undefined_variable_fails() {
    let mut p = ConstrainedProgram::new();
    let mut cs = ConstraintSystem::new();
    assert_eq!(run(&mut p, &mut cs, &vec![set(X, lit(2))]).unwrap_err(), StatementError::UndefinedVariable(sp()));
}

#[test]
fn reading_undefined_variable_fails() {
    let mut p = ConstrainedProgram::new();
    let mut cs = ConstraintSystem::new();
    assert_eq!(run(&mut p, &mut cs, &vec![let_(false, X, ident(I))]).unwrap_err(), StatementError::UndefinedVariable(sp()));
}

#[test]
fn assignment_of_other_type_fails() {
    let mut p = ConstrainedProgram::new();
    let mut cs = ConstraintSystem::new();
    let stmts = vec![let_(true, X, lit(1)), set(X, Expression::Boolean(true))];
    assert_eq!(run(&mut p, &mut cs, &stmts).unwrap_err(), StatementError::TypeMismatch(sp()));
}

#[test]
fn assignment_under_dead_indicator_keeps_old_value() {
    let mut p = ConstrainedProgram::new();
    let mut cs = ConstraintSystem::new();
    run(&mut p, &mut cs, &vec![let_(true, X, lit(1))]).unwrap();
    p.enforce_statement(&mut cs, &scope(), Some(false), &set(X, lit(2))).unwrap();
    assert_eq!(as_int(&lookup(&p, X)), 1);
    p.enforce_statement(&mut cs, &scope(), Some(true), &set(X, lit(3))).unwrap();
    assert_eq!(as_int(&lookup(&p, X)), 3);
    assert_eq!(cs.constraints, vec![Constraint::Selection, Constraint::Selection]);
}

#[test]
fn addition_overflow_fails() {
    let mut p = ConstrainedProgram::new();
    let mut cs = ConstraintSystem::new();
    let stmts = vec![let_(false, X, add(lit(u32::MAX), lit(1)))];
    assert_eq!(run(&mut p, &mut cs, &stmts).unwrap_err(), StatementError::Overflow(sp()));
}

fn circuit() -> ConstrainedValue {
    ConstrainedValue::CircuitExpression(
        POINT,
        vec![
            (FIELD, ConstrainedValue::Integer(1)),
            (METHOD, ConstrainedValue::Function(POINT, METHOD)),
            (CONSTANT, ConstrainedValue::Static(Box::new(ConstrainedValue::Integer(0)))),
        ],
    )
}

#[test]
fn circuit_member_assignment() {
    let mut p = ConstrainedProgram::new();
    let mut cs = ConstraintSystem::new();
    bind(&mut p, OBJ, ConstrainedValue::Mutable(Box::new(circuit())));
    run(&mut p, &mut cs, &vec![Statement::Assign(Assignee::CircuitField(OBJ, FIELD), lit(5), sp())]).unwrap();
    match lookup(&p, OBJ) {
        ConstrainedValue::Mutable(b) => match *b {
            ConstrainedValue::CircuitExpression(c, ms) => {
                assert_eq!(c, POINT);
                assert_eq!(ms[0].0, FIELD);
                assert_eq!(as_int(&ms[0].1), 5);
                assert_eq!(ms.len(), 3);
            },
            other => panic!("unexpected {:?}", other),
        },
        other => panic!("unexpected {:?}", other),
    }
}

#[test]
fn circuit_method_and_constant_are_immutable() {
    for member in [METHOD, CONSTANT] {
        let mut p = ConstrainedProgram::new();
        let mut cs = ConstraintSystem::new();
        bind(&mut p, OBJ, ConstrainedValue::Mutable(Box::new(circuit())));
        let stmts = vec![Statement::Assign(Assignee::CircuitField(OBJ, member), lit(5), sp())];
        assert_eq!(run(&mut p, &mut cs, &stmts).unwrap_err(), StatementError::ImmutableCircuitMember(sp()));
    }
}

#[test]
fn circuit_missing_member_and_non_circuit_fail() {
    let mut p = ConstrainedProgram::new();
    let mut cs = ConstraintSystem::new();
    bind(&mut p, OBJ, ConstrainedValue::Mutable(Box::new(circuit())));
    bind(&mut p, X, ConstrainedValue::Mutable(Box::new(ConstrainedValue::Integer(0))));
    let missing = vec![Statement::Assign(Assignee::CircuitField(OBJ, X), lit(5), sp())];
    assert_eq!(run(&mut p, &mut cs, &missing).unwrap_err(), StatementError::UndefinedCircuitMember(sp()));
    let not_circuit = vec![Statement::Assign(Assignee::CircuitField(X, FIELD), lit(5), sp())];
    assert_eq!(run(&mut p, &mut cs, &not_circuit).unwrap_err(), StatementError::UndefinedCircuit(sp()));
}

#[test]
fn assert_eq_fails_only_when_live() {
    let mut p = ConstrainedProgram::new();
    let mut cs = ConstraintSystem::new();
    let stmt = Statement::AssertEq(lit(1), lit(2), sp());
    assert_eq!(p.enforce_statement(&mut cs, &scope(), None, &stmt).unwrap_err(), StatementError::AssertionFailed(sp()));
    assert!(p.enforce_statement(&mut cs, &scope(), Some(false), &stmt).unwrap().is_empty());
    let same = Statement::AssertEq(add(lit(1), lit(1)), lit(2), sp());
    assert!(p.enforce_statement(&mut cs, &scope(), None, &same).unwrap().is_empty());
    assert_eq!(cs.constraints, vec![Constraint::Equality, Constraint::Equality]);
}

#[test]
fn expression_statement_must_return_nothing() {
    let mut p = ConstrainedProgram::new();
    let mut cs = ConstraintSystem::new();
    let stmts = vec![Statement::Expression(lit(1), sp())];
    assert_eq!(run(&mut p, &mut cs, &stmts).unwrap_err(), StatementError::Unassigned(sp()));
    bind(&mut p, X, ConstrainedValue::Return(vec![]));
    let ok = vec![Statement::Expression(ident(X), sp())];
    let rs = run(&mut p, &mut cs, &ok).unwrap();
    assert_eq!(rs.len(), 1);
    assert_eq!(rs[0].0, None);
}

#[test]
fn slice_reads_a_sub_array() {
    let mut p = ConstrainedProgram::new();
    let mut cs = ConstraintSystem::new();
    bind(&mut p, ARR, ints(&[1, 2, 3, 4]));
    let stmts = vec![let_(false, X, Expression::Slice(Box::new(ident(ARR)), Some(Box::new(lit(1))), None))];
    run(&mut p, &mut cs, &stmts).unwrap();
    assert!(values_equal(&lookup(&p, X), &ints(&[2, 3, 4])));
    let bad = vec![let_(false, X, Expression::Slice(Box::new(ident(ARR)), Some(Box::new(lit(3))), Some(Box::new(lit(2)))))];
    assert_eq!(run(&mut p, &mut cs, &bad).unwrap_err(), StatementError::IndexOutOfRange(sp()));
}

#[test]
fn scope_names_and_shadowing() {
    let a = new_scope(&vec![1, 2], 3);
    assert_eq!(a, vec![1, 2, 3]);
    let mut p = ConstrainedProgram::new();
    p.store.store(a.clone(), ConstrainedValue::Integer(1));
    p.store.store(a.clone(), ConstrainedValue::Integer(2));
    assert_eq!(as_int(&p.store.get(&a).unwrap()), 2);
    assert!(p.store.get(&vec![1, 2]).is_none());
}

#[test]
fn value_copy_and_equality() {
    let v = ConstrainedValue::Tuple(vec![circuit(), ints(&[1, 2])]);
    let w = v.duplicate();
    assert!(values_equal(&v, &w));
    assert!(!values_equal(&ints(&[1, 2]), &ints(&[1, 3])));
    assert!(!values_equal(&ints(&[1, 2]), &ints(&[1])));
}

#[test]
fn multiple_assignment_binds_each_element() {
    let mut p = ConstrainedProgram::new();
    let mut cs = ConstraintSystem::new();
    bind(&mut p, ARR, ConstrainedValue::Tuple(vec![ConstrainedValue::Integer(4), ConstrainedValue::Boolean(true)]));
    let stmts = vec![
        Statement::MultipleAssign(vec![(true, X), (false, C1)], ident(ARR), sp()),
        set(X, add(ident(X), lit(1))),
    ];
    run(&mut p, &mut cs, &stmts).unwrap();
    assert_eq!(as_int(&lookup(&p, X)), 5);
    assert!(matches!(lookup(&p, C1), ConstrainedValue::Boolean(true)));
}

#[test]
fn multiple_assignment_with_wrong_count_fails() {
    let mut p = ConstrainedProgram::new();
    let mut cs = ConstraintSystem::new();
    bind(&mut p, ARR, ConstrainedValue::Tuple(vec![ConstrainedValue::Integer(4)]));
    let stmts = vec![Statement::MultipleAssign(vec![(true, X), (false, C1)], ident(ARR), sp())];
    assert_eq!(run(&mut p, &mut cs, &stmts).unwrap_err(), StatementError::TypeMismatch(sp()));
    let not_tuple = vec![Statement::MultipleAssign(vec![(true, X)], lit(1), sp())];
    assert_eq!(run(&mut p, &mut cs, &not_tuple).unwrap_err(), StatementError::TypeMismatch(sp()));
}

#[test]
fn assignment_with_other_element_type_fails() {
    let mut p = ConstrainedProgram::new();
    let mut cs = ConstraintSystem::new();
    bind(&mut p, ARR, ConstrainedValue::Mutable(Box::new(ints(&[1]))));
    bind(&mut p, X, ConstrainedValue::Array(vec![ConstrainedValue::Boolean(true)]));
    let stmts = vec![Statement::Assign(Assignee::Identifier(ARR), ident(X), sp())];
    assert_eq!(run(&mut p, &mut cs, &stmts).unwrap_err(), StatementError::TypeMismatch(sp()));
    assert!(values_equal(&lookup(&p, ARR), &ConstrainedValue::Mutable(Box::new(ints(&[1])))));
    assert_eq!(cs.num_constraints(), 0);
}

#[test]
fn range_assign_with_other_element_type_fails() {
    let mut p = ConstrainedProgram::new();
    let mut cs = ConstraintSystem::new();
    bind(&mut p, ARR, ConstrainedValue::Mutable(Box::new(ints(&[1, 2]))));
    bind(&mut p, X, ConstrainedValue::Array(vec![ConstrainedValue::Boolean(true)]));
    let stmts = vec![Statement::Assign(
        Assignee::Array(ARR, RangeOrExpression::Range(Some(Box::new(lit(0))), Some(Box::new(lit(1))))),
        ident(X),
        sp(),
    )];
    assert_eq!(run(&mut p, &mut cs, &stmts).unwrap_err(), StatementError::SelectFail(sp()));
    assert!(values_equal(&lookup(&p, ARR), &ConstrainedValue::Mutable(Box::new(ints(&[1, 2])))));
}

#[test]
fn failed_member_assignment_keeps_state() {
    let mut p = ConstrainedProgram::new();
    let mut cs = ConstraintSystem::new();
    bind(&mut p, OBJ, ConstrainedValue::Mutable(Box::new(circuit())));
    let stmts = vec![Statement::Assign(Assignee::CircuitField(OBJ, METHOD), lit(5), sp())];
    assert!(run(&mut p, &mut cs, &stmts).is_err());
    assert!(values_equal(&lookup(&p, OBJ), &ConstrainedValue::Mutable(Box::new(circuit()))));
    assert_eq!(cs.num_constraints(), 0);
}

#[test]
fn statements_after_a_failure_are_not_enforced() {
    let mut p = ConstrainedProgram::new();
    let mut cs = ConstraintSystem::new();
    let stmts = vec![let_(true, X, lit(1)), set(X, lit(2)), set(I, lit(0)), set(X, lit(3))];
    assert_eq!(run(&mut p, &mut cs, &stmts).unwrap_err(), StatementError::UndefinedVariable(sp()));
    assert_eq!(as_int(&lookup(&p, X)), 2);
    assert_eq!(cs.num_constraints(), 1);
}

#[test]
fn assert_eq_of_other_types_fails_even_when_dead() {
    let mut p = ConstrainedProgram::new();
    let mut cs = ConstraintSystem::new();
    let stmt = Statement::AssertEq(lit(1), Expression::Boolean(true), sp());
    assert_eq!(p.enforce_statement(&mut cs, &scope(), Some(false), &stmt).unwrap_err(), StatementError::AssertionFailed(sp()));
    assert_eq!(cs.num_constraints(), 0);
}

#[test]
fn function_returning_wrong_type_fails() {
    let mut p = ConstrainedProgram::new();
    let mut cs = ConstraintSystem::new();
    let f = Function {
        name: FUNC,
        input: vec![],
        statements: vec![ret(vec![lit(1), lit(2)])],
        output: Some(Type::Tuple(vec![Type::Integer, Type::Boolean])),
        span: Span { line: 9, start: 1 },
    };
    let r = p.enforce_function(&mut cs, &vec![1], &vec![1], &f, &vec![]);
    assert_eq!(r.unwrap_err(), FunctionError::ReturnTypeMismatch(Span { line: 9, start: 1 }));
}

#[test]
fn function_returning_declared_pair_succeeds() {
    let mut p = ConstrainedProgram::new();
    let mut cs = ConstraintSystem::new();
    let f = Function {
        name: FUNC,
        input: vec![],
        statements: vec![ret(vec![lit(1), Expression::Boolean(true)])],
        output: Some(Type::Tuple(vec![Type::Integer, Type::Boolean])),
        span: sp(),
    };
    match p.enforce_function(&mut cs, &vec![1], &vec![1], &f, &vec![]).unwrap() {
        ConstrainedValue::Return(vs) => assert_eq!(vs.len(), 2),
        other => panic!("unexpected {:?}", other),
    }
}

#[test]
fn argument_of_other_type_than_declared_fails() {
    let mut p = ConstrainedProgram::new();
    let mut cs = ConstraintSystem::new();
    let f = Function {
        name: FUNC,
        input: vec![FunctionInput::Variable(false, X, Type::Boolean)],
        statements: vec![],
        output: None,
        span: sp(),
    };
    let r = p.enforce_function(&mut cs, &vec![1], &vec![1], &f, &vec![lit(3)]);
    assert_eq!(r.unwrap_err(), FunctionError::Statement(StatementError::TypeMismatch(sp())));
}

#[test]
fn conditional_yields_every_branch_result() {
    for c in [true, false] {
        let mut p = ConstrainedProgram::new();
        let mut cs = ConstraintSystem::new();
        bind(&mut p, C1, ConstrainedValue::Boolean(c));
        let stmt = Statement::Conditional(
            ConditionalStatement {
                condition: ident(C1),
                statements: vec![ret(vec![lit(1)]), ret(vec![lit(2)])],
                next: Some(ConditionalNestedOrEndStatement::End(vec![ret(vec![lit(3)])])),
            },
            sp(),
        );
        let rs = p.enforce_statement(&mut cs, &scope(), None, &stmt).unwrap();
        assert_eq!(rs.len(), 3);
        assert_eq!(rs[0].0, Some(c));
        assert_eq!(rs[2].0, Some(!c));
    }
}
