//! End-to-end scenarios: queries over small knowledge bases.

use polar_core::kb::{GenericRule, KnowledgeBase, Parameter, Rule};
use polar_core::query::{EvalError, Query};
use polar_core::terms::{Call, Operation, Operator, Symbol, Term, Value, Variable};

fn var(name: &str) -> Term {
    Term::new(Value::Variable(Variable::new(name.to_string())))
}

fn num(n: i64) -> Term {
    Term::new(Value::Number(n))
}

fn boolean(b: bool) -> Term {
    Term::new(Value::Boolean(b))
}

fn call(name: &str, args: Vec<Term>) -> Term {
    Term::new(Value::Call(Call { name: Symbol(name.to_string()), args }))
}

fn op(operator: Operator, args: Vec<Term>) -> Term {
    Term::new(Value::Expression(Operation { operator, args }))
}

fn plain_rule(params: Vec<Term>, body: Term) -> Rule {
    Rule {
        params: params
            .into_iter()
            .map(|parameter| Parameter { parameter, specializer: None })
            .collect(),
        body,
    }
}

fn kb_with(groups: Vec<(&str, Vec<Rule>)>) -> KnowledgeBase {
    KnowledgeBase {
        rules: groups
            .into_iter()
            .map(|(name, rules)| GenericRule { name: Symbol(name.to_string()), rules })
            .collect(),
    }
}

fn query<'a>(vars: Vec<&str>, term: Term, kb: &'a KnowledgeBase) -> Query<'a> {
    Query::new(vars.into_iter().map(|v| v.to_string()).collect(), term, kb)
}

#[test]
fn allow_rule_true_body_same_param_name_hits_export_invariant() {
    // allow(x) := true, queried as allow(x): the argument and the pattern
    // are the same unbound variable, so unification succeeds without
    // recording a binding, and the export step finds the recorded variable
    // unbound in the inner frame.
    let kb = kb_with(vec![("allow", vec![plain_rule(vec![var("x")], boolean(true))])]);
    let q = query(vec!["x"], call("allow", vec![var("x")]), &kb);
    let r = q.run();
    assert!(matches!(r, Err(EvalError::InternalInvariantViolation)));
}

#[test]
fn allow_rule_true_body_yields_one_record_with_unbound_value() {
    // allow(p) := true: exactly one record; x resolves to the still-unbound
    // rule parameter variable passed through the export step.
    let kb = kb_with(vec![("allow", vec![plain_rule(vec![var("p")], boolean(true))])]);
    let q = query(vec!["x"], call("allow", vec![var("x")]), &kb);
    let r = q.run().unwrap();
    assert_eq!(r.len(), 1);
    assert_eq!(r[0].variables.len(), 1);
    assert_eq!(r[0].variables[0].0 .0, "x");
    match &r[0].variables[0].1 {
        Value::Variable(v) => {
            assert_eq!(v.name.0, "p");
            assert!(v.type_info.is_none());
        },
        _ => panic!("expected an unbound variable value"),
    }
}

#[test]
fn allow_rule_unify_body_binds_queried_variable() {
    // allow(x) := Unify(x, 1): exactly one record with x bound to 1.
    let kb = kb_with(
        vec![
            (
                "allow",
                vec![
                    plain_rule(
                        vec![var("x")],
                        op(Operator::Unify, vec![var("x"), num(1)]),
                    ),
                ],
            ),
        ],
    );
    let q = query(vec!["x"], call("allow", vec![var("x")]), &kb);
    let r = q.run().unwrap();
    assert_eq!(r.len(), 1);
    assert_eq!(r[0].variables[0].0 .0, "x");
    assert!(matches!(r[0].variables[0].1, Value::Number(1)));
}

#[test]
fn two_candidate_rules_yield_two_empty_records() {
    // f(1) := true and f(2) := true, queried with no requested variables:
    // exactly two records, one per matching candidate, each empty.
    let kb = kb_with(
        vec![
            (
                "f",
                vec![
                    plain_rule(vec![num(1)], boolean(true)),
                    plain_rule(vec![num(2)], boolean(true)),
                ],
            ),
        ],
    );
    let q = query(vec![], call("f", vec![var("y")]), &kb);
    let r = q.run().unwrap();
    assert_eq!(r.len(), 2);
    assert!(r[0].variables.is_empty());
    assert!(r[1].variables.is_empty());
}

#[test]
fn conflicting_conjunction_yields_zero_records() {
    // And(Unify(x, 1), Unify(x, 2)): after binding x to 1 the second unify
    // fails, so there are no results at all.
    let kb = kb_with(vec![]);
    let goal = op(
        Operator::And,
        vec![
            op(Operator::Unify, vec![var("x"), num(1)]),
            op(Operator::Unify, vec![var("x"), num(2)]),
        ],
    );
    let q = query(vec!["x"], goal, &kb);
    let r = q.run().unwrap();
    assert_eq!(r.len(), 0);
}

#[test]
fn conjunction_backtracks_over_call_solutions() {
    // d(1) := true, d(2) := true; And(d(x), Unify(x, 2)) keeps exactly the
    // candidate whose exported binding survives the second conjunct.
    let kb = kb_with(
        vec![
            (
                "d",
                vec![
                    plain_rule(vec![num(1)], boolean(true)),
                    plain_rule(vec![num(2)], boolean(true)),
                ],
            ),
        ],
    );
    let goal = op(
        Operator::And,
        vec![
            call("d", vec![var("x")]),
            op(Operator::Unify, vec![var("x"), num(2)]),
        ],
    );
    let q = query(vec!["x"], goal, &kb);
    let r = q.run().unwrap();
    assert_eq!(r.len(), 1);
    assert!(matches!(r[0].variables[0].1, Value::Number(2)));
}

#[test]
fn call_solutions_come_in_candidate_order() {
    let kb = kb_with(
        vec![
            (
                "d",
                vec![
                    plain_rule(vec![num(1)], boolean(true)),
                    plain_rule(vec![num(2)], boolean(true)),
                ],
            ),
        ],
    );
    let q = query(vec!["x"], call("d", vec![var("x")]), &kb);
    let r = q.run().unwrap();
    assert_eq!(r.len(), 2);
    assert!(matches!(r[0].variables[0].1, Value::Number(1)));
    assert!(matches!(r[1].variables[0].1, Value::Number(2)));
}

#[test]
fn first_parameter_failure_short_circuits_candidate() {
    // h(1, 2) := true cannot match h(3, y); h(3, 9) := true can. The
    // rejected candidate contributes nothing and leaves no binding for y.
    let kb = kb_with(
        vec![
            (
                "h",
                vec![
                    plain_rule(vec![num(1), num(2)], boolean(true)),
                    plain_rule(vec![num(3), num(9)], boolean(true)),
                ],
            ),
        ],
    );
    let q = query(vec!["y"], call("h", vec![num(3), var("y")]), &kb);
    let r = q.run().unwrap();
    assert_eq!(r.len(), 1);
    assert!(matches!(r[0].variables[0].1, Value::Number(9)));
}

#[test]
fn failed_specializer_contributes_zero_results_for_candidate() {
    // g(p: Foo{}) := true rejects the argument 1 at the isa check; the
    // unconstrained candidate g(q) := true still matches.
    let lit = Term::new(Value::InstanceLiteral(polar_core::terms::InstanceLiteral {
        tag: Symbol("Foo".to_string()),
        fields: vec![],
    }));
    let specialized = Rule {
        params: vec![Parameter { parameter: var("p"), specializer: Some(lit) }],
        body: boolean(true),
    };
    let kb = kb_with(
        vec![("g", vec![specialized, plain_rule(vec![var("q")], boolean(true))])],
    );
    let q = query(vec![], call("g", vec![num(1)]), &kb);
    let r = q.run().unwrap();
    assert_eq!(r.len(), 1);
}

#[test]
fn true_literal_yields_one_record_false_yields_none() {
    let kb = kb_with(vec![]);
    let r = query(vec![], boolean(true), &kb).run().unwrap();
    assert_eq!(r.len(), 1);
    assert!(r[0].variables.is_empty());
    let r = query(vec![], boolean(false), &kb).run().unwrap();
    assert_eq!(r.len(), 0);
}

#[test]
fn projection_substitutes_placeholder_for_never_bound_variable() {
    let kb = kb_with(vec![]);
    let r = query(vec!["q"], boolean(true), &kb).run().unwrap();
    assert_eq!(r.len(), 1);
    match &r[0].variables[0].1 {
        Value::Variable(v) => {
            assert_eq!(v.name.0, "q");
            assert!(v.type_info.is_none());
        },
        _ => panic!("expected a placeholder variable"),
    }
}

#[test]
fn eq_operator_is_synonym_for_unify() {
    let kb = kb_with(vec![]);
    let q = query(vec!["x"], op(Operator::Eq, vec![var("x"), num(7)]), &kb);
    let r = q.run().unwrap();
    assert_eq!(r.len(), 1);
    assert!(matches!(r[0].variables[0].1, Value::Number(7)));
}

#[test]
fn unsupported_value_kind_aborts_with_unsupported_goal() {
    let kb = kb_with(vec![]);
    let r = query(vec![], num(1), &kb).run();
    assert!(matches!(r, Err(EvalError::UnsupportedGoal)));
}

#[test]
fn reserved_operator_aborts_with_unsupported_goal() {
    let kb = kb_with(vec![]);
    let r = query(vec![], op(Operator::Or, vec![boolean(true)]), &kb).run();
    assert!(matches!(r, Err(EvalError::UnsupportedGoal)));
}

#[test]
fn malformed_unify_arity_aborts_with_unsupported_goal() {
    let kb = kb_with(vec![]);
    let r = query(vec![], op(Operator::Unify, vec![num(1)]), &kb).run();
    assert!(matches!(r, Err(EvalError::UnsupportedGoal)));
}

#[test]
fn unknown_rule_name_aborts_the_query() {
    let kb = kb_with(vec![("f", vec![plain_rule(vec![num(1)], boolean(true))])]);
    let r = query(vec![], call("g", vec![num(1)]), &kb).run();
    assert!(matches!(r, Err(EvalError::UnknownRuleName)));
}

#[test]
fn unbounded_recursion_exhausts_the_depth_budget() {
    // loop(x) := loop(x): no evaluation depth suffices.
    let kb = kb_with(
        vec![("loop", vec![plain_rule(vec![var("x")], call("loop", vec![var("x")]))])],
    );
    let q = query(vec![], call("loop", vec![num(1)]), &kb);
    let r = q.run_with_fuel(50);
    assert!(matches!(r, Err(EvalError::RecursionLimit)));
}

#[test]
fn error_in_later_candidate_aborts_whole_call() {
    // The first candidate succeeds but the second one's body is an
    // unsupported kind: the call aborts rather than yielding partial
    // results.
    let kb = kb_with(
        vec![
            (
                "f",
                vec![
                    plain_rule(vec![var("p")], boolean(true)),
                    plain_rule(vec![var("p")], num(5)),
                ],
            ),
        ],
    );
    let r = query(vec![], call("f", vec![num(3)]), &kb).run();
    assert!(matches!(r, Err(EvalError::UnsupportedGoal)));
}

#[test]
fn extra_call_arguments_beyond_params_are_ignored() {
    // Arguments are zipped with parameters in declared order; a surplus
    // argument constrains nothing.
    let kb = kb_with(vec![("f", vec![plain_rule(vec![num(1)], boolean(true))])]);
    let r = query(vec![], call("f", vec![num(1), num(9)]), &kb).run().unwrap();
    assert_eq!(r.len(), 1);
}

#[test]
fn satisfied_specializer_tags_the_exported_variable() {
    // g(p: Foo{}) := true called with an unbound variable: the argument
    // unifies with the pattern and the isa check optimistically tags the
    // walked parameter variable; the tag survives export and projection.
    let lit = Term::new(Value::InstanceLiteral(polar_core::terms::InstanceLiteral {
        tag: Symbol("Foo".to_string()),
        fields: vec![],
    }));
    let specialized = polar_core::kb::Rule {
        params: vec![Parameter { parameter: var("p"), specializer: Some(lit) }],
        body: boolean(true),
    };
    let kb = kb_with(vec![("g", vec![specialized])]);
    let q = query(vec!["z"], call("g", vec![var("z")]), &kb);
    let r = q.run().unwrap();
    assert_eq!(r.len(), 1);
    match &r[0].variables[0].1 {
        Value::Variable(v) => {
            assert_eq!(v.name.0, "p");
            assert_eq!(v.type_info.as_ref().unwrap().0, "Foo");
        },
        _ => panic!("expected a tagged variable value"),
    }
}

#[test]
fn unify_goal_yields_one_frame_on_success_none_on_failure() {
    let kb = kb_with(vec![]);
    let s = polar_core::state::State::new(&kb);
    let g = polar_core::query::Unify { left: var("x"), right: num(3) };
    let frames = g.run(s);
    assert_eq!(frames.len(), 1);
    let s2 = polar_core::state::State::new(&kb);
    let g2 = polar_core::query::Unify { left: num(1), right: num(2) };
    assert!(g2.run(s2).is_empty());
}
