//! Concrete checks of the walk, unify and isa algorithms and of structural
//! term equality.

use polar_core::kb::KnowledgeBase;
use polar_core::state::State;
use polar_core::terms::{
    term_eq, value_eq, InstanceLiteral, Operation, Operator, Symbol, Term, Value, Variable,
};

fn var(name: &str) -> Term {
    Term::new(Value::Variable(Variable::new(name.to_string())))
}

fn num(n: i64) -> Term {
    Term::new(Value::Number(n))
}

fn lit(tag: &str) -> Term {
    Term::new(Value::InstanceLiteral(InstanceLiteral {
        tag: Symbol(tag.to_string()),
        fields: vec![],
    }))
}

#[test]
fn unbound_variable_walks_to_itself() {
    let kb = KnowledgeBase::new();
    let s = State::new(&kb);
    let w = s.walk(var("x"));
    assert!(term_eq(&w, &var("x")));
}

#[test]
fn walk_dereferences_chains_and_is_idempotent() {
    let kb = KnowledgeBase::new();
    let mut s = State::new(&kb);
    assert!(s.unify(var("x"), var("y")));
    assert!(s.unify(var("y"), num(5)));
    let w1 = s.walk(var("x"));
    assert!(matches!(w1.value, Value::Number(5)));
    let w2 = s.walk(s.walk(var("x")));
    assert!(term_eq(&w1, &w2));
}

#[test]
fn self_binding_means_unbound() {
    let kb = KnowledgeBase::new();
    let mut s = State::new(&kb);
    let t = var("x");
    s.insert_binding("x".to_string(), var("x"));
    let w = s.walk(t);
    assert!(term_eq(&w, &var("x")));
}

#[test]
fn unify_equal_values_adds_no_binding() {
    let kb = KnowledgeBase::new();
    let mut s = State::new(&kb);
    assert!(s.unify(num(3), num(3)));
    assert!(s.bindings.is_empty());
}

#[test]
fn unify_strings_by_content() {
    let kb = KnowledgeBase::new();
    let mut s = State::new(&kb);
    assert!(s.unify(
        Term::new(Value::Str("a".to_string())),
        Term::new(Value::Str("a".to_string())),
    ));
    assert!(!s.unify(
        Term::new(Value::Str("a".to_string())),
        Term::new(Value::Str("b".to_string())),
    ));
}

#[test]
fn unify_failure_leaves_frame_unmodified() {
    let kb = KnowledgeBase::new();
    let mut s = State::new(&kb);
    assert!(!s.unify(num(1), num(2)));
    assert!(s.bindings.is_empty());
}

#[test]
fn unify_is_symmetric_and_makes_walks_agree() {
    let kb = KnowledgeBase::new();
    let mut s1 = State::new(&kb);
    let mut s2 = State::new(&kb);
    assert_eq!(s1.unify(var("x"), num(4)), s2.unify(num(4), var("x")));
    let a1 = s1.walk(var("x"));
    let b1 = s1.walk(num(4));
    assert!(value_eq(&a1.value, &b1.value));
    let a2 = s2.walk(var("x"));
    let b2 = s2.walk(num(4));
    assert!(value_eq(&a2.value, &b2.value));
}

#[test]
fn unify_two_unbound_variables_then_resolve() {
    let kb = KnowledgeBase::new();
    let mut s = State::new(&kb);
    assert!(s.unify(var("a"), var("b")));
    assert!(s.unify(var("b"), num(9)));
    let wa = s.walk(var("a"));
    assert!(matches!(wa.value, Value::Number(9)));
}

#[test]
fn isa_tags_unconstrained_variable_then_checks_equality() {
    let kb = KnowledgeBase::new();
    let mut s = State::new(&kb);
    assert!(s.isa(var("z"), lit("Foo")));
    assert!(s.isa(var("z"), lit("Foo")));
    assert!(!s.isa(var("z"), lit("Bar")));
}

#[test]
fn isa_on_equal_values_succeeds_without_binding() {
    let kb = KnowledgeBase::new();
    let mut s = State::new(&kb);
    assert!(s.isa(num(2), num(2)));
    assert!(s.bindings.is_empty());
}

#[test]
fn isa_rejects_non_variable_against_pattern() {
    let kb = KnowledgeBase::new();
    let mut s = State::new(&kb);
    assert!(!s.isa(num(2), lit("Foo")));
}

#[test]
fn term_equality_includes_the_synthesized_flag() {
    assert!(!term_eq(&Term::new(Value::Number(1)), &Term::new_temporary(Value::Number(1))));
    assert!(value_eq(
        &Term::new(Value::Number(1)).value,
        &Term::new_temporary(Value::Number(1)).value,
    ));
}

#[test]
fn value_equality_is_structural() {
    let a = Value::Expression(Operation {
        operator: Operator::And,
        args: vec![num(1), var("x")],
    });
    let b = Value::Expression(Operation {
        operator: Operator::And,
        args: vec![num(1), var("x")],
    });
    let c = Value::Expression(Operation {
        operator: Operator::And,
        args: vec![num(1), var("y")],
    });
    assert!(value_eq(&a, &b));
    assert!(!value_eq(&a, &c));
    assert!(!value_eq(&a, &Value::Boolean(true)));
}

#[test]
fn variables_with_different_tags_are_distinct_values() {
    let plain = Value::Variable(Variable::new("v".to_string()));
    let tagged = Value::Variable(Variable {
        name: Symbol("v".to_string()),
        type_info: Some(Symbol("Foo".to_string())),
    });
    assert!(!value_eq(&plain, &tagged));
}

#[test]
fn later_binding_shadows_earlier_one() {
    let kb = KnowledgeBase::new();
    let mut s = State::new(&kb);
    s.insert_binding("x".to_string(), num(1));
    s.insert_binding("x".to_string(), num(2));
    let w = s.walk(var("x"));
    assert!(matches!(w.value, Value::Number(2)));
}

#[test]
fn composite_values_unify_only_when_structurally_equal() {
    // Element-wise unification of composites is out of scope: two lists
    // unify only when already structurally equal, and a variable inside a
    // composite is never bound through it.
    let kb = KnowledgeBase::new();
    let mut s = State::new(&kb);
    assert!(s.unify(
        Term::new(Value::List(vec![num(1)])),
        Term::new(Value::List(vec![num(1)])),
    ));
    assert!(s.bindings.is_empty());
    assert!(!s.unify(
        Term::new(Value::List(vec![var("x")])),
        Term::new(Value::List(vec![num(1)])),
    ));
    assert!(s.bindings.is_empty());
}
