//! Laws of the resolution core, stated over the same spec functions the
//! executable contracts use and proved once and for all.

use vstd::prelude::*;

use crate::kb::{KbModel, RuleModel};
use crate::query::{
    match_params_spec, run_conj_spec, run_op_spec, run_rules_spec, run_states_spec,
    run_term_spec, EvalError,
};
use crate::state::{
    find_binding, fully_walked, isa_spec, unify_spec, walk_rec, walk_spec, FrameModel,
};
use crate::terms::{Operator, TermModel, ValueModel};

verus! {

/// A term that is its own most-resolved form dereferences to itself, with
/// any step budget.
pub proof fn lemma_fully_walked_fix(s: FrameModel, t: TermModel, fuel: nat)
    requires
        fully_walked(s, t),
    ensures
        walk_rec(s, t, fuel) == t,
{
}

/// Walk idempotence: dereferencing a term twice through the same frame
/// gives the same result as dereferencing it once, whenever the first
/// dereference ran to completion. (On a frame holding a cycle of distinct
/// bound terms a dereference cannot complete; the engine never constructs
/// such a frame.)
pub proof fn lemma_walk_idempotent(s: FrameModel, t: TermModel)
    requires
        fully_walked(s, walk_spec(s, t)),
    ensures
        walk_spec(s, walk_spec(s, t)) == walk_spec(s, t),
{
    lemma_fully_walked_fix(s, walk_spec(s, t), s.len() + 1);
}

/// On a frame with no bindings every dereference completes at once, so
/// walk idempotence holds there without hypotheses.
pub proof fn lemma_walks_complete_on_empty_frame(t: TermModel)
    ensures
        fully_walked(Seq::empty(), walk_spec(Seq::empty(), t)),
        walk_spec(Seq::empty(), walk_spec(Seq::empty(), t)) == walk_spec(Seq::empty(), t),
{
    lemma_walk_idempotent(Seq::empty(), t);
}

/// Unbound variable round-trip: a variable the frame never recorded, or
/// recorded only as its own self-binding, resolves via walk to itself.
pub proof fn lemma_unbound_variable_resolves_to_itself(s: FrameModel, t: TermModel)
    requires
        t.value is Variable,
        ({
            let f = find_binding(s, t.value->Variable_0.name);
            f is None || f == Some(t)
        }),
    ensures
        walk_spec(s, t) == t,
{
}

/// Unify symmetry, success side: `unify(a, b)` and `unify(b, a)` succeed
/// or fail identically on any frame.
pub proof fn lemma_unify_symmetric(s: FrameModel, a: TermModel, b: TermModel)
    ensures
        unify_spec(s, a, b).0 == unify_spec(s, b, a).0,
{
}

/// Unify symmetry, agreement side: a successful unification of two
/// already-dereferenced terms produces a frame under which both terms walk
/// to the same value.
pub proof fn lemma_unify_makes_walks_agree(s: FrameModel, a: TermModel, b: TermModel)
    requires
        fully_walked(s, a),
        fully_walked(s, b),
        unify_spec(s, a, b).0,
    ensures
        walk_spec(unify_spec(s, a, b).1, a).value == walk_spec(unify_spec(s, a, b).1, b).value,
{
    lemma_fully_walked_fix(s, a, s.len() + 1);
    lemma_fully_walked_fix(s, b, s.len() + 1);
    if a.value == b.value {
    } else {
        match a.value {
            ValueModel::Variable(v) => {
                let t2 = TermModel { value: b.value, synthesized: true };
                let sp = s.push((v.name, t2));
                let fuel = sp.len() + 1;
                assert(unify_spec(s, a, b).1 == sp);
                assert(sp.last() == (v.name, t2));
                assert(find_binding(sp, v.name) == Some(t2));
                assert(sp.drop_last() =~= s);
                assert(t2 != a);
                assert(walk_rec(sp, a, fuel) == walk_rec(sp, t2, (fuel - 1) as nat));
                match b.value {
                    ValueModel::Variable(w) => {
                        if w.name == v.name {
                            assert(walk_rec(sp, t2, (fuel - 1) as nat) == t2);
                            if t2 == b {
                                assert(walk_rec(sp, b, fuel) == b);
                            } else {
                                assert(walk_rec(sp, b, fuel) == walk_rec(
                                    sp,
                                    t2,
                                    (fuel - 1) as nat,
                                ));
                            }
                        } else {
                            assert(find_binding(sp, w.name) == find_binding(s, w.name));
                            match find_binding(s, w.name) {
                                None => {
                                    assert(walk_rec(sp, t2, (fuel - 1) as nat) == t2);
                                    assert(walk_rec(sp, b, fuel) == b);
                                },
                                Some(bb) => {
                                    assert(bb == b);
                                    assert(s.len() >= 1);
                                    if b == t2 {
                                        assert(walk_rec(sp, t2, (fuel - 1) as nat) == t2);
                                    } else {
                                        assert(walk_rec(sp, t2, (fuel - 1) as nat) == walk_rec(
                                            sp,
                                            b,
                                            (fuel - 2) as nat,
                                        ));
                                        assert(walk_rec(sp, b, (fuel - 2) as nat) == b);
                                    }
                                    assert(walk_rec(sp, b, fuel) == b);
                                },
                            }
                        }
                    },
                    _ => {
                        assert(walk_rec(sp, t2, (fuel - 1) as nat) == t2);
                        assert(walk_rec(sp, b, fuel) == b);
                    },
                }
            },
            _ => {
                match b.value {
                    ValueModel::Variable(w) => {
                        let t2 = TermModel { value: a.value, synthesized: true };
                        let sp = s.push((w.name, t2));
                        let fuel = sp.len() + 1;
                        assert(unify_spec(s, a, b).1 == sp);
                        assert(sp.last() == (w.name, t2));
                        assert(find_binding(sp, w.name) == Some(t2));
                        assert(t2 != b);
                        assert(walk_rec(sp, b, fuel) == walk_rec(sp, t2, (fuel - 1) as nat));
                        assert(walk_rec(sp, t2, (fuel - 1) as nat) == t2);
                        assert(walk_rec(sp, a, fuel) == a);
                    },
                    _ => {
                        assert(false);
                    },
                }
            },
        }
    }
}

/// Conjunction composes stepwise: the solutions of `And(a, b)` are exactly
/// the solutions of `b` collected, in order, from each solution of `a` —
/// and an error from either side aborts the whole conjunction.
pub proof fn lemma_conjunction_stepwise(
    kb: KbModel,
    a: TermModel,
    b: TermModel,
    s: FrameModel,
    fuel: nat,
)
    ensures
        run_op_spec(kb, Operator::And, seq![a, b], s, fuel) == (match run_term_spec(
            kb,
            a,
            s,
            fuel,
        ) {
            Err(e) => Err::<Seq<FrameModel>, EvalError>(e),
            Ok(ss) => run_states_spec(kb, b, ss, fuel),
        }),
{
    let args = seq![a, b];
    let st0 = seq![s];
    assert(args.drop_first() =~= seq![b]);
    assert(seq![b].drop_first() =~= Seq::<TermModel>::empty());
    assert(st0.drop_first() =~= Seq::<FrameModel>::empty());
    assert(run_op_spec(kb, Operator::And, args, s, fuel) == run_conj_spec(kb, args, st0, fuel));
    match run_term_spec(kb, a, s, fuel) {
        Err(_) => {
        },
        Ok(rs) => {
            assert(rs + Seq::<FrameModel>::empty() =~= rs);
            assert(run_states_spec(kb, a, st0, fuel) == Ok::<Seq<FrameModel>, EvalError>(rs));
            match run_states_spec(kb, b, rs, fuel) {
                Err(_) => {
                },
                Ok(ss2) => {
                    assert(run_conj_spec(kb, seq![b], rs, fuel) == Ok::<
                        Seq<FrameModel>,
                        EvalError,
                    >(ss2));
                },
            }
        },
    }
}

/// Call short-circuit: when a candidate's first parameter fails to unify
/// with the walked first argument, the candidate is rejected with its inner
/// frame still empty — no later parameter and no body contributes a binding
/// — and the call's results are exactly those of the remaining candidates.
pub proof fn lemma_call_short_circuit(
    kb: KbModel,
    args: Seq<TermModel>,
    rules: Seq<RuleModel>,
    outer: FrameModel,
    fuel: nat,
)
    requires
        rules.len() >= 1,
        args.len() >= 1,
        rules[0].params.len() >= 1,
        !unify_spec(
            Seq::empty(),
            walk_spec(outer, args[0]),
            rules[0].params[0].parameter,
        ).0,
    ensures
        !match_params_spec(outer, Seq::empty(), args, rules[0].params).0,
        match_params_spec(outer, Seq::empty(), args, rules[0].params).1 == Seq::<
            (Seq<char>, TermModel),
        >::empty(),
        run_rules_spec(kb, args, rules, outer, fuel) == run_rules_spec(
            kb,
            args,
            rules.drop_first(),
            outer,
            fuel,
        ),
{
    match run_rules_spec(kb, args, rules.drop_first(), outer, fuel) {
        Err(_) => {
        },
        Ok(rest) => {
            assert(Seq::<FrameModel>::empty() + rest =~= rest);
        },
    }
}

/// Specializer gating: a call argument that unifies with a candidate's
/// first parameter pattern but fails that parameter's specializer check
/// contributes zero results for the candidate; the call's results are
/// exactly those of the remaining candidates.
pub proof fn lemma_specializer_gates(
    kb: KbModel,
    args: Seq<TermModel>,
    rules: Seq<RuleModel>,
    outer: FrameModel,
    fuel: nat,
)
    requires
        rules.len() >= 1,
        args.len() >= 1,
        rules[0].params.len() >= 1,
        rules[0].params[0].specializer is Some,
        unify_spec(
            Seq::empty(),
            walk_spec(outer, args[0]),
            rules[0].params[0].parameter,
        ).0,
        ({
            let aw = walk_spec(outer, args[0]);
            let s1 = unify_spec(Seq::empty(), aw, rules[0].params[0].parameter).1;
            match rules[0].params[0].specializer {
                Some(sp) => !isa_spec(s1, aw, sp).0,
                None => false,
            }
        }),
    ensures
        !match_params_spec(outer, Seq::empty(), args, rules[0].params).0,
        run_rules_spec(kb, args, rules, outer, fuel) == run_rules_spec(
            kb,
            args,
            rules.drop_first(),
            outer,
            fuel,
        ),
{
    match run_rules_spec(kb, args, rules.drop_first(), outer, fuel) {
        Err(_) => {
        },
        Ok(rest) => {
            assert(Seq::<FrameModel>::empty() + rest =~= rest);
        },
    }
}

} // verus!
