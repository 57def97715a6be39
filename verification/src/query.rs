//! Goal composition and query projection.
//!
//! A goal, given a frame, produces the sequence of alternative successful
//! continuation frames, in a deterministic order: boolean literals produce
//! the unchanged frame or nothing; a unify operation produces at most one
//! extended frame; conjunction composes sub-goals left to right with full
//! backtracking; a call matches candidate rules from the knowledge base in
//! their offered order, runs rule bodies in fresh inner frames, and
//! re-projects exported variables onto copies of the caller's frame. Every
//! value kind or operator without resolution semantics is surfaced as an
//! explicit error, never conflated with an empty result.
//!
//! The whole evaluation is pinned down by the spec-level interpreter
//! (`run_term_spec` and companions); each executable evaluator returns
//! exactly what the interpreter denotes.

use vstd::prelude::*;

use crate::kb::{lookup_group, rules_model, KbModel, KnowledgeBase, ParameterModel, RuleModel};
use crate::state::{find_binding, isa_spec, unify_spec, walk_spec, FrameModel, State};
use crate::terms::{
    lemma_terms_model, term_dup, term_model, terms_model, Call, Operation, Operator, Symbol,
    Term, TermModel, Value, ValueModel, Variable, VariableModel,
};

verus! {

broadcast use crate::terms::lemma_terms_model_len, crate::terms::lemma_terms_model_index;

/// The failures that abort a query, each distinct from "no solutions":
/// reaching a value kind or operator this core does not implement; a call
/// naming no registered rule group; an exported call-argument variable
/// unbound after a successful match (a bug in matching itself); and
/// exhaustion of the evaluation depth budget.
#[derive(Clone, Copy, PartialEq, Eq, Structural, Debug)]
pub enum EvalError {
    UnsupportedGoal,
    UnknownRuleName,
    InternalInvariantViolation,
    RecursionLimit,
}

/// The depth budget `Query::run` evaluates under.
pub const DEFAULT_FUEL: u64 = 0xffff_ffff_ffff_ffff;

/// Models of a sequence of variable names.
pub open spec fn names_model(v: Seq<String>) -> Seq<Seq<char>> {
    v.map_values(|s: String| s@)
}

/// Models of a sequence of frames.
pub open spec fn states_model<'a>(v: Seq<State<'a>>) -> Seq<FrameModel> {
    v.map_values(|st: State<'a>| st@)
}

/// All frames in `v` share the knowledge base handle `kb`.
pub open spec fn states_kb_ok<'a>(v: Seq<State<'a>>, kb: &KnowledgeBase) -> bool {
    forall|i: int| 0 <= i < v.len() ==> v[i].kb == kb
}

/// What running a term as a goal from frame `s` denotes: the sequence of
/// successor frames, or the error that aborts the query. `fuel` bounds the
/// evaluation depth; every recursion into a rule body or an operation
/// consumes one unit.
pub open spec fn run_term_spec(kb: KbModel, t: TermModel, s: FrameModel, fuel: nat) -> Result<
    Seq<FrameModel>,
    EvalError,
>
    decreases fuel, 0nat, 0nat,
{
    if fuel == 0 {
        Err(EvalError::RecursionLimit)
    } else {
        match t.value {
            ValueModel::Boolean(b) => if b {
                Ok(seq![s])
            } else {
                Ok(Seq::empty())
            },
            ValueModel::Call(c) => run_call_spec(kb, c.name, c.args, s, (fuel - 1) as nat),
            ValueModel::Expression(o) => run_op_spec(
                kb,
                o.operator,
                o.args,
                s,
                (fuel - 1) as nat,
            ),
            _ => Err(EvalError::UnsupportedGoal),
        }
    }
}

/// What running an operation denotes: `Unify`/`Eq` attempt unification of
/// their two arguments; `And` composes its arguments left to right; every
/// other operator, and a malformed unification arity, is an unsupported
/// goal.
pub open spec fn run_op_spec(
    kb: KbModel,
    op: Operator,
    args: Seq<TermModel>,
    s: FrameModel,
    fuel: nat,
) -> Result<Seq<FrameModel>, EvalError>
    decreases fuel, args.len() + 3, 0nat,
{
    match op {
        Operator::Unify | Operator::Eq => if args.len() == 2 {
            let (ok, f) = unify_spec(s, args[0], args[1]);
            if ok {
                Ok(seq![f])
            } else {
                Ok(Seq::empty())
            }
        } else {
            Err(EvalError::UnsupportedGoal)
        },
        Operator::And => run_conj_spec(kb, args, seq![s], fuel),
        _ => Err(EvalError::UnsupportedGoal),
    }
}

/// Conjunction: each conjunct replaces the surviving frames with the
/// concatenation, over every surviving frame, of its own results from that
/// frame.
pub open spec fn run_conj_spec(
    kb: KbModel,
    args: Seq<TermModel>,
    states: Seq<FrameModel>,
    fuel: nat,
) -> Result<Seq<FrameModel>, EvalError>
    decreases fuel, args.len() + 2, 0nat,
{
    if args.len() == 0 {
        Ok(states)
    } else {
        match run_states_spec(kb, args[0], states, fuel) {
            Err(e) => Err(e),
            Ok(ss) => run_conj_spec(kb, args.drop_first(), ss, fuel),
        }
    }
}

/// One goal run from every frame of `states` in order, results
/// concatenated.
pub open spec fn run_states_spec(
    kb: KbModel,
    t: TermModel,
    states: Seq<FrameModel>,
    fuel: nat,
) -> Result<Seq<FrameModel>, EvalError>
    decreases fuel, 1nat, states.len(),
{
    if states.len() == 0 {
        Ok(Seq::empty())
    } else {
        match run_term_spec(kb, t, states[0], fuel) {
            Err(e) => Err(e),
            Ok(first) => match run_states_spec(kb, t, states.drop_first(), fuel) {
                Err(e) => Err(e),
                Ok(rest) => Ok(first + rest),
            },
        }
    }
}

/// Zip the call's arguments with a candidate's parameters in declared
/// order: walk each argument against the caller's frame, record the name of
/// a still-unbound variable argument for later export, unify the walked
/// argument with the parameter pattern in the inner frame, then check the
/// parameter's specializer if it carries one. Evaluation short-circuits on
/// the first failing pair, rejecting the candidate.
pub open spec fn match_params_spec(
    outer: FrameModel,
    inner: FrameModel,
    args: Seq<TermModel>,
    params: Seq<ParameterModel>,
) -> (bool, FrameModel, Seq<Seq<char>>)
    decreases args.len(),
{
    if args.len() == 0 || params.len() == 0 {
        (true, inner, Seq::empty())
    } else {
        let aw = walk_spec(outer, args[0]);
        let vars0: Seq<Seq<char>> = match aw.value {
            ValueModel::Variable(v) => seq![v.name],
            _ => Seq::empty(),
        };
        let u = unify_spec(inner, aw, params[0].parameter);
        if !u.0 {
            (false, u.1, vars0)
        } else {
            let chk = match params[0].specializer {
                Some(sp) => isa_spec(u.1, aw, sp),
                None => (true, u.1),
            };
            if !chk.0 {
                (false, chk.1, vars0)
            } else {
                let rest = match_params_spec(outer, chk.1, args.drop_first(), params.drop_first());
                (rest.0, rest.1, vars0 + rest.2)
            }
        }
    }
}

/// Re-projection of one surviving inner frame: every recorded variable name
/// must be bound in the inner frame (its absence is an internal invariant
/// violation); its binding is walked to full resolution and installed onto
/// the accumulating copy of the caller's frame.
pub open spec fn export_one_spec(
    acc: FrameModel,
    inner: FrameModel,
    vars: Seq<Seq<char>>,
) -> Result<FrameModel, EvalError>
    decreases vars.len(),
{
    if vars.len() == 0 {
        Ok(acc)
    } else {
        match find_binding(inner, vars[0]) {
            None => Err(EvalError::InternalInvariantViolation),
            Some(b) => export_one_spec(
                acc.push((vars[0], walk_spec(inner, b))),
                inner,
                vars.drop_first(),
            ),
        }
    }
}

/// Re-projection of every surviving inner frame, in order.
pub open spec fn export_states_spec(
    outer: FrameModel,
    inners: Seq<FrameModel>,
    vars: Seq<Seq<char>>,
) -> Result<Seq<FrameModel>, EvalError>
    decreases inners.len(),
{
    if inners.len() == 0 {
        Ok(Seq::empty())
    } else {
        match export_one_spec(outer, inners[0], vars) {
            Err(e) => Err(e),
            Ok(st) => match export_states_spec(outer, inners.drop_first(), vars) {
                Err(e) => Err(e),
                Ok(rest) => Ok(seq![st] + rest),
            },
        }
    }
}

/// Candidate rules tried in offered order: a rejected candidate contributes
/// an empty sub-sequence without disturbing its neighbours; an accepted one
/// contributes the re-projection of its body's results.
pub open spec fn run_rules_spec(
    kb: KbModel,
    args: Seq<TermModel>,
    rules: Seq<RuleModel>,
    outer: FrameModel,
    fuel: nat,
) -> Result<Seq<FrameModel>, EvalError>
    decreases fuel, 1nat, rules.len(),
{
    if rules.len() == 0 {
        Ok(Seq::empty())
    } else {
        let m = match_params_spec(outer, Seq::empty(), args, rules[0].params);
        let head: Result<Seq<FrameModel>, EvalError> = if m.0 {
            match run_term_spec(kb, rules[0].body, m.1, fuel) {
                Err(e) => Err(e),
                Ok(inners) => export_states_spec(outer, inners, m.2),
            }
        } else {
            Ok(Seq::empty())
        };
        match head {
            Err(e) => Err(e),
            Ok(hs) => match run_rules_spec(kb, args, rules.drop_first(), outer, fuel) {
                Err(e) => Err(e),
                Ok(rest) => Ok(hs + rest),
            },
        }
    }
}

/// Call resolution: look up the named rule group (its absence aborts the
/// query) and try its applicable candidates in order.
pub open spec fn run_call_spec(
    kb: KbModel,
    name: Seq<char>,
    args: Seq<TermModel>,
    s: FrameModel,
    fuel: nat,
) -> Result<Seq<FrameModel>, EvalError>
    decreases fuel, 2nat, 0nat,
{
    match lookup_group(kb, name) {
        None => Err(EvalError::UnknownRuleName),
        Some(rules) => run_rules_spec(kb, args, rules, s, fuel),
    }
}

/// Projection of one solution frame: each requested name maps to its fully
/// walked bound value, or to a freshly constructed unbound-variable
/// placeholder of the same name when the frame never bound it.
pub open spec fn project_spec(s: FrameModel, vars: Seq<Seq<char>>) -> Seq<
    (Seq<char>, ValueModel),
>
    decreases vars.len(),
{
    if vars.len() == 0 {
        Seq::empty()
    } else {
        let name = vars[0];
        let val = match find_binding(s, name) {
            Some(b) => walk_spec(s, b).value,
            None => ValueModel::Variable(VariableModel { name, type_info: None }),
        };
        seq![(name, val)] + project_spec(s, vars.drop_first())
    }
}

/// Projection of every solution frame, in discovery order.
pub open spec fn project_all_spec(states: Seq<FrameModel>, vars: Seq<Seq<char>>) -> Seq<
    Seq<(Seq<char>, ValueModel)>,
>
    decreases states.len(),
{
    if states.len() == 0 {
        Seq::empty()
    } else {
        seq![project_spec(states[0], vars)] + project_all_spec(states.drop_first(), vars)
    }
}

/// What a whole query denotes: run the goal from an empty frame and
/// project each solution, or abort with the error.
pub open spec fn query_spec(
    kb: KbModel,
    vars: Seq<Seq<char>>,
    goal: TermModel,
    fuel: nat,
) -> Result<Seq<Seq<(Seq<char>, ValueModel)>>, EvalError> {
    match run_term_spec(kb, goal, Seq::empty(), fuel) {
        Err(e) => Err(e),
        Ok(states) => Ok(project_all_spec(states, vars)),
    }
}

impl Term {
    /// Run this term as a goal from `state`.
    pub fn run<'a>(&self, state: State<'a>, fuel: u64) -> (r: Result<Vec<State<'a>>, EvalError>)
        ensures
            ({
                let spec_r = run_term_spec(state.kb@, self@, state@, fuel as nat);
                match r {
                    Ok(v) => spec_r == Ok::<Seq<FrameModel>, EvalError>(states_model(v@)) && states_kb_ok(v@, state.kb),
                    Err(e) => spec_r == Err::<Seq<FrameModel>, EvalError>(e),
                }
            }),
        decreases fuel, 0int, 0int,
    {
        let ghost sm = state@;
        if fuel == 0 {
            return Err(EvalError::RecursionLimit);
        }
        match &self.value {
            Value::Boolean(b) => {
                if *b {
                    let ghost st0 = state;
                    let mut v: Vec<State<'a>> = Vec::new();
                    v.push(state);
                    proof {
                        assert(v@[0] == st0);
                        assert(states_model(v@) =~= seq![sm]);
                        assert(states_kb_ok(v@, st0.kb));
                    }
                    Ok(v)
                } else {
                    let v: Vec<State<'a>> = Vec::new();
                    proof {
                        assert(states_model(v@) =~= Seq::<FrameModel>::empty());
                    }
                    Ok(v)
                }
            },
            Value::Call(c) => c.run(state, fuel - 1),
            Value::Expression(o) => o.run(state, fuel - 1),
            _ => Err(EvalError::UnsupportedGoal),
        }
    }
}

impl Operation {
    /// Run this operation as a goal from `state`.
    #[verifier::loop_isolation(false)]
    pub fn run<'a>(&self, state: State<'a>, fuel: u64) -> (r: Result<Vec<State<'a>>, EvalError>)
        ensures
            ({
                let spec_r = run_op_spec(
                    state.kb@,
                    self.operator,
                    terms_model(self.args@),
                    state@,
                    fuel as nat,
                );
                match r {
                    Ok(v) => spec_r == Ok::<Seq<FrameModel>, EvalError>(states_model(v@)) && states_kb_ok(v@, state.kb),
                    Err(e) => spec_r == Err::<Seq<FrameModel>, EvalError>(e),
                }
            }),
        decreases fuel, self.args@.len() + 3, 0int,
    {
        let ghost kbm = state.kb@;
        let ghost skb = state.kb;
        let ghost sm = state@;
        let ghost argsm = terms_model(self.args@);
        proof {
            lemma_terms_model(self.args@);
        }
        match self.operator {
            Operator::Unify | Operator::Eq => {
                if self.args.len() == 2 {
                    let l = term_dup(&self.args[0]);
                    let rr = term_dup(&self.args[1]);
                    let mut st = state;
                    let ok = st.unify(l, rr);
                    proof {
                        assert(l@ == argsm[0] && rr@ == argsm[1]);
                    }
                    if ok {
                        let mut v: Vec<State<'a>> = Vec::new();
                        let ghost stm = st@;
                        v.push(st);
                        proof {
                            assert(states_model(v@) =~= seq![stm]);
                        }
                        Ok(v)
                    } else {
                        let v: Vec<State<'a>> = Vec::new();
                        proof {
                            assert(states_model(v@) =~= Seq::<FrameModel>::empty());
                        }
                        Ok(v)
                    }
                } else {
                    Err(EvalError::UnsupportedGoal)
                }
            },
            Operator::And => {
                let mut states: Vec<State<'a>> = Vec::new();
                states.push(state);
                proof {
                    assert(states_model(states@) =~= seq![sm]);
                }
                let ghost conj_full = run_conj_spec(kbm, argsm, seq![sm], fuel as nat);
                let na = self.args.len();
                let mut ti: usize = 0;
                proof {
                    assert(argsm.skip(0) =~= argsm);
                }
                while ti < na
                    invariant
                        na == self.args@.len(),
                        ti <= na,
                        argsm == terms_model(self.args@),
                        conj_full == run_conj_spec(
                            kbm,
                            argsm.skip(ti as int),
                            states_model(states@),
                            fuel as nat,
                        ),
                        states_kb_ok(states@, skb),
                    decreases na - ti,
                {
                    let ghost stsm = states_model(states@);
                    let ghost tm = argsm[ti as int];
                    let ghost run_states_full = run_states_spec(kbm, tm, stsm, fuel as nat);
                    let mut next: Vec<State<'a>> = Vec::new();
                    let nk = states.len();
                    let mut k: usize = 0;
                    proof {
                        assert(stsm.skip(0) =~= stsm);
                        assert(states_model(next@) =~= Seq::<FrameModel>::empty());
                        match run_states_spec(kbm, tm, stsm, fuel as nat) {
                            Ok(rest) => {
                                assert(Seq::<FrameModel>::empty() + rest =~= rest);
                            },
                            Err(_) => {},
                        }
                    }
                    while k < nk
                        invariant
                            nk == states@.len(),
                            k <= nk,
                            stsm == states_model(states@),
                            states_kb_ok(states@, skb),
                            states_kb_ok(next@, skb),
                            tm == argsm[ti as int],
                            ti < na,
                            na == self.args@.len(),
                            argsm == terms_model(self.args@),
                            forall|j: int|
                                0 <= j < self.args@.len() ==> #[trigger] argsm[j] == term_model(
                                    self.args@[j],
                                ),
                            ({
                                match run_states_spec(
                                    kbm,
                                    tm,
                                    stsm.skip(k as int),
                                    fuel as nat,
                                ) {
                                    Ok(rest) => run_states_full == Ok::<
                                        Seq<FrameModel>,
                                        EvalError,
                                    >(states_model(next@) + rest),
                                    Err(e) => run_states_full == Err::<
                                        Seq<FrameModel>,
                                        EvalError,
                                    >(e),
                                }
                            }),
                        decreases nk - k,
                    {
                        let st = states[k].dup();
                        let rr = self.args[ti].run(st, fuel);
                        proof {
                            assert(stsm.skip(k as int)[0] == stsm[k as int]);
                            assert(stsm[k as int] == states@[k as int]@);
                            assert(stsm.skip(k as int).drop_first() =~= stsm.skip(k as int + 1));
                        }
                        match rr {
                            Err(e) => {
                                return Err(e);
                            },
                            Ok(mut v) => {
                                let ghost vm = states_model(v@);
                                let ghost nbefore = states_model(next@);
                                next.append(&mut v);
                                proof {
                                    assert(states_model(next@) =~= nbefore + vm);
                                    match run_states_spec(
                                        kbm,
                                        tm,
                                        stsm.skip(k as int + 1),
                                        fuel as nat,
                                    ) {
                                        Ok(rest) => {
                                            assert((nbefore + vm) + rest =~= nbefore + (vm
                                                + rest));
                                        },
                                        Err(_) => {},
                                    }
                                }
                                k += 1;
                            },
                        }
                    }
                    proof {
                        assert(stsm.skip(nk as int).len() == 0);
                        assert(states_model(next@) + Seq::<FrameModel>::empty() =~= states_model(
                            next@,
                        ));
                        assert(argsm.skip(ti as int)[0] == tm);
                        assert(argsm.skip(ti as int).drop_first() =~= argsm.skip(ti as int + 1));
                    }
                    states = next;
                    ti += 1;
                }
                proof {
                    assert(argsm.skip(na as int).len() == 0);
                }
                Ok(states)
            },
            _ => Err(EvalError::UnsupportedGoal),
        }
    }
}

impl Call {
    /// Resolve this call: match candidate rules from the knowledge base,
    /// run accepted bodies in fresh inner frames, and re-project exported
    /// variables onto copies of the caller's frame.
    #[verifier::loop_isolation(false)]
    #[verifier::rlimit(100)]
    pub fn run<'a>(&self, state: State<'a>, fuel: u64) -> (r: Result<Vec<State<'a>>, EvalError>)
        ensures
            ({
                let spec_r = run_call_spec(
                    state.kb@,
                    self.name@,
                    terms_model(self.args@),
                    state@,
                    fuel as nat,
                );
                match r {
                    Ok(v) => spec_r == Ok::<Seq<FrameModel>, EvalError>(states_model(v@)) && states_kb_ok(v@, state.kb),
                    Err(e) => spec_r == Err::<Seq<FrameModel>, EvalError>(e),
                }
            }),
        decreases fuel, 2int, 0int,
    {
        let ghost kbm = state.kb@;
        let ghost skb = state.kb;
        let ghost sm = state@;
        let ghost argsm = terms_model(self.args@);
        proof {
            lemma_terms_model(self.args@);
        }
        let kbr = state.kb();
        let g = match kbr.get_generic_rule(&self.name) {
            None => {
                return Err(EvalError::UnknownRuleName);
            },
            Some(g) => g,
        };
        let rules = g.get_applicable_rules(&self.args);
        let ghost rulesm = rules_model(rules@);
        let ghost rules_full = run_rules_spec(kbm, argsm, rulesm, sm, fuel as nat);
        let mut out: Vec<State<'a>> = Vec::new();
        let nr = rules.len();
        let mut i: usize = 0;
        proof {
            assert(rulesm.skip(0) =~= rulesm);
            assert(states_model(out@) =~= Seq::<FrameModel>::empty());
            match run_rules_spec(kbm, argsm, rulesm, sm, fuel as nat) {
                Ok(rest) => {
                    assert(Seq::<FrameModel>::empty() + rest =~= rest);
                },
                Err(_) => {},
            }
        }
        while i < nr
            invariant
                nr == rules@.len(),
                i <= nr,
                rulesm == rules_model(rules@),
                argsm == terms_model(self.args@),
                forall|j: int|
                    0 <= j < self.args@.len() ==> #[trigger] argsm[j] == term_model(
                        self.args@[j],
                    ),
                sm == state@,
                skb == state.kb,
                kbm == state.kb@,
                states_kb_ok(out@, skb),
                ({
                    match run_rules_spec(kbm, argsm, rulesm.skip(i as int), sm, fuel as nat) {
                        Ok(rest) => rules_full == Ok::<Seq<FrameModel>, EvalError>(
                            states_model(out@) + rest,
                        ),
                        Err(e) => rules_full == Err::<Seq<FrameModel>, EvalError>(e),
                    }
                }),
            decreases nr - i,
        {
            let r = &rules[i];
            let ghost rm = rulesm[i as int];
            let ghost paramsm = rm.params;
            let ghost mp_full = match_params_spec(sm, Seq::<(Seq<char>, TermModel)>::empty(), argsm, paramsm);
            proof {
                assert(rulesm.skip(i as int)[0] == rulesm[i as int]);
                assert(rulesm.skip(i as int).drop_first() =~= rulesm.skip(i as int + 1));
            }
            let mut inner = State::new(state.kb);
            let mut vars: Vec<String> = Vec::new();
            let mut applicable = true;
            let na = self.args.len();
            let np_r = r.params.len();
            let np = if na < np_r {
                na
            } else {
                np_r
            };
            let mut j: usize = 0;
            proof {
                assert(argsm.skip(0) =~= argsm);
                assert(paramsm.skip(0) =~= paramsm);
                assert(names_model(vars@) =~= Seq::<Seq<char>>::empty());
                assert(Seq::<Seq<char>>::empty() + match_params_spec(
                    sm,
                    inner@,
                    argsm,
                    paramsm,
                ).2 =~= match_params_spec(sm, inner@, argsm, paramsm).2);
            }
            while j < np && applicable
                invariant
                    j <= np,
                    na == self.args@.len(),
                    np_r == rules@[i as int].params@.len(),
                    np == if na < np_r { na } else { np_r },
                    argsm == terms_model(self.args@),
                    forall|jj: int|
                        0 <= jj < self.args@.len() ==> #[trigger] argsm[jj] == term_model(
                            self.args@[jj],
                        ),
                    paramsm == rm.params,
                    rm == rulesm[i as int],
                    i < nr,
                    nr == rules@.len(),
                    rulesm == rules_model(rules@),
                    paramsm == crate::kb::params_model(rules@[i as int].params@),
                    sm == state@,
                    skb == state.kb,
                    kbm == state.kb@,
                    inner.kb == skb,
                    applicable ==> mp_full == ({
                        let rest = match_params_spec(
                            sm,
                            inner@,
                            argsm.skip(j as int),
                            paramsm.skip(j as int),
                        );
                        (rest.0, rest.1, names_model(vars@) + rest.2)
                    }),
                    !applicable ==> !mp_full.0,
                decreases np - j + (if applicable { 1int } else { 0int }),
            {
                let aw = state.walk(term_dup(&self.args[j]));
                let ghost awm = aw@;
                let ghost vars0: Seq<Seq<char>> = match awm.value {
                    ValueModel::Variable(vv) => seq![vv.name],
                    _ => Seq::empty(),
                };
                proof {
                    assert(argsm.skip(j as int)[0] == argsm[j as int]);
                    assert(paramsm.skip(j as int)[0] == paramsm[j as int]);
                    assert(argsm.skip(j as int).len() > 0);
                    assert(paramsm.skip(j as int).len() > 0);
                    assert(argsm.skip(j as int).drop_first() =~= argsm.skip(j as int + 1));
                    assert(paramsm.skip(j as int).drop_first() =~= paramsm.skip(j as int + 1));
                }
                let ghost vars_before = names_model(vars@);
                if let Value::Variable(v) = &aw.value {
                    let nm = v.name.0.clone();
                    vars.push(nm);
                    proof {
                        assert(names_model(vars@) =~= vars_before + vars0);
                    }
                } else {
                    proof {
                        assert(names_model(vars@) =~= vars_before + vars0);
                    }
                }
                let ok1 = inner.unify(term_dup(&aw), term_dup(&r.params[j].parameter));
                if !ok1 {
                    applicable = false;
                } else {
                    let mut ok2 = true;
                    if let Some(sp) = &r.params[j].specializer {
                        ok2 = inner.isa(term_dup(&aw), term_dup(sp));
                    }
                    if !ok2 {
                        applicable = false;
                    } else {
                        proof {
                            let rest2 = match_params_spec(
                                sm,
                                inner@,
                                argsm.skip(j as int + 1),
                                paramsm.skip(j as int + 1),
                            ).2;
                            assert((vars_before + vars0) + rest2 =~= vars_before + (vars0
                                + rest2));
                        }
                        j += 1;
                    }
                }
            }
            let head_r: Result<Vec<State<'a>>, EvalError> = if applicable {
                proof {
                    if na < np_r {
                        assert(argsm.skip(np as int).len() == 0);
                    } else {
                        assert(paramsm.skip(np as int).len() == 0);
                    }
                    assert(names_model(vars@) + Seq::<Seq<char>>::empty() =~= names_model(
                        vars@,
                    ));
                    assert(mp_full == (true, inner@, names_model(vars@)));
                }
                let ghost varsm = names_model(vars@);
                let body_r = r.body.run(inner, fuel);
                match body_r {
                    Err(e) => {
                        return Err(e);
                    },
                    Ok(inners) => {
                        let ghost innersm = states_model(inners@);
                        let ghost export_full = export_states_spec(sm, innersm, varsm);
                        let mut hs: Vec<State<'a>> = Vec::new();
                        let nk = inners.len();
                        let mut k: usize = 0;
                        proof {
                            assert(innersm.skip(0) =~= innersm);
                            assert(states_model(hs@) =~= Seq::<FrameModel>::empty());
                            match export_states_spec(sm, innersm, varsm) {
                                Ok(rest) => {
                                    assert(Seq::<FrameModel>::empty() + rest =~= rest);
                                },
                                Err(_) => {},
                            }
                        }
                        while k < nk
                            invariant
                                nk == inners@.len(),
                                k <= nk,
                                innersm == states_model(inners@),
                                varsm == names_model(vars@),
                                sm == state@,
                                skb == state.kb,
                                states_kb_ok(hs@, skb),
                                ({
                                    match export_states_spec(
                                        sm,
                                        innersm.skip(k as int),
                                        varsm,
                                    ) {
                                        Ok(rest) => export_full == Ok::<
                                            Seq<FrameModel>,
                                            EvalError,
                                        >(states_model(hs@) + rest),
                                        Err(e) => export_full == Err::<
                                            Seq<FrameModel>,
                                            EvalError,
                                        >(e),
                                    }
                                }),
                            decreases nk - k,
                        {
                            let inner_st = &inners[k];
                            let ghost istm = inner_st@;
                            proof {
                                assert(innersm.skip(k as int)[0] == innersm[k as int]);
                                assert(innersm[k as int] == inners@[k as int]@);
                                assert(innersm.skip(k as int).drop_first() =~= innersm.skip(
                                    k as int + 1,
                                ));
                            }
                            let mut ns = state.dup();
                            let nv = vars.len();
                            let mut m: usize = 0;
                            proof {
                                assert(varsm.skip(0) =~= varsm);
                            }
                            while m < nv
                                invariant
                                    nv == vars@.len(),
                                    m <= nv,
                                    varsm == names_model(vars@),
                                    forall|jj: int|
                                        0 <= jj < vars@.len() ==> #[trigger] varsm[jj]
                                            == vars@[jj]@,
                                    istm == inner_st@,
                                    ns.kb == skb,
                                    export_one_spec(sm, istm, varsm) == export_one_spec(
                                        ns@,
                                        istm,
                                        varsm.skip(m as int),
                                    ),
                                decreases nv - m,
                            {
                                proof {
                                    assert(varsm.skip(m as int)[0] == varsm[m as int]);
                                    assert(varsm.skip(m as int).drop_first() =~= varsm.skip(
                                        m as int + 1,
                                    ));
                                }
                                match inner_st.get_binding(&vars[m]) {
                                    None => {
                                        return Err(EvalError::InternalInvariantViolation);
                                    },
                                    Some(t) => {
                                        let w = inner_st.walk(term_dup(t));
                                        let nm = vars[m].clone();
                                        ns.insert_binding(nm, w);
                                    },
                                }
                                m += 1;
                            }
                            proof {
                                assert(varsm.skip(nv as int).len() == 0);
                            }
                            let ghost nsm = ns@;
                            let ghost hbefore = states_model(hs@);
                            hs.push(ns);
                            proof {
                                assert(states_model(hs@) =~= hbefore + seq![nsm]);
                                match export_states_spec(
                                    sm,
                                    innersm.skip(k as int + 1),
                                    varsm,
                                ) {
                                    Ok(rest) => {
                                        assert((hbefore + seq![nsm]) + rest =~= hbefore + (
                                        seq![nsm] + rest));
                                    },
                                    Err(_) => {},
                                }
                            }
                            k += 1;
                        }
                        proof {
                            assert(innersm.skip(nk as int).len() == 0);
                            assert(states_model(hs@) + Seq::<FrameModel>::empty() =~= states_model(
                                hs@,
                            ));
                        }
                        Ok(hs)
                    },
                }
            } else {
                let v: Vec<State<'a>> = Vec::new();
                proof {
                    assert(states_model(v@) =~= Seq::<FrameModel>::empty());
                }
                Ok(v)
            };
            match head_r {
                Err(e) => {
                    return Err(e);
                },
                Ok(mut hs) => {
                    let ghost hsm = states_model(hs@);
                    let ghost obefore = states_model(out@);
                    out.append(&mut hs);
                    proof {
                        assert(states_model(out@) =~= obefore + hsm);
                        match run_rules_spec(
                            kbm,
                            argsm,
                            rulesm.skip(i as int + 1),
                            sm,
                            fuel as nat,
                        ) {
                            Ok(rest) => {
                                assert((obefore + hsm) + rest =~= obefore + (hsm + rest));
                            },
                            Err(_) => {},
                        }
                    }
                    i += 1;
                },
            }
        }
        proof {
            assert(rulesm.skip(nr as int).len() == 0);
            assert(states_model(out@) + Seq::<FrameModel>::empty() =~= states_model(out@));
        }
        Ok(out)
    }
}

/// A unify goal of two fixed terms: at most one successor frame.
///
/// Prefer calling `State::unify` directly; a unification here and now
/// never yields more than one new frame, so the goal form is only needed
/// where a unification must run as one step of a larger composition.
pub struct Unify {
    pub left: Term,
    pub right: Term,
}

impl Unify {
    /// Run this goal from `state`: one frame on success, none on failure.
    pub fn run<'a>(self, state: State<'a>) -> (r: Vec<State<'a>>)
        ensures
            ({
                let (ok, f) = unify_spec(state@, self.left@, self.right@);
                states_model(r@) == if ok {
                    seq![f]
                } else {
                    Seq::<FrameModel>::empty()
                } && states_kb_ok(r@, state.kb)
            }),
    {
        let mut st = state;
        let ok = st.unify(self.left, self.right);
        let mut v: Vec<State<'a>> = Vec::new();
        if ok {
            let ghost stm = st@;
            v.push(st);
            proof {
                assert(states_model(v@) =~= seq![stm]);
            }
        } else {
            proof {
                assert(states_model(v@) =~= Seq::<FrameModel>::empty());
            }
        }
        v
    }
}

/// One record of a solution: each requested variable name with the value it
/// resolved to.
pub struct Bindings {
    pub variables: Vec<(Symbol, Value)>,
}

impl View for Bindings {
    type V = Seq<(Seq<char>, ValueModel)>;

    open spec fn view(&self) -> Seq<(Seq<char>, ValueModel)> {
        self.variables@.map_values(
            |p: (Symbol, Value)| (p.0@, crate::terms::value_model(p.1)),
        )
    }
}

/// Models of a sequence of solution records.
pub open spec fn records_model(v: Seq<Bindings>) -> Seq<Seq<(Seq<char>, ValueModel)>> {
    v.map_values(|b: Bindings| b@)
}

/// A top-level request: the variable names of interest, a goal term, and a
/// shared knowledge base handle.
pub struct Query<'a> {
    pub variables: Vec<String>,
    pub term: Term,
    pub kb: &'a KnowledgeBase,
}

/// The record projected from one solution frame.
fn project<'a>(s: &State<'a>, vars: &Vec<String>) -> (r: Bindings)
    ensures
        r@ == project_spec(s@, names_model(vars@)),
{
    let ghost sm = s@;
    let ghost varsm = names_model(vars@);
    let mut rec: Vec<(Symbol, Value)> = Vec::new();
    let nv = vars.len();
    let mut m: usize = 0;
    proof {
        assert(varsm.skip(0) =~= varsm);
        assert(Bindings { variables: rec }@ =~= Seq::<(Seq<char>, ValueModel)>::empty());
    }
    while m < nv
        invariant
            nv == vars@.len(),
            m <= nv,
            sm == s@,
            varsm == names_model(vars@),
            forall|jj: int| 0 <= jj < vars@.len() ==> #[trigger] varsm[jj] == vars@[jj]@,
            project_spec(sm, varsm) == (Bindings { variables: rec }@) + project_spec(
                sm,
                varsm.skip(m as int),
            ),
        decreases nv - m,
    {
        proof {
            assert(varsm.skip(m as int)[0] == varsm[m as int]);
            assert(varsm.skip(m as int).drop_first() =~= varsm.skip(m as int + 1));
        }
        let ghost before = Bindings { variables: rec }@;
        match s.get_binding(&vars[m]) {
            Some(t) => {
                let w = s.walk(term_dup(t));
                rec.push((Symbol(vars[m].clone()), w.value));
            },
            None => {
                rec.push(
                    (Symbol(vars[m].clone()), Value::Variable(Variable::new(vars[m].clone()))),
                );
            },
        }
        proof {
            assert((Bindings { variables: rec }@) =~= before.push(
                (varsm[m as int], (Bindings { variables: rec }@).last().1),
            ));
            assert(project_spec(sm, varsm) =~= (Bindings { variables: rec }@) + project_spec(
                sm,
                varsm.skip(m as int + 1),
            ));
        }
        m += 1;
    }
    proof {
        assert(varsm.skip(nv as int).len() == 0);
        assert((Bindings { variables: rec }@) + Seq::<(Seq<char>, ValueModel)>::empty()
            =~= (Bindings { variables: rec }@));
    }
    Bindings { variables: rec }
}

impl<'a> Query<'a> {
    /// A query over the given variable names and goal term.
    pub fn new(variables: Vec<String>, term: Term, kb: &'a KnowledgeBase) -> (r: Query<'a>)
        ensures
            r.variables == variables,
            r.term == term,
            r.kb == kb,
    {
        Query { variables, term, kb }
    }

    /// Run the query to completion under the given depth budget: one
    /// solution record per successor frame, in discovery order.
    pub fn run_with_fuel(self, fuel: u64) -> (r: Result<Vec<Bindings>, EvalError>)
        ensures
            ({
                let spec_r = query_spec(
                    self.kb@,
                    names_model(self.variables@),
                    self.term@,
                    fuel as nat,
                );
                match r {
                    Ok(v) => spec_r == Ok::<Seq<Seq<(Seq<char>, ValueModel)>>, EvalError>(records_model(v@)),
                    Err(e) => spec_r == Err::<Seq<Seq<(Seq<char>, ValueModel)>>, EvalError>(e),
                }
            }),
    {
        let Query { variables, term, kb } = self;
        let ghost varsm = names_model(variables@);
        let state = State::new(kb);
        let states = match term.run(state, fuel) {
            Err(e) => {
                return Err(e);
            },
            Ok(v) => v,
        };
        let ghost statesm = states_model(states@);
        let mut out: Vec<Bindings> = Vec::new();
        let nk = states.len();
        let mut k: usize = 0;
        proof {
            assert(statesm.skip(0) =~= statesm);
            assert(records_model(out@) =~= Seq::<Seq<(Seq<char>, ValueModel)>>::empty());
        }
        while k < nk
            invariant
                nk == states@.len(),
                k <= nk,
                statesm == states_model(states@),
                varsm == names_model(variables@),
                project_all_spec(statesm, varsm) == records_model(out@) + project_all_spec(
                    statesm.skip(k as int),
                    varsm,
                ),
            decreases nk - k,
        {
            proof {
                assert(statesm.skip(k as int)[0] == statesm[k as int]);
                assert(statesm[k as int] == states@[k as int]@);
                assert(statesm.skip(k as int).drop_first() =~= statesm.skip(k as int + 1));
            }
            let ghost before = records_model(out@);
            let rec = project(&states[k], &variables);
            let ghost recm = rec@;
            out.push(rec);
            proof {
                assert(records_model(out@) =~= before.push(recm));
                assert(before.push(recm) =~= before + seq![recm]);
                assert(records_model(out@) + project_all_spec(statesm.skip(k as int + 1), varsm)
                    =~= before + (seq![recm] + project_all_spec(
                    statesm.skip(k as int + 1),
                    varsm,
                )));
            }
            k += 1;
        }
        proof {
            assert(statesm.skip(nk as int).len() == 0);
            assert(records_model(out@) + Seq::<Seq<(Seq<char>, ValueModel)>>::empty()
                =~= records_model(out@));
        }
        Ok(out)
    }

    /// Run the query to completion under the default depth budget.
    pub fn run(self) -> (r: Result<Vec<Bindings>, EvalError>)
        ensures
            ({
                let spec_r = query_spec(
                    self.kb@,
                    names_model(self.variables@),
                    self.term@,
                    DEFAULT_FUEL as nat,
                );
                match r {
                    Ok(v) => spec_r == Ok::<Seq<Seq<(Seq<char>, ValueModel)>>, EvalError>(records_model(v@)),
                    Err(e) => spec_r == Err::<Seq<Seq<(Seq<char>, ValueModel)>>, EvalError>(e),
                }
            }),
    {
        self.run_with_fuel(DEFAULT_FUEL)
    }
}

} // verus!
