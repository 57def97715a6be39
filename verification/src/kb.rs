//! The knowledge base: named groups of rules, consumed read-only by call
//! resolution. Rule storage, and the filtering/ordering policy behind
//! `get_applicable_rules`, belong to this collaborator; the resolution core
//! consumes whatever order it returns as its trial order. This store keeps
//! every rule of a group, in insertion order.

use vstd::prelude::*;

use crate::terms::{term_dup, term_model, Symbol, Term, TermModel};

verus! {

/// One formal parameter of a rule: the pattern a call argument must unify
/// with, and an optional specializer (an instance-pattern type constraint).
pub struct Parameter {
    pub parameter: Term,
    pub specializer: Option<Term>,
}

/// A named, parameterized goal body.
pub struct Rule {
    pub params: Vec<Parameter>,
    pub body: Term,
}

/// All rules sharing one name.
pub struct GenericRule {
    pub name: Symbol,
    pub rules: Vec<Rule>,
}

/// The store of rule groups, shared read-only with every query.
pub struct KnowledgeBase {
    pub rules: Vec<GenericRule>,
}

/// Mathematical model of a `Parameter`.
pub ghost struct ParameterModel {
    pub parameter: TermModel,
    pub specializer: Option<TermModel>,
}

/// Mathematical model of a `Rule`.
pub ghost struct RuleModel {
    pub params: Seq<ParameterModel>,
    pub body: TermModel,
}

/// Mathematical model of the knowledge base: the rule groups in store order.
pub ghost struct KbModel {
    pub groups: Seq<(Seq<char>, Seq<RuleModel>)>,
}

pub open spec fn param_model(p: Parameter) -> ParameterModel {
    ParameterModel {
        parameter: term_model(p.parameter),
        specializer: match p.specializer {
            Some(t) => Some(term_model(t)),
            None => None,
        },
    }
}

pub open spec fn params_model(ps: Seq<Parameter>) -> Seq<ParameterModel> {
    ps.map_values(|p: Parameter| param_model(p))
}

pub open spec fn rule_model(r: Rule) -> RuleModel {
    RuleModel { params: params_model(r.params@), body: term_model(r.body) }
}

pub open spec fn rules_model(rs: Seq<Rule>) -> Seq<RuleModel> {
    rs.map_values(|r: Rule| rule_model(r))
}

impl View for KnowledgeBase {
    type V = KbModel;

    open spec fn view(&self) -> KbModel {
        KbModel {
            groups: self.rules@.map_values(|g: GenericRule| (g.name@, rules_model(g.rules@))),
        }
    }
}

/// The rule group registered under `name`, if any: the first group of that
/// name in store order.
pub open spec fn lookup_group(kb: KbModel, name: Seq<char>) -> Option<Seq<RuleModel>>
    decreases kb.groups.len(),
{
    if kb.groups.len() == 0 {
        None
    } else if kb.groups[0].0 == name {
        Some(kb.groups[0].1)
    } else {
        lookup_group(KbModel { groups: kb.groups.drop_first() }, name)
    }
}

/// Structural copy of a parameter.
pub fn param_dup(p: &Parameter) -> (r: Parameter)
    ensures
        param_model(r) == param_model(*p),
{
    Parameter {
        parameter: term_dup(&p.parameter),
        specializer: match &p.specializer {
            Some(t) => Some(term_dup(t)),
            None => None,
        },
    }
}

/// Structural copy of a rule.
pub fn rule_dup(r: &Rule) -> (res: Rule)
    ensures
        rule_model(res) == rule_model(*r),
{
    let n = r.params.len();
    let mut params: Vec<Parameter> = Vec::new();
    let mut i: usize = 0;
    while i < n
        invariant
            n == r.params@.len(),
            i <= n,
            params@.len() == i,
            forall|j: int| 0 <= j < i ==> param_model(params@[j]) == param_model(r.params@[j]),
        decreases n - i,
    {
        let p = param_dup(&r.params[i]);
        params.push(p);
        i += 1;
    }
    let res = Rule { params, body: term_dup(&r.body) };
    proof {
        assert(params_model(res.params@) =~= params_model(r.params@));
    }
    res
}

impl KnowledgeBase {
    /// An empty knowledge base.
    pub fn new() -> (r: KnowledgeBase)
        ensures
            r@.groups == Seq::<(Seq<char>, Seq<RuleModel>)>::empty(),
    {
        let r = KnowledgeBase { rules: Vec::new() };
        proof {
            assert(r@.groups =~= Seq::<(Seq<char>, Seq<RuleModel>)>::empty());
        }
        r
    }

    /// The rule group registered under `name`, if any.
    pub fn get_generic_rule(&self, name: &Symbol) -> (r: Option<&GenericRule>)
        ensures
            match r {
                Some(g) => lookup_group(self@, name@) == Some(rules_model(g.rules@)),
                None => lookup_group(self@, name@) is None,
            },
    {
        let n = self.rules.len();
        let mut i: usize = 0;
        proof {
            assert(self@.groups.skip(0) =~= self@.groups);
        }
        while i < n
            invariant
                n == self.rules@.len(),
                i <= n,
                lookup_group(self@, name@) == lookup_group(
                    KbModel { groups: self@.groups.skip(i as int) },
                    name@,
                ),
                forall|j: int| 0 <= j < i ==> self@.groups[j].0 != name@,
            decreases n - i,
        {
            if self.rules[i].name.same(name) {
                return Some(&self.rules[i]);
            }
            proof {
                assert(self@.groups.skip(i as int).drop_first() =~= self@.groups.skip(i + 1));
            }
            i += 1;
        }
        proof {
            assert(self@.groups.skip(n as int).len() == 0);
        }
        None
    }
}

impl GenericRule {
    /// The ordered candidate rules this group offers for the given call
    /// arguments. Filtering and ordering policy is this store's
    /// responsibility; this store offers every rule, in insertion order.
    pub fn get_applicable_rules(&self, args: &Vec<Term>) -> (r: Vec<Rule>)
        ensures
            rules_model(r@) == rules_model(self.rules@),
    {
        let _ = args;
        let n = self.rules.len();
        let mut r: Vec<Rule> = Vec::new();
        let mut i: usize = 0;
        while i < n
            invariant
                n == self.rules@.len(),
                i <= n,
                r@.len() == i,
                forall|j: int| 0 <= j < i ==> rule_model(r@[j]) == rule_model(self.rules@[j]),
            decreases n - i,
        {
            let d = rule_dup(&self.rules[i]);
            r.push(d);
            i += 1;
        }
        proof {
            assert(rules_model(r@) =~= rules_model(self.rules@));
        }
        r
    }
}

} // verus!
