//! Binding frames and the walk / unify / isa algorithms.
//!
//! A `State` is one branch's substitution environment: a mapping from
//! variable name to term, plus a shared read-only handle to the knowledge
//! base. A binding whose stored term is structurally identical to the
//! variable term being dereferenced is a self-binding and means "unbound";
//! `walk`'s termination depends on recognizing it, so the convention is
//! preserved exactly. Dereference chains through distinct bound terms are
//! finite on every frame this engine constructs (bindings are only created
//! toward already-walked terms); `walk` dereferences through at most one
//! step per stored binding, which covers every such chain.

use vstd::prelude::*;

use crate::kb::KnowledgeBase;
use crate::terms::{
    term_dup, term_eq, term_model, value_eq, var_model, Symbol, Term, TermModel, Value,
    ValueModel, Variable, VariableModel,
};

verus! {

/// Mathematical model of a frame's bindings: name/term pairs in the order
/// they were recorded, later pairs shadowing earlier ones.
pub type FrameModel = Seq<(Seq<char>, TermModel)>;

/// The binding recorded for `name`, if any: the latest pair of that name.
pub open spec fn find_binding(s: FrameModel, name: Seq<char>) -> Option<TermModel>
    decreases s.len(),
{
    if s.len() == 0 {
        None
    } else if s.last().0 == name {
        Some(s.last().1)
    } else {
        find_binding(s.drop_last(), name)
    }
}

/// Dereference `t` through the bindings of `s`, taking at most `fuel`
/// steps. A non-variable, an unrecorded variable, and a self-binding all
/// stop the chain.
pub open spec fn walk_rec(s: FrameModel, t: TermModel, fuel: nat) -> TermModel
    decreases fuel,
{
    if fuel == 0 {
        t
    } else {
        match t.value {
            ValueModel::Variable(v) => match find_binding(s, v.name) {
                Some(b) => if b == t {
                    t
                } else {
                    walk_rec(s, b, (fuel - 1) as nat)
                },
                None => t,
            },
            _ => t,
        }
    }
}

/// Dereference `t` through the bindings of `s` to its most-resolved form.
/// One step more than the number of recorded bindings covers every chain of
/// distinct bindings.
pub open spec fn walk_spec(s: FrameModel, t: TermModel) -> TermModel {
    walk_rec(s, t, s.len() + 1)
}

/// `t` is its own most-resolved form under `s`: dereferencing it takes no
/// further step.
pub open spec fn fully_walked(s: FrameModel, t: TermModel) -> bool {
    match t.value {
        ValueModel::Variable(v) => match find_binding(s, v.name) {
            Some(b) => b == t,
            None => true,
        },
        _ => true,
    }
}

/// What `unify(l, r)` decides and how it extends the frame: walk both
/// sides; structurally equal values succeed with no new binding; otherwise
/// an unbound variable on either side (the left side preferred) is bound to
/// the other walked side's value, tagged as synthesized; otherwise fail
/// with the frame unmodified.
pub open spec fn unify_spec(s: FrameModel, l: TermModel, r: TermModel) -> (bool, FrameModel) {
    let lw = walk_spec(s, l);
    let rw = walk_spec(s, r);
    if lw.value == rw.value {
        (true, s)
    } else {
        match lw.value {
            ValueModel::Variable(v) => (
                true,
                s.push((v.name, TermModel { value: rw.value, synthesized: true })),
            ),
            _ => match rw.value {
                ValueModel::Variable(v) => (
                    true,
                    s.push((v.name, TermModel { value: lw.value, synthesized: true })),
                ),
                _ => (false, s),
            },
        }
    }
}

/// What `isa(l, r)` decides and how it extends the frame: walk both sides;
/// equal walked values succeed; a walked variable against an instance
/// pattern succeeds iff its provisional tag equals the pattern's tag, or,
/// when it carries none, optimistically rebinds the variable with the
/// pattern's tag recorded; everything else fails.
pub open spec fn isa_spec(s: FrameModel, l: TermModel, r: TermModel) -> (bool, FrameModel) {
    let lw = walk_spec(s, l);
    let rw = walk_spec(s, r);
    if lw.value == rw.value {
        (true, s)
    } else {
        match (lw.value, rw.value) {
            (ValueModel::Variable(v), ValueModel::InstanceLiteral(lit)) => match v.type_info {
                Some(tag) => (tag == lit.tag, s),
                None => (
                    true,
                    s.push(
                        (
                            v.name,
                            TermModel {
                                value: ValueModel::Variable(
                                    VariableModel { name: v.name, type_info: Some(lit.tag) },
                                ),
                                synthesized: lw.synthesized,
                            },
                        ),
                    ),
                ),
            },
            _ => (false, s),
        }
    }
}

/// Model of a bindings vector.
pub open spec fn frame_model(b: Seq<(String, Term)>) -> FrameModel {
    b.map_values(|p: (String, Term)| (p.0@, term_model(p.1)))
}

/// One resolution branch's substitution environment, with a shared
/// read-only knowledge base handle. Frames are forked by structural copy
/// whenever resolution branches; no frame is ever mutated by more than one
/// logical branch.
pub struct State<'a> {
    pub bindings: Vec<(String, Term)>,
    pub kb: &'a KnowledgeBase,
}

impl<'a> View for State<'a> {
    type V = FrameModel;

    open spec fn view(&self) -> FrameModel {
        frame_model(self.bindings@)
    }
}

impl<'a> State<'a> {
    /// A frame with empty bindings.
    pub fn new(kb: &'a KnowledgeBase) -> (r: State<'a>)
        ensures
            r@ == Seq::<(Seq<char>, TermModel)>::empty(),
            r.kb == kb,
    {
        let r = State { bindings: Vec::new(), kb };
        proof {
            assert(r@ =~= Seq::<(Seq<char>, TermModel)>::empty());
        }
        r
    }

    /// Fork this frame: a structural copy sharing the knowledge base
    /// handle.
    pub fn dup(&self) -> (r: State<'a>)
        ensures
            r@ == self@,
            r.kb == self.kb,
    {
        let n = self.bindings.len();
        let mut b: Vec<(String, Term)> = Vec::new();
        let mut i: usize = 0;
        while i < n
            invariant
                n == self.bindings@.len(),
                i <= n,
                b@.len() == i,
                forall|j: int|
                    0 <= j < i ==> (b@[j].0@, term_model(b@[j].1)) == (
                        self.bindings@[j].0@,
                        term_model(self.bindings@[j].1),
                    ),
            decreases n - i,
        {
            let k = self.bindings[i].0.clone();
            let t = term_dup(&self.bindings[i].1);
            b.push((k, t));
            i += 1;
        }
        let r = State { bindings: b, kb: self.kb };
        proof {
            assert(r@ =~= self@);
        }
        r
    }

    /// The knowledge base this frame reads.
    pub fn kb(&self) -> (r: &'a KnowledgeBase)
        ensures
            r == self.kb,
    {
        self.kb
    }

    /// Record a binding, shadowing any earlier binding of the same name.
    pub fn insert_binding(&mut self, name: String, t: Term)
        ensures
            final(self)@ == old(self)@.push((name@, t@)),
            final(self).kb == old(self).kb,
    {
        self.bindings.push((name, t));
        proof {
            assert(self@ =~= old(self)@.push((name@, t@)));
        }
    }

    /// The term bound to `name`, if any.
    pub fn get_binding(&self, name: &String) -> (r: Option<&Term>)
        ensures
            match r {
                Some(t) => find_binding(self@, name@) == Some(t@),
                None => find_binding(self@, name@) is None,
            },
    {
        let n = self.bindings.len();
        let mut i: usize = n;
        proof {
            assert(self@.take(n as int) =~= self@);
        }
        while i > 0
            invariant
                i <= n,
                n == self.bindings@.len(),
                find_binding(self@, name@) == find_binding(self@.take(i as int), name@),
            decreases i,
        {
            let j = i - 1;
            if self.bindings[j].0 == *name {
                return Some(&self.bindings[j].1);
            }
            proof {
                assert(self@.take(i as int).drop_last() =~= self@.take(j as int));
            }
            i = j;
        }
        None
    }

    /// Dereference `term` through this frame's bindings to its
    /// most-resolved form.
    pub fn walk(&self, term: Term) -> (r: Term)
        ensures
            r@ == walk_spec(self@, term@),
    {
        let ghost s = self@;
        let n = self.bindings.len();
        let mut cur = term;
        let mut steps: usize = 0;
        loop
            invariant
                steps <= n,
                n == self.bindings@.len(),
                s == self@,
                s.len() == n,
                walk_rec(s, term@, (n + 1) as nat) == walk_rec(s, cur@, (n + 1 - steps) as nat),
            decreases n - steps,
        {
            match &cur.value {
                Value::Variable(v) => {
                    match self.get_binding(&v.name.0) {
                        Some(b) => {
                            if term_eq(b, &cur) {
                                return cur;
                            }
                            let next = term_dup(b);
                            if steps == n {
                                proof {
                                    assert(walk_rec(s, cur@, 1nat) == walk_rec(s, b@, 0nat));
                                    assert(walk_rec(s, b@, 0nat) == b@);
                                }
                                return next;
                            }
                            cur = next;
                            steps += 1;
                        },
                        None => {
                            return cur;
                        },
                    }
                },
                _ => {
                    return cur;
                },
            }
        }
    }

    /// Make `left` and `right` equal by recording at most one variable
    /// binding, or fail leaving the frame unmodified.
    pub fn unify(&mut self, left: Term, right: Term) -> (r: bool)
        ensures
            ({
                let (ok, f) = unify_spec(old(self)@, left@, right@);
                r == ok && final(self)@ == f && final(self).kb == old(self).kb
            }),
    {
        let lw = self.walk(left);
        let rw = self.walk(right);
        if value_eq(&lw.value, &rw.value) {
            return true;
        }
        match lw.value {
            Value::Variable(v) => {
                let key = v.name.0;
                self.insert_binding(key, Term::new_temporary(rw.value));
                true
            },
            lv => match rw.value {
                Value::Variable(v) => {
                    let key = v.name.0;
                    self.insert_binding(key, Term::new_temporary(lv));
                    true
                },
                _ => false,
            },
        }
    }

    /// Provisional class-tag compatibility check between `left` and an
    /// instance pattern, optimistically tagging an unconstrained variable.
    pub fn isa(&mut self, left: Term, right: Term) -> (r: bool)
        ensures
            ({
                let (ok, f) = isa_spec(old(self)@, left@, right@);
                r == ok && final(self)@ == f && final(self).kb == old(self).kb
            }),
    {
        let lw = self.walk(left);
        let rw = self.walk(right);
        if value_eq(&lw.value, &rw.value) {
            return true;
        }
        match (&lw.value, &rw.value) {
            (Value::Variable(v), Value::InstanceLiteral(lit)) => match &v.type_info {
                Some(tag) => tag.same(&lit.tag),
                None => {
                    let tagged = tag_variable(v, &lit.tag);
                    let key = v.name.0.clone();
                    let bound = lw.clone_with_value(Value::Variable(tagged));
                    self.insert_binding(key, bound);
                    true
                },
            },
            _ => false,
        }
    }
}

/// The variable `v` with the provisional tag `tag` recorded.
fn tag_variable(v: &Variable, tag: &Symbol) -> (r: Variable)
    ensures
        var_model(r) == (VariableModel { name: var_model(*v).name, type_info: Some(tag@) }),
{
    Variable { name: v.name.dup(), type_info: Some(tag.dup()) }
}

} // verus!
