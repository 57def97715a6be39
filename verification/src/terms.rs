//! The term/value model: the tagged data representing logical entities
//! (variables, booleans, calls, compound operations, instance patterns, ...),
//! together with its mathematical model, structural equality and structural
//! copying.
//!
//! A `Term` is immutable once constructed and carries a flag marking it as
//! freshly synthesized; the flag distinguishes a variable's self-binding
//! (meaning "unbound") from a binding to another term.

use vstd::prelude::*;

verus! {

/// An owned name string identifying a variable or a rule.
pub struct Symbol(pub String);

/// A named logical placeholder, optionally tagged with a provisional class
/// constraint discovered by `isa`.
pub struct Variable {
    pub name: Symbol,
    pub type_info: Option<Symbol>,
}

/// An invocation of a named rule group with argument terms.
pub struct Call {
    pub name: Symbol,
    pub args: Vec<Term>,
}

/// The operators of compound operations. `Unify` and `Eq` are synonyms and
/// `And` is conjunction; the remaining operators are reserved extension
/// points whose evaluation is rejected explicitly.
#[derive(Clone, Copy, PartialEq, Eq, Structural, Debug)]
pub enum Operator {
    Unify,
    Eq,
    And,
    Or,
    In,
    Dot,
}

/// A compound operation over argument terms.
pub struct Operation {
    pub operator: Operator,
    pub args: Vec<Term>,
}

/// A class-tag pattern ("is an instance of class `tag`"), with literal
/// fields that this core does not yet interpret.
pub struct InstanceLiteral {
    pub tag: Symbol,
    pub fields: Vec<(Symbol, Term)>,
}

/// The closed tagged union of logical data kinds. Only `Boolean`,
/// `Variable`, `Call`, `Expression` and `InstanceLiteral` participate in the
/// resolution algorithms; the remaining kinds are structurally present but
/// carry no resolution semantics yet.
pub enum Value {
    Number(i64),
    Str(String),
    Boolean(bool),
    Variable(Variable),
    Call(Call),
    Expression(Operation),
    InstanceLiteral(InstanceLiteral),
    List(Vec<Term>),
    Dictionary(Vec<(Symbol, Term)>),
    RestVariable(Symbol),
    ExternalInstance(u64),
}

/// An immutable node wrapping a `Value`, used as the unit of unification.
pub struct Term {
    pub value: Value,
    pub synthesized: bool,
}

/// Mathematical model of a `Variable`.
pub ghost struct VariableModel {
    pub name: Seq<char>,
    pub type_info: Option<Seq<char>>,
}

/// Mathematical model of a `Call`.
pub ghost struct CallModel {
    pub name: Seq<char>,
    pub args: Seq<TermModel>,
}

/// Mathematical model of an `Operation`.
pub ghost struct OperationModel {
    pub operator: Operator,
    pub args: Seq<TermModel>,
}

/// Mathematical model of an `InstanceLiteral`.
pub ghost struct InstanceLiteralModel {
    pub tag: Seq<char>,
    pub fields: Seq<(Seq<char>, TermModel)>,
}

/// Mathematical model of a `Value`.
pub ghost enum ValueModel {
    Number(int),
    Str(Seq<char>),
    Boolean(bool),
    Variable(VariableModel),
    Call(CallModel),
    Expression(OperationModel),
    InstanceLiteral(InstanceLiteralModel),
    List(Seq<TermModel>),
    Dictionary(Seq<(Seq<char>, TermModel)>),
    RestVariable(Seq<char>),
    ExternalInstance(int),
}

/// Mathematical model of a `Term`.
pub ghost struct TermModel {
    pub value: ValueModel,
    pub synthesized: bool,
}

impl View for Symbol {
    type V = Seq<char>;

    open spec fn view(&self) -> Seq<char> {
        self.0@
    }
}

pub open spec fn var_model(v: Variable) -> VariableModel {
    VariableModel {
        name: v.name@,
        type_info: match v.type_info {
            Some(s) => Some(s@),
            None => None,
        },
    }
}

pub open spec fn terms_model(ts: Seq<Term>) -> Seq<TermModel>
    decreases ts,
{
    if ts.len() == 0 {
        Seq::empty()
    } else {
        seq![term_model(ts[0])] + terms_model(ts.drop_first())
    }
}

pub open spec fn fields_model(fs: Seq<(Symbol, Term)>) -> Seq<(Seq<char>, TermModel)>
    decreases fs,
{
    if fs.len() == 0 {
        Seq::empty()
    } else {
        seq![(fs[0].0@, term_model(fs[0].1))] + fields_model(fs.drop_first())
    }
}

pub open spec fn value_model(v: Value) -> ValueModel
    decreases v,
{
    match v {
        Value::Number(n) => ValueModel::Number(n as int),
        Value::Str(s) => ValueModel::Str(s@),
        Value::Boolean(b) => ValueModel::Boolean(b),
        Value::Variable(va) => ValueModel::Variable(var_model(va)),
        Value::Call(c) => ValueModel::Call(CallModel { name: c.name@, args: terms_model(c.args@) }),
        Value::Expression(o) => ValueModel::Expression(
            OperationModel { operator: o.operator, args: terms_model(o.args@) },
        ),
        Value::InstanceLiteral(l) => ValueModel::InstanceLiteral(
            InstanceLiteralModel { tag: l.tag@, fields: fields_model(l.fields@) },
        ),
        Value::List(ts) => ValueModel::List(terms_model(ts@)),
        Value::Dictionary(fs) => ValueModel::Dictionary(fields_model(fs@)),
        Value::RestVariable(s) => ValueModel::RestVariable(s@),
        Value::ExternalInstance(id) => ValueModel::ExternalInstance(id as int),
    }
}

pub open spec fn term_model(t: Term) -> TermModel
    decreases t,
{
    TermModel { value: value_model(t.value), synthesized: t.synthesized }
}

impl View for Term {
    type V = TermModel;

    open spec fn view(&self) -> TermModel {
        term_model(*self)
    }
}

/// The length of a modelled term sequence, available wherever
/// `terms_model` appears.
pub broadcast proof fn lemma_terms_model_len(ts: Seq<Term>)
    ensures
        (#[trigger] terms_model(ts)).len() == ts.len(),
    decreases ts.len(),
{
    if ts.len() > 0 {
        lemma_terms_model_len(ts.drop_first());
    }
}

/// Indexing a modelled term sequence models the indexed term.
pub broadcast proof fn lemma_terms_model_index(ts: Seq<Term>, i: int)
    requires
        0 <= i < ts.len(),
    ensures
        #[trigger] terms_model(ts)[i] == term_model(ts[i]),
    decreases ts.len(),
{
    lemma_terms_model_len(ts);
    if i > 0 {
        lemma_terms_model_index(ts.drop_first(), i - 1);
    }
}

pub proof fn lemma_terms_model(ts: Seq<Term>)
    ensures
        terms_model(ts).len() == ts.len(),
        forall|i: int| 0 <= i < ts.len() ==> terms_model(ts)[i] == term_model(ts[i]),
    decreases ts.len(),
{
    if ts.len() > 0 {
        lemma_terms_model(ts.drop_first());
    }
}

pub proof fn lemma_fields_model(fs: Seq<(Symbol, Term)>)
    ensures
        fields_model(fs).len() == fs.len(),
        forall|i: int|
            0 <= i < fs.len() ==> fields_model(fs)[i] == (fs[i].0@, term_model(fs[i].1)),
    decreases fs.len(),
{
    if fs.len() > 0 {
        lemma_fields_model(fs.drop_first());
    }
}

impl Symbol {
    /// Structural copy.
    pub fn dup(&self) -> (r: Symbol)
        ensures
            r@ == self@,
    {
        Symbol(self.0.clone())
    }

    /// Structural equality of names.
    pub fn same(&self, other: &Symbol) -> (r: bool)
        ensures
            r == (self@ == other@),
    {
        self.0 == other.0
    }
}

impl Variable {
    /// An unconstrained variable of the given name.
    pub fn new(name: String) -> (r: Variable)
        ensures
            var_model(r) == (VariableModel { name: name@, type_info: None }),
    {
        Variable { name: Symbol(name), type_info: None }
    }

    /// Structural copy.
    pub fn dup(&self) -> (r: Variable)
        ensures
            var_model(r) == var_model(*self),
    {
        Variable {
            name: self.name.dup(),
            type_info: match &self.type_info {
                Some(s) => Some(s.dup()),
                None => None,
            },
        }
    }

    /// Structural equality.
    pub fn same(&self, other: &Variable) -> (r: bool)
        ensures
            r == (var_model(*self) == var_model(*other)),
    {
        if !self.name.same(&other.name) {
            return false;
        }
        match (&self.type_info, &other.type_info) {
            (None, None) => true,
            (Some(a), Some(b)) => a.same(b),
            _ => false,
        }
    }
}

impl Term {
    /// A term constructed at parse time.
    pub fn new(value: Value) -> (r: Term)
        ensures
            r@ == (TermModel { value: value_model(value), synthesized: false }),
    {
        Term { value, synthesized: false }
    }

    /// A term synthesized during unification.
    pub fn new_temporary(value: Value) -> (r: Term)
        ensures
            r@ == (TermModel { value: value_model(value), synthesized: true }),
    {
        Term { value, synthesized: true }
    }

    /// The wrapped value.
    pub fn value(&self) -> (r: &Value)
        ensures
            r == &self.value,
    {
        &self.value
    }

    /// A term with the same provenance flag but a new value.
    pub fn clone_with_value(&self, value: Value) -> (r: Term)
        ensures
            r@ == (TermModel { value: value_model(value), synthesized: self@.synthesized }),
    {
        Term { value, synthesized: self.synthesized }
    }
}

/// Structural equality of terms, including the synthesized flag.
pub fn term_eq(a: &Term, b: &Term) -> (r: bool)
    ensures
        r == (a@ == b@),
    decreases *a,
{
    a.synthesized == b.synthesized && value_eq(&a.value, &b.value)
}

/// Structural equality of values.
pub fn value_eq(a: &Value, b: &Value) -> (r: bool)
    ensures
        r == (value_model(*a) == value_model(*b)),
    decreases *a,
{
    match (a, b) {
        (Value::Number(x), Value::Number(y)) => {
            let r = *x == *y;
            proof {
                assert(value_model(*a) == ValueModel::Number(*x as int));
                assert(value_model(*b) == ValueModel::Number(*y as int));
            }
            r
        },
        (Value::Str(x), Value::Str(y)) => {
            let r: bool = *x == *y;
            proof {
                assert(value_model(*a) == ValueModel::Str(x@));
                assert(value_model(*b) == ValueModel::Str(y@));
            }
            r
        },
        (Value::Boolean(x), Value::Boolean(y)) => *x == *y,
        (Value::Variable(x), Value::Variable(y)) => x.same(y),
        (Value::Call(x), Value::Call(y)) => x.name.same(&y.name) && terms_eq(&x.args, &y.args),
        (Value::Expression(x), Value::Expression(y)) => x.operator == y.operator && terms_eq(
            &x.args,
            &y.args,
        ),
        (Value::InstanceLiteral(x), Value::InstanceLiteral(y)) => x.tag.same(&y.tag) && fields_eq(
            &x.fields,
            &y.fields,
        ),
        (Value::List(x), Value::List(y)) => terms_eq(x, y),
        (Value::Dictionary(x), Value::Dictionary(y)) => fields_eq(x, y),
        (Value::RestVariable(x), Value::RestVariable(y)) => x.same(y),
        (Value::ExternalInstance(x), Value::ExternalInstance(y)) => *x == *y,
        _ => false,
    }
}

/// Structural equality of term sequences.
pub fn terms_eq(a: &Vec<Term>, b: &Vec<Term>) -> (r: bool)
    ensures
        r == (terms_model(a@) == terms_model(b@)),
    decreases a@,
{
    proof {
        lemma_terms_model(a@);
        lemma_terms_model(b@);
    }
    if a.len() != b.len() {
        return false;
    }
    let n = a.len();
    let mut i: usize = 0;
    while i < n
        invariant
            n == a@.len() == b@.len(),
            i <= n,
            forall|j: int| 0 <= j < i ==> term_model(a@[j]) == term_model(b@[j]),
        decreases n - i,
    {
        if !term_eq(&a[i], &b[i]) {
            proof {
                lemma_terms_model(a@);
                lemma_terms_model(b@);
                assert(terms_model(a@)[i as int] != terms_model(b@)[i as int]);
            }
            return false;
        }
        i += 1;
    }
    proof {
        assert(terms_model(a@) =~= terms_model(b@));
    }
    true
}

/// Structural equality of keyed field sequences.
pub fn fields_eq(a: &Vec<(Symbol, Term)>, b: &Vec<(Symbol, Term)>) -> (r: bool)
    ensures
        r == (fields_model(a@) == fields_model(b@)),
    decreases a@,
{
    proof {
        lemma_fields_model(a@);
        lemma_fields_model(b@);
    }
    if a.len() != b.len() {
        return false;
    }
    let n = a.len();
    let mut i: usize = 0;
    while i < n
        invariant
            n == a@.len() == b@.len(),
            i <= n,
            forall|j: int|
                0 <= j < i ==> (a@[j].0@, term_model(a@[j].1)) == (b@[j].0@, term_model(b@[j].1)),
        decreases n - i,
    {
        if !a[i].0.same(&b[i].0) || !term_eq(&a[i].1, &b[i].1) {
            proof {
                lemma_fields_model(a@);
                lemma_fields_model(b@);
                assert(fields_model(a@)[i as int] != fields_model(b@)[i as int]);
            }
            return false;
        }
        i += 1;
    }
    proof {
        assert(fields_model(a@) =~= fields_model(b@));
    }
    true
}

/// Structural copy of a term; cloning never aliases mutable state.
pub fn term_dup(t: &Term) -> (r: Term)
    ensures
        r@ == t@,
    decreases *t,
{
    Term { value: value_dup(&t.value), synthesized: t.synthesized }
}

/// Structural copy of a value.
pub fn value_dup(v: &Value) -> (r: Value)
    ensures
        value_model(r) == value_model(*v),
    decreases *v,
{
    match v {
        Value::Number(n) => Value::Number(*n),
        Value::Str(s) => Value::Str(s.clone()),
        Value::Boolean(b) => Value::Boolean(*b),
        Value::Variable(va) => Value::Variable(va.dup()),
        Value::Call(c) => Value::Call(Call { name: c.name.dup(), args: terms_dup(&c.args) }),
        Value::Expression(o) => Value::Expression(
            Operation { operator: o.operator, args: terms_dup(&o.args) },
        ),
        Value::InstanceLiteral(l) => Value::InstanceLiteral(
            InstanceLiteral { tag: l.tag.dup(), fields: fields_dup(&l.fields) },
        ),
        Value::List(ts) => Value::List(terms_dup(ts)),
        Value::Dictionary(fs) => Value::Dictionary(fields_dup(fs)),
        Value::RestVariable(s) => Value::RestVariable(s.dup()),
        Value::ExternalInstance(id) => Value::ExternalInstance(*id),
    }
}

/// Structural copy of a term sequence.
pub fn terms_dup(ts: &Vec<Term>) -> (r: Vec<Term>)
    ensures
        terms_model(r@) == terms_model(ts@),
    decreases ts@,
{
    let n = ts.len();
    let mut r: Vec<Term> = Vec::new();
    let mut i: usize = 0;
    while i < n
        invariant
            n == ts@.len(),
            i <= n,
            r@.len() == i,
            forall|j: int| 0 <= j < i ==> term_model(r@[j]) == term_model(ts@[j]),
        decreases n - i,
    {
        let d = term_dup(&ts[i]);
        r.push(d);
        i += 1;
    }
    proof {
        lemma_terms_model(r@);
        lemma_terms_model(ts@);
        assert(terms_model(r@) =~= terms_model(ts@));
    }
    r
}

/// Structural copy of a keyed field sequence.
pub fn fields_dup(fs: &Vec<(Symbol, Term)>) -> (r: Vec<(Symbol, Term)>)
    ensures
        fields_model(r@) == fields_model(fs@),
    decreases fs@,
{
    let n = fs.len();
    let mut r: Vec<(Symbol, Term)> = Vec::new();
    let mut i: usize = 0;
    while i < n
        invariant
            n == fs@.len(),
            i <= n,
            r@.len() == i,
            forall|j: int|
                0 <= j < i ==> (r@[j].0@, term_model(r@[j].1)) == (fs@[j].0@, term_model(fs@[j].1)),
        decreases n - i,
    {
        let k = fs[i].0.dup();
        let t = term_dup(&fs[i].1);
        r.push((k, t));
        i += 1;
    }
    proof {
        lemma_fields_model(r@);
        lemma_fields_model(fs@);
        assert(fields_model(r@) =~= fields_model(fs@));
    }
    r
}

} // verus!
