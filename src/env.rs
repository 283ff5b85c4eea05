//! Runtime values and the environment: a stack of lexical scopes.
use vstd::prelude::*;

verus! {

/// A runtime value. A number is held as the bit pattern of an IEEE-754
/// double; the arithmetic on it is an implementation of `Arithmetic`.
#[derive(Debug)]
pub enum EvaluationValue {
    Nil,
    Number(u64),
    Str(String),
    Logical(bool),
}

pub enum ValueV {
    Nil,
    Number(u64),
    Str(Seq<char>),
    Logical(bool),
}

impl View for EvaluationValue {
    type V = ValueV;

    open spec fn view(&self) -> ValueV {
        match self {
            EvaluationValue::Nil => ValueV::Nil,
            EvaluationValue::Number(n) => ValueV::Number(*n),
            EvaluationValue::Str(s) => ValueV::Str(s@),
            EvaluationValue::Logical(b) => ValueV::Logical(*b),
        }
    }
}

impl EvaluationValue {
    /// A copy of the value.
    pub fn copy(&self) -> (r: EvaluationValue)
        ensures
            r@ == self@,
    {
        match self {
            EvaluationValue::Nil => EvaluationValue::Nil,
            EvaluationValue::Number(n) => EvaluationValue::Number(*n),
            EvaluationValue::Str(s) => EvaluationValue::Str(s.clone()),
            EvaluationValue::Logical(b) => EvaluationValue::Logical(*b),
        }
    }
}

/// A scope maps names to values.
pub type ScopeV = Map<Seq<char>, ValueV>;

/// The value of `name`: the binding in the innermost scope that has one.
pub open spec fn lookup(scopes: Seq<ScopeV>, name: Seq<char>) -> Option<ValueV>
    decreases scopes.len(),
{
    if scopes.len() == 0 {
        None
    } else if scopes.last().contains_key(name) {
        Some(scopes.last()[name])
    } else {
        lookup(scopes.drop_last(), name)
    }
}

/// The scopes after `name` is set to `v` in the innermost scope that binds
/// it; `None` where no scope does.
pub open spec fn assign(scopes: Seq<ScopeV>, name: Seq<char>, v: ValueV) -> Option<Seq<ScopeV>>
    decreases scopes.len(),
{
    if scopes.len() == 0 {
        None
    } else if scopes.last().contains_key(name) {
        Some(scopes.drop_last().push(scopes.last().insert(name, v)))
    } else {
        match assign(scopes.drop_last(), name, v) {
            Some(inner) => Some(inner.push(scopes.last())),
            None => None,
        }
    }
}

/// The scopes after `name` is bound to `v` in the innermost scope, created
/// or shadowing.
pub open spec fn declare(scopes: Seq<ScopeV>, name: Seq<char>, v: ValueV) -> Seq<ScopeV> {
    scopes.drop_last().push(scopes.last().insert(name, v))
}

pub proof fn lemma_assign_len(scopes: Seq<ScopeV>, name: Seq<char>, v: ValueV)
    ensures
        assign(scopes, name, v) is Some ==> assign(scopes, name, v)->0.len() == scopes.len(),
    decreases scopes.len(),
{
    if scopes.len() > 0 && !scopes.last().contains_key(name) {
        lemma_assign_len(scopes.drop_last(), name, v);
    }
}

/// One scope: its bindings, each name at most once.
pub struct Scope {
    bindings: Vec<(String, EvaluationValue)>,
}

/// A stack of scopes; the first is the global scope.
pub struct Environment {
    scopes: Vec<Scope>,
}

pub open spec fn bindings_view(b: Seq<(String, EvaluationValue)>) -> ScopeV
    decreases b.len(),
{
    if b.len() == 0 {
        Map::empty()
    } else {
        bindings_view(b.drop_last()).insert(b.last().0@, b.last().1@)
    }
}

impl View for Scope {
    type V = ScopeV;

    closed spec fn view(&self) -> ScopeV {
        bindings_view(self.bindings@)
    }
}

impl View for Environment {
    type V = Seq<ScopeV>;

    closed spec fn view(&self) -> Seq<ScopeV> {
        Seq::new(self.scopes@.len(), |i: int| self.scopes@[i]@)
    }
}

proof fn lemma_bindings_find(b: Seq<(String, EvaluationValue)>, name: Seq<char>, i: int)
    requires
        0 <= i < b.len(),
        b[i].0@ == name,
        forall|j: int| i < j < b.len() ==> b[j].0@ != name,
    ensures
        bindings_view(b).contains_key(name),
        bindings_view(b)[name] == b[i].1@,
    decreases b.len(),
{
    if i < b.len() - 1 {
        lemma_bindings_find(b.drop_last(), name, i);
    }
}

proof fn lemma_bindings_absent(b: Seq<(String, EvaluationValue)>, name: Seq<char>)
    requires
        forall|j: int| 0 <= j < b.len() ==> b[j].0@ != name,
    ensures
        !bindings_view(b).contains_key(name),
    decreases b.len(),
{
    if b.len() > 0 {
        lemma_bindings_absent(b.drop_last(), name);
    }
}

proof fn lemma_bindings_update(
    b: Seq<(String, EvaluationValue)>,
    i: int,
    name: String,
    v: EvaluationValue,
)
    requires
        0 <= i < b.len(),
        b[i].0@ == name@,
        forall|j: int| i < j < b.len() ==> b[j].0@ != name@,
    ensures
        bindings_view(b.update(i, (name, v))) == bindings_view(b).insert(name@, v@),
    decreases b.len(),
{
    if i < b.len() - 1 {
        lemma_bindings_update(b.drop_last(), i, name, v);
        assert(b.update(i, (name, v)).drop_last() =~= b.drop_last().update(i, (name, v)));
        assert(bindings_view(b.update(i, (name, v))) =~= bindings_view(b).insert(name@, v@));
    } else {
        assert(b.update(i, (name, v)).drop_last() =~= b.drop_last());
        assert(bindings_view(b.update(i, (name, v))) =~= bindings_view(b).insert(name@, v@));
    }
}

impl Scope {
    /// The position of the last binding of `name`, if any.
    fn find(&self, name: &String) -> (r: Option<usize>)
        ensures
            match r {
                Some(i) => i < self.bindings@.len() && self.bindings@[i as int].0@ == name@
                    && forall|j: int| i < j < self.bindings@.len() ==> self.bindings@[j].0@ != name@,
                None => forall|j: int| 0 <= j < self.bindings@.len() ==> self.bindings@[j].0@ != name@,
            },
    {
        let mut i = self.bindings.len();
        while i > 0
            invariant
                i <= self.bindings@.len(),
                forall|j: int| i <= j < self.bindings@.len() ==> self.bindings@[j].0@ != name@,
            decreases i,
        {
            if self.bindings[i - 1].0 == *name {
                return Some(i - 1);
            }
            i = i - 1;
        }
        None
    }

    fn get(&self, name: &String) -> (r: Option<EvaluationValue>)
        ensures
            match r {
                Some(v) => self@.contains_key(name@) && self@[name@] == v@,
                None => !self@.contains_key(name@),
            },
    {
        match self.find(name) {
            Some(i) => {
                proof {
                    lemma_bindings_find(self.bindings@, name@, i as int);
                }
                Some(self.bindings[i].1.copy())
            },
            None => {
                proof {
                    lemma_bindings_absent(self.bindings@, name@);
                }
                None
            },
        }
    }

    fn has(&self, name: &String) -> (r: bool)
        ensures
            r == self@.contains_key(name@),
    {
        match self.get(name) {
            Some(_) => true,
            None => false,
        }
    }

    fn set(&mut self, name: String, v: EvaluationValue)
        ensures
            final(self)@ == old(self)@.insert(name@, v@),
    {
        match self.find(&name) {
            Some(i) => {
                proof {
                    lemma_bindings_update(self.bindings@, i as int, name, v);
                }
                self.bindings.set(i, (name, v));
            },
            None => {
                let ghost b = self.bindings@;
                self.bindings.push((name, v));
                assert(self.bindings@.drop_last() =~= b);
            },
        }
    }
}

impl Environment {
    /// Well-formedness: there is at least the global scope.
    pub closed spec fn wf(&self) -> bool {
        self.scopes@.len() >= 1
    }

    /// An environment with an empty global scope.
    pub fn new() -> (e: Environment)
        ensures
            e.wf(),
            e@ == seq![Map::<Seq<char>, ValueV>::empty()],
    {
        let mut scopes: Vec<Scope> = Vec::new();
        scopes.push(Scope { bindings: Vec::new() });
        let e = Environment { scopes };
        assert(e@ =~= seq![Map::<Seq<char>, ValueV>::empty()]);
        e
    }

    pub proof fn lemma_wf_len(&self)
        ensures
            self.wf() <==> self@.len() >= 1,
    {
    }

    /// The value of `name`, looked up from the innermost scope outward.
    pub fn get(&self, name: &String) -> (r: Option<EvaluationValue>)
        ensures
            match r {
                Some(v) => lookup(self@, name@) == Some(v@),
                None => lookup(self@, name@) is None,
            },
    {
        let mut i = self.scopes.len();
        while i > 0
            invariant
                i <= self.scopes@.len(),
                forall|j: int| i <= j < self@.len() ==> !self@[j].contains_key(name@),
            decreases i,
        {
            match self.scopes[i - 1].get(name) {
                Some(v) => {
                    proof {
                        lemma_lookup_at(self@, name@, i - 1);
                    }
                    return Some(v);
                },
                None => {},
            }
            i = i - 1;
        }
        proof {
            lemma_lookup_absent(self@, name@);
        }
        None
    }

    /// Sets `name` in the innermost scope that binds it; false, with nothing
    /// changed, where none does.
    pub fn assign(&mut self, name: String, v: EvaluationValue) -> (r: bool)
        requires
            old(self).wf(),
        ensures
            final(self).wf(),
            final(self)@.len() == old(self)@.len(),
            r == (assign(old(self)@, name@, v@) is Some),
            r ==> final(self)@ == assign(old(self)@, name@, v@)->0,
            !r ==> final(self)@ == old(self)@,
    {
        let ghost s0 = self@;
        let mut i = self.scopes.len();
        let mut found = false;
        while i > 0 && !found
            invariant
                i <= self.scopes@.len(),
                self@ == s0,
                forall|j: int| i <= j < s0.len() ==> !s0[j].contains_key(name@),
                found ==> i > 0 && s0[i - 1].contains_key(name@),
            decreases i, if found { 0int } else { 1int },
        {
            if self.scopes[i - 1].has(&name) {
                found = true;
            } else {
                i = i - 1;
            }
        }
        if !found {
            proof {
                lemma_assign_absent(s0, name@, v@);
            }
            return false;
        }
        let k = i - 1;
        proof {
            lemma_assign_at(s0, name@, v@, k as int);
        }
        let mut scope = self.scopes.remove(k);
        scope.set(name, v);
        self.scopes.insert(k, scope);
        assert(self@ =~= s0.update(k as int, s0[k as int].insert(name@, v@)));
        true
    }

    /// Binds `name` to `v` in the innermost scope.
    pub fn declare(&mut self, name: String, v: EvaluationValue)
        requires
            old(self).wf(),
        ensures
            final(self).wf(),
            final(self)@.len() == old(self)@.len(),
            final(self)@ == declare(old(self)@, name@, v@),
    {
        let ghost s0 = self@;
        let ghost nv = name@;
        let ghost vv = v@;
        let k = self.scopes.len() - 1;
        let mut scope = self.scopes.remove(k);
        scope.set(name, v);
        self.scopes.insert(k, scope);
        assert(self@ =~= declare(s0, nv, vv));
    }

    /// Enters a new, empty innermost scope.
    pub fn push_scope(&mut self)
        requires
            old(self).wf(),
        ensures
            final(self).wf(),
            final(self)@ == old(self)@.push(Map::empty()),
    {
        let ghost s0 = self@;
        self.scopes.push(Scope { bindings: Vec::new() });
        assert(self@ =~= s0.push(Map::empty()));
    }

    /// Leaves the innermost scope; the global scope is never left.
    pub fn pop_scope(&mut self)
        requires
            old(self).wf(),
            old(self)@.len() >= 2,
        ensures
            final(self).wf(),
            final(self)@ == old(self)@.drop_last(),
    {
        let ghost s0 = self@;
        let _ = self.scopes.pop();
        assert(self@ =~= s0.drop_last());
    }
}

pub proof fn lemma_assign_absent(s: Seq<ScopeV>, name: Seq<char>, v: ValueV)
    requires
        forall|j: int| 0 <= j < s.len() ==> !s[j].contains_key(name),
    ensures
        assign(s, name, v) is None,
    decreases s.len(),
{
    if s.len() > 0 {
        lemma_assign_absent(s.drop_last(), name, v);
    }
}

pub proof fn lemma_assign_at(s: Seq<ScopeV>, name: Seq<char>, v: ValueV, k: int)
    requires
        0 <= k < s.len(),
        s[k].contains_key(name),
        forall|j: int| k < j < s.len() ==> !s[j].contains_key(name),
    ensures
        assign(s, name, v) == Some(s.update(k, s[k].insert(name, v))),
    decreases s.len(),
{
    if k == s.len() - 1 {
        assert(s.drop_last().push(s.last().insert(name, v)) =~= s.update(k, s[k].insert(name, v)));
    } else {
        lemma_assign_at(s.drop_last(), name, v, k);
        assert(s.drop_last().update(k, s[k].insert(name, v)).push(s.last()) =~= s.update(
            k,
            s[k].insert(name, v),
        ));
    }
}

pub proof fn lemma_lookup_at(s: Seq<ScopeV>, name: Seq<char>, k: int)
    requires
        0 <= k < s.len(),
        s[k].contains_key(name),
        forall|j: int| k < j < s.len() ==> !s[j].contains_key(name),
    ensures
        lookup(s, name) == Some(s[k][name]),
    decreases s.len(),
{
    if k < s.len() - 1 {
        lemma_lookup_at(s.drop_last(), name, k);
    }
}

pub proof fn lemma_lookup_absent(s: Seq<ScopeV>, name: Seq<char>)
    requires
        forall|j: int| 0 <= j < s.len() ==> !s[j].contains_key(name),
    ensures
        lookup(s, name) is None,
    decreases s.len(),
{
    if s.len() > 0 {
        lemma_lookup_absent(s.drop_last(), name);
    }
}

} // verus!
