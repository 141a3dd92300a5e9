//! Runtime values and the environment that binds names to them.
use vstd::prelude::*;
use crate::ast::{clone_stmts, stmts_view, Stmt, StmtView};
use crate::text::{clone_names, names_view};

verus! {

/// A runtime value. A number is the bit pattern of its value; a function
/// owns its parameter names and its body.
#[derive(Debug, PartialEq)]
pub enum Value {
    Number(u64),
    String(String),
    Function { params: Vec<String>, body: Vec<Stmt> },
}

/// The view of a [`Value`].
pub ghost enum ValueView {
    Number(u64),
    String(Seq<char>),
    Function { params: Seq<Seq<char>>, body: Seq<StmtView> },
}

impl View for Value {
    type V = ValueView;

    open spec fn view(&self) -> ValueView {
        match self {
            Value::Number(n) => ValueView::Number(*n),
            Value::String(s) => ValueView::String(s@),
            Value::Function { params, body } => ValueView::Function {
                params: names_view(params@),
                body: stmts_view(body@),
            },
        }
    }
}

impl Clone for Value {
    fn clone(&self) -> (copy: Self)
        ensures
            copy@ == self@,
    {
        match self {
            Value::Number(n) => Value::Number(*n),
            Value::String(s) => Value::String(s.clone()),
            Value::Function { params, body } => Value::Function {
                params: clone_names(params),
                body: clone_stmts(body),
            },
        }
    }
}

/// The view of an environment: a map from names to values.
pub type EnvView = Map<Seq<char>, ValueView>;

/// One name and the value bound to it.
#[derive(Debug)]
pub struct Binding {
    pub name: String,
    pub value: Value,
}

/// A mapping from names to values, with one namespace for variables and
/// functions. Binding a name that is bound already replaces its value.
#[derive(Debug)]
pub struct Env {
    bindings: Vec<Binding>,
}

/// No name stands twice among `bindings`.
pub open spec fn distinct_names(bindings: Seq<Binding>) -> bool {
    forall|i: int, j: int|
        0 <= i < j < bindings.len() ==> bindings[i].name@ != bindings[j].name@
}

/// Whether some binding of `bindings` has the name `name`.
pub open spec fn binds(bindings: Seq<Binding>, name: Seq<char>) -> bool {
    exists|i: int| 0 <= i < bindings.len() && #[trigger] bindings[i].name@ == name
}

/// The place of a binding named `name` among `bindings`.
pub open spec fn place_of(bindings: Seq<Binding>, name: Seq<char>) -> int {
    choose|i: int| 0 <= i < bindings.len() && #[trigger] bindings[i].name@ == name
}

/// The map that `bindings` stand for: each name with the value beside it.
pub open spec fn bindings_map(bindings: Seq<Binding>) -> EnvView {
    Map::new(
        |name: Seq<char>| binds(bindings, name),
        |name: Seq<char>| bindings[place_of(bindings, name)].value@,
    )
}

/// Among distinct names, the binding at `i` is the one that its name maps
/// to.
pub proof fn lemma_binding_found(bindings: Seq<Binding>, i: int)
    requires
        distinct_names(bindings),
        0 <= i < bindings.len(),
    ensures
        bindings_map(bindings).contains_key(bindings[i].name@),
        bindings_map(bindings)[bindings[i].name@] == bindings[i].value@,
{
    let name = bindings[i].name@;
    let j = place_of(bindings, name);
    assert(0 <= j < bindings.len() && bindings[j].name@ == name);
    if i < j {
        assert(bindings[i].name@ != bindings[j].name@);
    }
    if j < i {
        assert(bindings[j].name@ != bindings[i].name@);
    }
}

/// Replacing the value beside a name replaces what the name maps to.
pub proof fn lemma_binding_replaced(bindings: Seq<Binding>, i: int, binding: Binding)
    requires
        distinct_names(bindings),
        0 <= i < bindings.len(),
        binding.name@ == bindings[i].name@,
    ensures
        distinct_names(bindings.update(i, binding)),
        bindings_map(bindings.update(i, binding)) == bindings_map(bindings).insert(
            binding.name@,
            binding.value@,
        ),
{
    let after = bindings.update(i, binding);
    assert forall|a: int, b: int| 0 <= a < b < after.len() implies after[a].name@
        != after[b].name@ by {
        assert(after[a].name@ == bindings[a].name@);
        assert(after[b].name@ == bindings[b].name@);
    }
    let expected = bindings_map(bindings).insert(binding.name@, binding.value@);
    assert forall|name: Seq<char>| bindings_map(after).contains_key(name) implies #[trigger]
        expected.contains_key(name) by {
        let k = place_of(after, name);
        assert(bindings[k].name@ == name);
    }
    assert forall|name: Seq<char>| #[trigger] expected.contains_key(name) implies bindings_map(
        after,
    ).contains_key(name) by {
        if name == binding.name@ {
            assert(after[i].name@ == name);
        } else {
            let k = place_of(bindings, name);
            assert(after[k].name@ == name);
        }
    }
    assert forall|name: Seq<char>| #[trigger] expected.contains_key(name) implies bindings_map(
        after,
    )[name] == expected[name] by {
        let k = place_of(after, name);
        assert(0 <= k < after.len() && after[k].name@ == name);
        lemma_binding_found(after, k);
        if name != binding.name@ {
            assert(k != i);
            lemma_binding_found(bindings, k);
        }
    }
    assert(bindings_map(after) =~= expected);
}

/// Adding a binding with a new name adds the name to the map.
pub proof fn lemma_binding_added(bindings: Seq<Binding>, binding: Binding)
    requires
        distinct_names(bindings),
        !binds(bindings, binding.name@),
    ensures
        distinct_names(bindings.push(binding)),
        bindings_map(bindings.push(binding)) == bindings_map(bindings).insert(
            binding.name@,
            binding.value@,
        ),
{
    let after = bindings.push(binding);
    let n = bindings.len() as int;
    assert forall|a: int, b: int| 0 <= a < b < after.len() implies after[a].name@
        != after[b].name@ by {
        if b < n {
            assert(after[a].name@ == bindings[a].name@ && after[b].name@ == bindings[b].name@);
        } else {
            assert(after[a].name@ == bindings[a].name@);
        }
    }
    let expected = bindings_map(bindings).insert(binding.name@, binding.value@);
    assert forall|name: Seq<char>| bindings_map(after).contains_key(name) implies #[trigger]
        expected.contains_key(name) by {
        let k = place_of(after, name);
        if k < n {
            assert(bindings[k].name@ == name);
        }
    }
    assert forall|name: Seq<char>| #[trigger] expected.contains_key(name) implies bindings_map(
        after,
    ).contains_key(name) by {
        if name == binding.name@ {
            assert(after[n].name@ == name);
        } else {
            let k = place_of(bindings, name);
            assert(after[k].name@ == name);
        }
    }
    assert forall|name: Seq<char>| #[trigger] expected.contains_key(name) implies bindings_map(
        after,
    )[name] == expected[name] by {
        let k = place_of(after, name);
        assert(0 <= k < after.len() && after[k].name@ == name);
        lemma_binding_found(after, k);
        if name != binding.name@ {
            assert(k < n);
            lemma_binding_found(bindings, k);
        }
    }
    assert(bindings_map(after) =~= expected);
}

impl View for Env {
    type V = EnvView;

    closed spec fn view(&self) -> EnvView {
        bindings_map(self.bindings@)
    }
}

impl Env {
    /// The invariant of an environment: no name is bound twice.
    pub closed spec fn wf(&self) -> bool {
        distinct_names(self.bindings@)
    }

    /// An environment that binds nothing.
    pub fn new() -> (env: Env)
        ensures
            env.wf(),
            env@ == Map::<Seq<char>, ValueView>::empty(),
    {
        let env = Env { bindings: Vec::new() };
        assert(env@ =~= Map::<Seq<char>, ValueView>::empty());
        env
    }

    /// Where `name` is bound, if it is.
    fn find(&self, name: &String) -> (r: Option<usize>)
        ensures
            match r {
                Some(i) => i < self.bindings.len() && self.bindings@[i as int].name@ == name@,
                None => !binds(self.bindings@, name@),
            },
    {
        let mut i: usize = 0;
        while i < self.bindings.len()
            invariant
                i <= self.bindings.len(),
                forall|j: int| 0 <= j < i ==> self.bindings@[j].name@ != name@,
            decreases self.bindings.len() - i,
        {
            if self.bindings[i].name == *name {
                return Some(i);
            }
            i += 1;
        }
        None
    }

    /// The value bound to `name`, if there is one.
    pub fn get(&self, name: &String) -> (r: Option<&Value>)
        requires
            self.wf(),
        ensures
            match r {
                Some(value) => self@.contains_key(name@) && self@[name@] == value@,
                None => !self@.contains_key(name@),
            },
    {
        match self.find(name) {
            Some(i) => {
                proof {
                    lemma_binding_found(self.bindings@, i as int);
                }
                Some(&self.bindings[i].value)
            },
            None => None,
        }
    }

    /// Binds `name` to `value`, in place of what `name` was bound to.
    pub fn insert(&mut self, name: String, value: Value)
        requires
            old(self).wf(),
        ensures
            final(self).wf(),
            final(self)@ == old(self)@.insert(name@, value@),
    {
        let binding = Binding { name, value };
        match self.find(&binding.name) {
            Some(i) => {
                proof {
                    lemma_binding_replaced(self.bindings@, i as int, binding);
                }
                self.bindings.set(i, binding);
            },
            None => {
                proof {
                    lemma_binding_added(self.bindings@, binding);
                }
                self.bindings.push(binding);
            },
        }
    }
}

impl Clone for Env {
    /// An independent copy: binding a name in one leaves the other as it
    /// was.
    fn clone(&self) -> (copy: Self)
        ensures
            self.wf() ==> copy.wf() && copy@ == self@,
    {
        let mut bindings: Vec<Binding> = Vec::new();
        let mut i: usize = 0;
        while i < self.bindings.len()
            invariant
                i <= self.bindings.len(),
                bindings.len() == i,
                forall|j: int|
                    0 <= j < i ==> bindings@[j].name@ == self.bindings@[j].name@ && bindings@[j].value@
                        == self.bindings@[j].value@,
            decreases self.bindings.len() - i,
        {
            let binding = &self.bindings[i];
            bindings.push(Binding { name: binding.name.clone(), value: binding.value.clone() });
            i += 1;
        }
        let copy = Env { bindings };
        proof {
            if self.wf() {
                lemma_same_bindings(self.bindings@, copy.bindings@);
            }
        }
        copy
    }
}

/// Bindings with the same distinct names and the same values, place by
/// place, stand for the same map.
pub proof fn lemma_same_bindings(a: Seq<Binding>, b: Seq<Binding>)
    requires
        distinct_names(a),
        a.len() == b.len(),
        forall|j: int| 0 <= j < a.len() ==> a[j].name@ == b[j].name@ && a[j].value@ == b[j].value@,
    ensures
        distinct_names(b),
        bindings_map(a) == bindings_map(b),
{
    assert forall|i: int, j: int| 0 <= i < j < b.len() implies b[i].name@ != b[j].name@ by {
        assert(a[i].name@ != a[j].name@);
    }
    assert forall|name: Seq<char>| binds(a, name) == binds(b, name) by {
        if binds(a, name) {
            let k = place_of(a, name);
            assert(b[k].name@ == name);
        }
        if binds(b, name) {
            let k = place_of(b, name);
            assert(a[k].name@ == name);
        }
    }
    assert forall|name: Seq<char>| binds(a, name) implies bindings_map(a)[name] == bindings_map(
        b,
    )[name] by {
        let k = place_of(a, name);
        assert(0 <= k < a.len() && a[k].name@ == name);
        lemma_binding_found(a, k);
        lemma_binding_found(b, k);
    }
    assert(bindings_map(a) =~= bindings_map(b));
}

} // verus!
