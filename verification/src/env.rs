//! The environment: a chain of scopes, each binding names to values.

use crate::lisp_expr::{Expr, LispExpr};
use vstd::prelude::*;

verus! {

/// One name with the value bound to it.
#[derive(Debug)]
struct Binding {
    name: String,
    value: LispExpr,
}

/// A scope of bindings with an optional enclosing scope.
///
/// A scope owns the scope it extends: [`Env::extend`] takes the parent in and
/// [`Env::into_parent`] gives it back unchanged. Within one scope no name
/// is bound twice.
#[derive(Debug)]
pub struct Env {
    parent: Option<Box<Env>>,
    vars: Vec<Binding>,
}

/// The bindings of one scope: each bound name with its value.
pub type Scope = Map<Seq<char>, Expr>;

/// The value that `name` resolves to in a chain of scopes, innermost first:
/// that of the first scope that binds it.
pub open spec fn lookup(scopes: Seq<Scope>, name: Seq<char>) -> Option<Expr>
    decreases scopes.len(),
{
    if scopes.len() == 0 {
        None
    } else if scopes[0].contains_key(name) {
        Some(scopes[0][name])
    } else {
        lookup(scopes.drop_first(), name)
    }
}

/// The chain with `name` bound to `value` in its innermost scope; the
/// enclosing scopes stay as they are.
pub open spec fn bind(scopes: Seq<Scope>, name: Seq<char>, value: Expr) -> Seq<Scope> {
    if scopes.len() == 0 {
        scopes
    } else {
        scopes.update(0, scopes[0].insert(name, value))
    }
}

/// A name resolves to what it was last bound to.
pub proof fn lemma_lookup_bound(scopes: Seq<Scope>, name: Seq<char>, value: Expr)
    requires
        scopes.len() > 0,
    ensures
        lookup(bind(scopes, name, value), name) == Some(value),
{
}

/// Binding a name changes what no other name resolves to.
pub proof fn lemma_lookup_other(scopes: Seq<Scope>, name: Seq<char>, value: Expr, other: Seq<char>)
    requires
        other != name,
    ensures
        lookup(bind(scopes, name, value), other) == lookup(scopes, other),
{
    if scopes.len() > 0 {
        assert(bind(scopes, name, value).drop_first() =~= scopes.drop_first());
    }
}

/// Binding a name leaves every enclosing scope as it was: a child never
/// writes to an ancestor.
pub proof fn lemma_bind_keeps_ancestors(scopes: Seq<Scope>, name: Seq<char>, value: Expr)
    requires
        scopes.len() > 0,
    ensures
        bind(scopes, name, value).drop_first() == scopes.drop_first(),
{
    assert(bind(scopes, name, value).drop_first() =~= scopes.drop_first());
}

/// Binding the same name to the same value twice is the same as once.
pub proof fn lemma_bind_idempotent(scopes: Seq<Scope>, name: Seq<char>, value: Expr)
    ensures
        bind(bind(scopes, name, value), name, value) == bind(scopes, name, value),
{
    if scopes.len() > 0 {
        assert(scopes[0].insert(name, value).insert(name, value) =~= scopes[0].insert(
            name,
            value,
        ));
        assert(bind(bind(scopes, name, value), name, value) =~= bind(scopes, name, value));
    }
}

/// In a new scope in front of a chain, every name resolves as it does in
/// the chain.
pub proof fn lemma_lookup_through_empty_scope(scopes: Seq<Scope>, name: Seq<char>)
    ensures
        lookup(seq![Map::<Seq<char>, Expr>::empty()] + scopes, name) == lookup(scopes, name),
{
    assert((seq![Map::<Seq<char>, Expr>::empty()] + scopes).drop_first() =~= scopes);
}

/// Whether no two of `bindings` have the same name.
spec fn distinct_names(bindings: Seq<Binding>) -> bool {
    forall|i: int, j: int|
        0 <= i < j < bindings.len() ==> (#[trigger] bindings[i]).name@ != (
        #[trigger] bindings[j]).name@
}

/// The scope that a list of bindings stands for.
spec fn scope_of(bindings: Seq<Binding>) -> Scope
    decreases bindings.len(),
{
    if bindings.len() == 0 {
        Map::empty()
    } else {
        scope_of(bindings.drop_last()).insert(bindings.last().name@, bindings.last().value@)
    }
}

/// A name that no binding has is not bound.
proof fn lemma_scope_of_absent(bindings: Seq<Binding>, name: Seq<char>)
    requires
        forall|j: int| 0 <= j < bindings.len() ==> (#[trigger] bindings[j]).name@ != name,
    ensures
        !scope_of(bindings).contains_key(name),
    decreases bindings.len(),
{
    if bindings.len() > 0 {
        let init = bindings.drop_last();
        assert forall|j: int| 0 <= j < init.len() implies (#[trigger] init[j]).name@ != name by {
            assert(bindings[j].name@ != name);
        }
        lemma_scope_of_absent(init, name);
        assert(bindings[bindings.len() - 1].name@ != name);
    }
}

/// The name of a binding is bound to its value.
proof fn lemma_scope_of_present(bindings: Seq<Binding>, i: int)
    requires
        distinct_names(bindings),
        0 <= i < bindings.len(),
    ensures
        scope_of(bindings).contains_key(bindings[i].name@),
        scope_of(bindings)[bindings[i].name@] == bindings[i].value@,
    decreases bindings.len(),
{
    if i < bindings.len() - 1 {
        let init = bindings.drop_last();
        assert forall|a: int, b: int| 0 <= a < b < init.len() implies (#[trigger] init[a]).name@
            != (#[trigger] init[b]).name@ by {
            assert(bindings[a].name@ != bindings[b].name@);
        }
        lemma_scope_of_present(init, i);
        assert(bindings[i].name@ != bindings[bindings.len() - 1].name@);
    }
}

/// Replacing the value of a binding rebinds its name and keeps the names
/// distinct.
proof fn lemma_scope_of_update(bindings: Seq<Binding>, i: int, b: Binding)
    requires
        distinct_names(bindings),
        0 <= i < bindings.len(),
        bindings[i].name@ == b.name@,
    ensures
        distinct_names(bindings.update(i, b)),
        scope_of(bindings.update(i, b)) == scope_of(bindings).insert(b.name@, b.value@),
    decreases bindings.len(),
{
    let init = bindings.drop_last();
    let updated = bindings.update(i, b);
    assert forall|x: int, y: int| 0 <= x < y < updated.len() implies (#[trigger] updated[x]).name@
        != (#[trigger] updated[y]).name@ by {
        assert(bindings[x].name@ != bindings[y].name@);
    }
    if i == bindings.len() - 1 {
        assert(updated.drop_last() =~= init);
        assert(scope_of(updated) =~= scope_of(bindings).insert(b.name@, b.value@));
    } else {
        assert(updated.drop_last() =~= init.update(i, b));
        assert(bindings[i].name@ != bindings[bindings.len() - 1].name@);
        assert forall|x: int, y: int| 0 <= x < y < init.len() implies (#[trigger] init[x]).name@
            != (#[trigger] init[y]).name@ by {
            assert(bindings[x].name@ != bindings[y].name@);
        }
        lemma_scope_of_update(init, i, b);
        assert(scope_of(updated) =~= scope_of(bindings).insert(b.name@, b.value@));
    }
}

/// Adding a binding of a new name binds that name and keeps the names
/// distinct.
proof fn lemma_scope_of_push(bindings: Seq<Binding>, b: Binding)
    requires
        distinct_names(bindings),
        forall|j: int| 0 <= j < bindings.len() ==> (#[trigger] bindings[j]).name@ != b.name@,
    ensures
        distinct_names(bindings.push(b)),
        scope_of(bindings.push(b)) == scope_of(bindings).insert(b.name@, b.value@),
{
    let pushed = bindings.push(b);
    assert(pushed.drop_last() =~= bindings);
    assert forall|x: int, y: int| 0 <= x < y < pushed.len() implies (#[trigger] pushed[x]).name@
        != (#[trigger] pushed[y]).name@ by {
        if y < bindings.len() {
            assert(bindings[x].name@ != bindings[y].name@);
        } else {
            assert(bindings[x].name@ != b.name@);
        }
    }
}

/// The index of the binding named `key`, if there is one.
fn find(vars: &Vec<Binding>, key: &String) -> (res: Option<usize>)
    ensures
        match res {
            Some(i) => i < vars.len() && vars@[i as int].name@ == key@,
            None => forall|j: int| 0 <= j < vars.len() ==> (#[trigger] vars@[j]).name@ != key@,
        },
{
    let mut i: usize = 0;
    while i < vars.len()
        invariant
            i <= vars.len(),
            forall|j: int| 0 <= j < i ==> (#[trigger] vars@[j]).name@ != key@,
        decreases vars.len() - i,
    {
        if vars[i].name == *key {
            return Some(i);
        }
        i += 1;
    }
    None
}

/// The scopes of `env`, its own first and the outermost last.
spec fn chain_of(env: Env) -> Seq<Scope>
    decreases env,
{
    match env.parent {
        None => seq![scope_of(env.vars@)],
        Some(p) => seq![scope_of(env.vars@)] + chain_of(*p),
    }
}

impl View for Env {
    type V = Seq<Scope>;

    /// The chain of scopes, this one first and the outermost last.
    closed spec fn view(&self) -> Seq<Scope> {
        chain_of(*self)
    }
}

impl Default for Env {
    /// A root scope: no bindings and no parent.
    fn default() -> (env: Self)
        ensures
            env@ == seq![Map::<Seq<char>, Expr>::empty()],
    {
        Env::new()
    }
}

impl Env {
    /// Within one scope no name is bound twice.
    #[verifier::type_invariant]
    spec fn names_are_distinct(self) -> bool {
        distinct_names(self.vars@)
    }

    /// How the chain is made of this scope and the chain of its parent.
    proof fn lemma_chain(&self)
        ensures
            self@.len() >= 1,
            self@[0] == scope_of(self.vars@),
            self@.drop_first() == match self.parent {
                Some(p) => p@,
                None => Seq::<Scope>::empty(),
            },
    {
        match self.parent {
            Some(p) => {
                assert(self@.drop_first() =~= chain_of(*p));
            },
            None => {
                assert(self@.drop_first() =~= Seq::<Scope>::empty());
            },
        }
    }

    /// A chain always has at least the scope itself.
    pub proof fn lemma_nonempty(&self)
        ensures
            self@.len() >= 1,
    {
    }

    /// A root scope: no bindings and no parent.
    pub fn new() -> (env: Self)
        ensures
            env@ == seq![Map::<Seq<char>, Expr>::empty()],
    {
        Env { parent: None, vars: Vec::new() }
    }

    /// A new empty scope in front of `parent`.
    pub fn extend(parent: Env) -> (env: Self)
        ensures
            env@ == seq![Map::<Seq<char>, Expr>::empty()] + parent@,
    {
        Env { parent: Some(Box::new(parent)), vars: Vec::new() }
    }

    /// Gives up this scope and returns the one it extends, as it was when
    /// it was extended; `None` for a root scope.
    pub fn into_parent(self) -> (res: Option<Env>)
        ensures
            match res {
                Some(p) => self@.len() > 1 && p@ == self@.drop_first(),
                None => self@.len() == 1,
            },
    {
        match self.parent {
            Some(p) => {
                proof {
                    self.lemma_chain();
                    p.lemma_nonempty();
                }
                Some(*p)
            },
            None => None,
        }
    }

    /// Whether this scope extends another one.
    pub fn has_parent(&self) -> (b: bool)
        ensures
            b == (self@.len() > 1),
    {
        proof {
            if let Some(p) = &self.parent {
                p.lemma_nonempty();
            }
        }
        self.parent.is_some()
    }

    /// The value bound to `key` in this scope or, failing that, in the
    /// nearest enclosing scope that binds it.
    pub fn get(&self, key: &str) -> (res: Option<LispExpr>)
        ensures
            match res {
                Some(v) => lookup(self@, key@) == Some(v@),
                None => lookup(self@, key@) is None,
            },
    {
        let name = key.to_owned();
        self.get_named(&name)
    }

    fn get_named(&self, name: &String) -> (res: Option<LispExpr>)
        ensures
            match res {
                Some(v) => lookup(self@, name@) == Some(v@),
                None => lookup(self@, name@) is None,
            },
        decreases self,
    {
        proof {
            use_type_invariant(self);
            self.lemma_chain();
        }
        match find(&self.vars, name) {
            Some(i) => {
                proof {
                    lemma_scope_of_present(self.vars@, i as int);
                }
                Some(self.vars[i].value.clone())
            },
            None => {
                proof {
                    lemma_scope_of_absent(self.vars@, name@);
                }
                match &self.parent {
                    Some(p) => {
                        assert(self@.drop_first() == (**p)@);
                        p.get_named(name)
                    },
                    None => None,
                }
            },
        }
    }

    /// Binds `key` to `value` in this scope, in place of any value it had
    /// here. Enclosing scopes are not touched.
    pub fn set(&mut self, key: &str, value: LispExpr)
        ensures
            final(self)@ == bind(old(self)@, key@, value@),
    {
        proof {
            use_type_invariant(&*self);
        }
        let binding = Binding { name: key.to_owned(), value };
        let mut vars: Vec<Binding> = Vec::new();
        std::mem::swap(&mut vars, &mut self.vars);
        match find(&vars, &binding.name) {
            Some(i) => {
                proof {
                    lemma_scope_of_update(vars@, i as int, binding);
                }
                vars.set(i, binding);
            },
            None => {
                proof {
                    lemma_scope_of_push(vars@, binding);
                }
                vars.push(binding);
            },
        }
        self.vars = vars;
        assert(self@ =~= bind(old(self)@, key@, value@));
    }
}

} // verus!
