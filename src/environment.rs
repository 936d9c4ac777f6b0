//! Lexically scoped bindings from names to runtime values.
use vstd::prelude::*;

use crate::ast::Token;
use crate::object::{Object, Value};
use crate::result::{diagnostic, Diagnostic, Error, RloxResult, Stage};
use crate::text::joined;

verus! {

/// A scope chain as a sequence of maps, the innermost last.
pub type Scopes = Seq<Map<Seq<char>, Value>>;

/// The map a scope's bindings stand for; a later binding of a name wins.
pub open spec fn scope_map(b: Seq<(String, Object)>) -> Map<Seq<char>, Value>
    decreases b.len(),
{
    if b.len() == 0 {
        Map::empty()
    } else {
        scope_map(b.drop_last()).insert(b.last().0@, b.last().1@)
    }
}

/// The value bound to `name` in the innermost scope that binds it.
pub open spec fn lookup(env: Scopes, name: Seq<char>) -> Option<Value>
    decreases env.len(),
{
    if env.len() == 0 {
        None
    } else if env.last().contains_key(name) {
        Some(env.last()[name])
    } else {
        lookup(env.drop_last(), name)
    }
}

/// `name` bound to `v` in the innermost scope.
pub open spec fn define(env: Scopes, name: Seq<char>, v: Value) -> Scopes {
    env.update(env.len() - 1, env.last().insert(name, v))
}

/// `name` rebound to `v` in the innermost scope that binds it; none when no
/// scope binds it.
pub open spec fn assign(env: Scopes, name: Seq<char>, v: Value) -> Option<Scopes>
    decreases env.len(),
{
    if env.len() == 0 {
        None
    } else if env.last().contains_key(name) {
        Some(env.update(env.len() - 1, env.last().insert(name, v)))
    } else {
        match assign(env.drop_last(), name, v) {
            Some(outer) => Some(outer.push(env.last())),
            None => None,
        }
    }
}

pub open spec fn undefined_message(name: Seq<char>) -> Seq<char> {
    "Undefined variable '"@ + name + "'."@
}

/// The diagnostic for a use of `name` that no scope binds.
pub open spec fn undefined(id: Token) -> Diagnostic {
    diagnostic(Stage::Runtime, id.line as nat, undefined_message(id.lexeme@))
}

/// The scope chain: one vector of bindings per scope, the global scope first.
pub struct Environment {
    scopes: Vec<Vec<(String, Object)>>,
}

impl View for Environment {
    type V = Scopes;

    closed spec fn view(&self) -> Scopes {
        Seq::new(self.scopes@.len(), |i: int| scope_map(self.scopes@[i]@))
    }
}

proof fn lemma_scope_take(b: Seq<(String, Object)>, k: int)
    requires
        0 <= k < b.len(),
    ensures
        scope_map(b.take(k + 1)) == scope_map(b.take(k)).insert(b[k].0@, b[k].1@),
{
    assert(b.take(k + 1).drop_last() =~= b.take(k));
}

proof fn lemma_scope_update(b: Seq<(String, Object)>, j: int, entry: (String, Object))
    requires
        0 <= j < b.len(),
        b[j].0@ == entry.0@,
        forall|k: int| j < k < b.len() ==> b[k].0@ != entry.0@,
    ensures
        scope_map(b.update(j, entry)) == scope_map(b).insert(entry.0@, entry.1@),
    decreases b.len(),
{
    if j == b.len() - 1 {
        assert(b.update(j, entry).drop_last() =~= b.drop_last());
        assert(scope_map(b.update(j, entry)) =~= scope_map(b).insert(entry.0@, entry.1@));
    } else {
        lemma_scope_update(b.drop_last(), j, entry);
        assert(b.update(j, entry).drop_last() =~= b.drop_last().update(j, entry));
        assert(scope_map(b.update(j, entry)) =~= scope_map(b).insert(entry.0@, entry.1@));
    }
}

/// Where `name` sits in a scope: its last binding, if any.
fn find_in_scope(b: &Vec<(String, Object)>, name: &String) -> (r: Option<usize>)
    ensures
        match r {
            Some(j) => {
                &&& j < b@.len()
                &&& b@[j as int].0@ == name@
                &&& forall|k: int| j < k < b@.len() ==> b@[k].0@ != name@
                &&& scope_map(b@).contains_key(name@)
                &&& scope_map(b@)[name@] == b@[j as int].1@
            },
            None => !scope_map(b@).contains_key(name@),
        },
{
    let mut j = b.len();
    proof {
        assert(b@.take(j as int) =~= b@);
    }
    while j > 0
        invariant
            j <= b@.len(),
            forall|k: int| j <= k < b@.len() ==> b@[k].0@ != name@,
            scope_map(b@).contains_key(name@) == scope_map(b@.take(j as int)).contains_key(name@),
            scope_map(b@).contains_key(name@) ==> scope_map(b@)[name@] == scope_map(
                b@.take(j as int),
            )[name@],
        decreases j,
    {
        proof {
            lemma_scope_take(b@, j - 1);
        }
        if b[j - 1].0 == *name {
            return Some(j - 1);
        }
        j = j - 1;
    }
    proof {
        assert(b@.take(0) =~= Seq::<(String, Object)>::empty());
    }
    None
}

impl Environment {
    pub open spec fn wf(&self) -> bool {
        self@.len() > 0
    }

    /// A chain holding only the empty global scope.
    pub fn new() -> (r: Environment)
        ensures
            r.wf(),
            r@ == seq![Map::<Seq<char>, Value>::empty()],
    {
        let mut scopes: Vec<Vec<(String, Object)>> = Vec::new();
        scopes.push(Vec::new());
        let r = Environment { scopes };
        proof {
            assert(scope_map(r.scopes@[0]@) =~= Map::<Seq<char>, Value>::empty());
            assert(r@ =~= seq![Map::<Seq<char>, Value>::empty()]);
        }
        r
    }

    /// Opens a new innermost scope.
    pub fn push_scope(&mut self)
        ensures
            final(self).wf(),
            final(self)@ == old(self)@.push(Map::empty()),
    {
        self.scopes.push(Vec::new());
        proof {
            assert(scope_map(Seq::<(String, Object)>::empty()) =~= Map::<Seq<char>, Value>::empty());
            assert(self@ =~= old(self)@.push(Map::empty()));
        }
    }

    /// Closes the innermost scope; the global scope stays.
    pub fn pop_scope(&mut self)
        requires
            old(self)@.len() > 1,
        ensures
            final(self).wf(),
            final(self)@ == old(self)@.drop_last(),
    {
        self.scopes.pop();
        proof {
            assert(self@ =~= old(self)@.drop_last());
        }
    }

    /// Binds the name of `id` to `value` in the innermost scope.
    pub fn define(&mut self, id: &Token, value: Object)
        requires
            old(self).wf(),
        ensures
            final(self).wf(),
            final(self)@ == define(old(self)@, id.lexeme@, value@),
    {
        let last = self.scopes.len() - 1;
        let mut scope = self.scopes.pop().unwrap();
        let ghost b = scope@;
        let entry = (id.lexeme.clone(), value);
        match find_in_scope(&scope, &id.lexeme) {
            Some(j) => {
                proof {
                    lemma_scope_update(b, j as int, entry);
                }
                scope.set(j, entry);
            },
            None => {
                scope.push(entry);
                proof {
                    assert(scope@.drop_last() =~= b);
                }
            },
        }
        self.scopes.push(scope);
        proof {
            assert(self@ =~= define(old(self)@, id.lexeme@, value@));
        }
    }

    /// The value of the name of `id` in the innermost scope that binds it.
    pub fn get(&self, id: &Token) -> (r: RloxResult<Object>)
        requires
            self.wf(),
        ensures
            match lookup(self@, id.lexeme@) {
                Some(v) => r is Ok && r->Ok_0@ == v,
                None => r is Err && r->Err_0@ == undefined(*id),
            },
    {
        let mut i = self.scopes.len();
        proof {
            assert(self@.take(i as int) =~= self@);
        }
        while i > 0
            invariant
                i <= self.scopes@.len(),
                lookup(self@, id.lexeme@) == lookup(self@.take(i as int), id.lexeme@),
            decreases i,
        {
            proof {
                assert(self@.take(i as int).drop_last() =~= self@.take(i - 1));
            }
            match find_in_scope(&self.scopes[i - 1], &id.lexeme) {
                Some(j) => {
                    return Ok(self.scopes[i - 1][j].1.duplicate());
                },
                None => {},
            }
            i = i - 1;
        }
        Err(undefined_error(id))
    }

    /// Rebinds the name of `id` to `value` in the innermost scope that binds
    /// it, and returns the value; fails when no scope binds it.
    pub fn assign(&mut self, id: &Token, value: Object) -> (r: RloxResult<Object>)
        requires
            old(self).wf(),
        ensures
            final(self).wf(),
            match assign(old(self)@, id.lexeme@, value@) {
                Some(env) => r is Ok && r->Ok_0 == value && final(self)@ == env,
                None => r is Err && r->Err_0@ == undefined(*id) && final(self)@ == old(self)@,
            },
    {
        let mut i = self.scopes.len();
        proof {
            assert(self@.take(i as int) =~= self@);
        }
        while i > 0
            invariant
                i <= self.scopes@.len(),
                self.scopes@ == old(self).scopes@,
                assign(self@, id.lexeme@, value@) == match assign(
                    self@.take(i as int),
                    id.lexeme@,
                    value@,
                ) {
                    Some(inner) => Some(inner + self@.skip(i as int)),
                    None => None::<Scopes>,
                },
            decreases i,
        {
            proof {
                assert(self@.take(i as int).drop_last() =~= self@.take(i - 1));
                assert(self@.take(i as int).last() == self@[i - 1]);
            }
            match find_in_scope(&self.scopes[i - 1], &id.lexeme) {
                Some(j) => {
                    let ghost b = self.scopes@[i - 1]@;
                    let entry = (id.lexeme.clone(), value.duplicate());
                    proof {
                        lemma_scope_update(b, j as int, entry);
                    }
                    self.scopes[i - 1][j] = entry;
                    proof {
                        assert(self@ =~= old(self)@.update(
                            i - 1,
                            old(self)@[i - 1].insert(id.lexeme@, value@),
                        ));
                        assert(old(self)@.take(i as int).update(
                            i - 1,
                            old(self)@[i - 1].insert(id.lexeme@, value@),
                        ) + old(self)@.skip(i as int) =~= self@);
                    }
                    return Ok(value);
                },
                None => {
                    proof {
                        let inner = self@.take(i as int);
                        assert(inner.last() == self@[i - 1]);
                        match assign(inner.drop_last(), id.lexeme@, value@) {
                            Some(o) => {
                                assert(o.push(inner.last()) + self@.skip(i as int) =~= o
                                    + self@.skip(i - 1));
                            },
                            None => {},
                        }
                    }
                },
            }
            i = i - 1;
        }
        Err(undefined_error(id))
    }
}

/// The runtime diagnostic for an unbound name.
fn undefined_error(id: &Token) -> (r: Error)
    ensures
        r@ == undefined(*id),
{
    let head = joined("Undefined variable '", id.lexeme.as_str());
    let message = joined(head.as_str(), "'.");
    Error::Runtime(id.line, message)
}

} // verus!
