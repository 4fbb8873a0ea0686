//! Scopes of variable bindings. An environment is the chain of scopes from
//! the global one (first) to the innermost (last); a block pushes a scope on
//! entry and drops it on exit, so its own definitions end with it while its
//! assignments to outer names stay.
use vstd::prelude::*;
use crate::value::{LiteralValue, Val};

verus! {

/// A failure during evaluation, with the line of the token that caused it.
#[derive(Debug)]
pub struct RuntimeError {
    pub message: String,
    pub line: usize,
}

/// A runtime failure, as mathematics sees it.
pub struct Failure {
    pub message: Seq<char>,
    pub line: int,
}

impl RuntimeError {
    pub open spec fn view(&self) -> Failure {
        Failure { message: self.message@, line: self.line as int }
    }
}

pub open spec fn undefined_message(name: Seq<char>) -> Seq<char> {
    "Undefined variable '"@ + name + "'."@
}

/// One binding of a scope.
#[derive(Debug)]
pub struct Binding {
    pub name: String,
    pub value: LiteralValue,
}

pub open spec fn scope_view(s: Seq<Binding>) -> Seq<(Seq<char>, Val)> {
    s.map_values(|b: Binding| (b.name@, b.value@))
}

/// The first binding of `name` in `scope` at or after `i`, or -1.
pub open spec fn find_from(scope: Seq<(Seq<char>, Val)>, name: Seq<char>, i: int) -> int
    decreases scope.len() - i,
{
    if 0 <= i < scope.len() {
        if scope[i].0 == name {
            i
        } else {
            find_from(scope, name, i + 1)
        }
    } else {
        -1
    }
}

pub open spec fn find(scope: Seq<(Seq<char>, Val)>, name: Seq<char>) -> int {
    find_from(scope, name, 0)
}

pub proof fn lemma_find_from(scope: Seq<(Seq<char>, Val)>, name: Seq<char>, i: int)
    requires
        0 <= i,
    ensures
        -1 <= find_from(scope, name, i) < scope.len(),
        find_from(scope, name, i) >= 0 ==> i <= find_from(scope, name, i) && scope[find_from(scope, name, i)].0 == name,
        find_from(scope, name, i) == -1 ==> forall|j: int| i <= j < scope.len() ==> #[trigger] scope[j].0 != name,
    decreases scope.len() - i,
{
    if 0 <= i < scope.len() && scope[i].0 != name {
        lemma_find_from(scope, name, i + 1);
    }
}

/// The value that `name` has, looked up from the innermost scope outwards.
pub open spec fn lookup(scopes: Seq<Seq<(Seq<char>, Val)>>, name: Seq<char>) -> Option<Val>
    decreases scopes.len(),
{
    if scopes.len() == 0 {
        None
    } else {
        let k = find(scopes.last(), name);
        if k >= 0 {
            Some(scopes.last()[k].1)
        } else {
            lookup(scopes.drop_last(), name)
        }
    }
}

/// The scopes after giving `value` to the innermost binding of `name`, if
/// there is one.
pub open spec fn assign_in(scopes: Seq<Seq<(Seq<char>, Val)>>, name: Seq<char>, value: Val) -> Option<
    Seq<Seq<(Seq<char>, Val)>>,
>
    decreases scopes.len(),
{
    if scopes.len() == 0 {
        None
    } else {
        let k = find(scopes.last(), name);
        if k >= 0 {
            Some(scopes.update(scopes.len() - 1, scopes.last().update(k, (name, value))))
        } else {
            match assign_in(scopes.drop_last(), name, value) {
                Some(outer) => Some(outer.push(scopes.last())),
                None => None,
            }
        }
    }
}

pub proof fn lemma_assign_in_len(scopes: Seq<Seq<(Seq<char>, Val)>>, name: Seq<char>, value: Val)
    ensures
        assign_in(scopes, name, value) matches Some(s) ==> s.len() == scopes.len(),
    decreases scopes.len(),
{
    if scopes.len() > 0 {
        lemma_assign_in_len(scopes.drop_last(), name, value);
    }
}

/// The names a scope binds, in order.
pub open spec fn scope_names(s: Seq<(Seq<char>, Val)>) -> Seq<Seq<char>> {
    s.map_values(|b: (Seq<char>, Val)| b.0)
}

/// `a` and `b` have as many scopes, and their first `n` scopes bind the
/// same names in the same order.
pub open spec fn same_names(a: Seq<Seq<(Seq<char>, Val)>>, b: Seq<Seq<(Seq<char>, Val)>>, n: int) -> bool {
    &&& a.len() == b.len()
    &&& forall|d: int| 0 <= d < n ==> #[trigger] scope_names(b[d]) == scope_names(a[d])
}

pub proof fn lemma_same_names_trans(
    a: Seq<Seq<(Seq<char>, Val)>>,
    b: Seq<Seq<(Seq<char>, Val)>>,
    c: Seq<Seq<(Seq<char>, Val)>>,
    n: int,
)
    requires
        same_names(a, b, n),
        same_names(b, c, n),
    ensures
        same_names(a, c, n),
{
    assert forall|d: int| 0 <= d < n implies #[trigger] scope_names(c[d]) == scope_names(a[d]) by {
        assert(scope_names(c[d]) == scope_names(b[d]));
    }
}

pub proof fn lemma_assign_names(env: Seq<Seq<(Seq<char>, Val)>>, name: Seq<char>, v: Val)
    ensures
        assign_in(env, name, v) matches Some(s) ==> same_names(env, s, env.len() as int),
    decreases env.len(),
{
    if env.len() > 0 {
        let last = env.last();
        let k = find(last, name);
        lemma_find_from(last, name, 0);
        if k >= 0 {
            let s = env.update(env.len() - 1, last.update(k, (name, v)));
            assert(scope_names(last.update(k, (name, v))) =~= scope_names(last));
            assert forall|d: int| 0 <= d < env.len() implies #[trigger] scope_names(s[d]) == scope_names(env[d]) by {
                if d == env.len() - 1 {
                    assert(s[d] == last.update(k, (name, v)));
                }
            }
        } else {
            lemma_assign_names(env.drop_last(), name, v);
            match assign_in(env.drop_last(), name, v) {
                Some(outer) => {
                    let s = outer.push(last);
                    assert forall|d: int| 0 <= d < env.len() implies #[trigger] scope_names(s[d]) == scope_names(
                        env[d],
                    ) by {
                        if d < env.len() - 1 {
                            assert(scope_names(outer[d]) == scope_names(env.drop_last()[d]));
                        }
                    }
                },
                None => {},
            }
        }
    }
}

/// No name is bound twice in one scope.
pub open spec fn unique_names(scope: Seq<(Seq<char>, Val)>) -> bool {
    forall|i: int, j: int| 0 <= i < j < scope.len() ==> #[trigger] scope[i].0 != #[trigger] scope[j].0
}

pub open spec fn all_unique(scopes: Seq<Seq<(Seq<char>, Val)>>) -> bool {
    forall|d: int| 0 <= d < scopes.len() ==> #[trigger] unique_names(scopes[d])
}

/// Defining keeps the names of a scope unique.
pub proof fn lemma_define_keeps_names_unique(scope: Seq<(Seq<char>, Val)>, name: Seq<char>, value: Val)
    requires
        unique_names(scope),
    ensures
        unique_names(define_in(scope, name, value)),
{
    lemma_find_from(scope, name, 0);
    let r = define_in(scope, name, value);
    let k = find(scope, name);
    assert forall|i: int, j: int| 0 <= i < j < r.len() implies #[trigger] r[i].0 != #[trigger] r[j].0 by {
        if k < 0 {
            if j == scope.len() {
                assert(scope[i].0 != name);
            }
        }
    }
}

pub proof fn lemma_same_names_unique(a: Seq<Seq<(Seq<char>, Val)>>, b: Seq<Seq<(Seq<char>, Val)>>)
    requires
        same_names(a, b, a.len() as int),
        all_unique(a),
    ensures
        all_unique(b),
{
    assert forall|d: int| 0 <= d < b.len() implies #[trigger] unique_names(b[d]) by {
        assert(scope_names(b[d]) == scope_names(a[d]));
        assert forall|i: int, j: int| 0 <= i < j < b[d].len() implies #[trigger] b[d][i].0 != #[trigger] b[d][j].0 by {
            assert(scope_names(b[d])[i] == b[d][i].0);
            assert(scope_names(b[d])[j] == b[d][j].0);
            assert(scope_names(a[d])[i] == a[d][i].0);
            assert(scope_names(a[d])[j] == a[d][j].0);
            assert(unique_names(a[d]));
        }
    }
}

/// The innermost scope with `name` bound to `value`, in place if it was bound there.
pub open spec fn define_in(scope: Seq<(Seq<char>, Val)>, name: Seq<char>, value: Val) -> Seq<(Seq<char>, Val)> {
    let k = find(scope, name);
    if k >= 0 {
        scope.update(k, (name, value))
    } else {
        scope.push((name, value))
    }
}

/// `inner` with the scopes of `tail` after it, if there is one.
pub open spec fn with_outer(
    inner: Option<Seq<Seq<(Seq<char>, Val)>>>,
    tail: Seq<Seq<(Seq<char>, Val)>>,
) -> Option<Seq<Seq<(Seq<char>, Val)>>> {
    match inner {
        Some(s) => Some(s + tail),
        None => None,
    }
}

/// A chain of scopes; the first is the global one.
pub struct Environment {
    scopes: Vec<Vec<Binding>>,
}

fn find_binding(scope: &Vec<Binding>, key: &String) -> (r: Option<usize>)
    ensures
        match r {
            Some(k) => k == find(scope_view(scope@), key@) && k < scope@.len(),
            None => find(scope_view(scope@), key@) == -1,
        },
{
    let ghost sv = scope_view(scope@);
    let mut i: usize = 0;
    while i < scope.len()
        invariant
            i <= scope@.len(),
            sv == scope_view(scope@),
            find_from(sv, key@, i as int) == find(sv, key@),
        decreases scope@.len() - i,
    {
        if scope[i].name.eq(key) {
            return Some(i);
        }
        i = i + 1;
    }
    None
}

impl Environment {
    pub closed spec fn view(&self) -> Seq<Seq<(Seq<char>, Val)>> {
        Seq::new(self.scopes@.len(), |i: int| scope_view(self.scopes@[i]@))
    }

    /// At least the global scope, and no name bound twice in a scope.
    pub open spec fn wf(&self) -> bool {
        self@.len() > 0 && all_unique(self@)
    }

    /// The global scope alone, empty.
    pub fn new() -> (r: Environment)
        ensures
            r.wf(),
            r@ == seq![Seq::<(Seq<char>, Val)>::empty()],
    {
        let mut scopes: Vec<Vec<Binding>> = Vec::new();
        scopes.push(Vec::new());
        let r = Environment { scopes };
        assert(r@ =~= seq![Seq::<(Seq<char>, Val)>::empty()]) by {
            assert(scope_view(r.scopes@[0]@) =~= Seq::<(Seq<char>, Val)>::empty());
        }
        r
    }

    /// A new empty scope inside `enclosing`.
    pub fn from_enclosing(enclosing: Environment) -> (r: Environment)
        requires
            enclosing.wf(),
        ensures
            r.wf(),
            r@ == enclosing@.push(Seq::empty()),
    {
        let mut e = enclosing;
        e.enter_scope();
        e
    }

    /// Opens a new empty innermost scope.
    pub fn enter_scope(&mut self)
        requires
            old(self).wf(),
        ensures
            final(self).wf(),
            final(self)@ == old(self)@.push(Seq::empty()),
    {
        self.scopes.push(Vec::new());
        assert(self@ =~= old(self)@.push(Seq::empty())) by {
            assert(scope_view(self.scopes@.last()@) =~= Seq::<(Seq<char>, Val)>::empty());
        }
    }

    /// Drops the innermost scope and what it defined.
    pub fn exit_scope(&mut self)
        requires
            old(self).wf(),
            old(self)@.len() > 1,
        ensures
            final(self).wf(),
            final(self)@ == old(self)@.drop_last(),
    {
        self.scopes.pop();
        assert(self@ =~= old(self)@.drop_last());
    }

    /// Binds `name` in the innermost scope, replacing a binding it already has there.
    pub fn define(&mut self, name: String, value: LiteralValue)
        requires
            old(self).wf(),
        ensures
            final(self).wf(),
            final(self)@ == old(self)@.update(old(self)@.len() - 1, define_in(old(self)@.last(), name@, value@)),
    {
        let d = self.scopes.len() - 1;
        let ghost sv = self@;
        match find_binding(&self.scopes[d], &name) {
            Some(k) => {
                proof {
                    lemma_find_from(sv[d as int], name@, 0);
                }
                self.scopes[d][k] = Binding { name, value };
            },
            None => {
                self.scopes[d].push(Binding { name, value });
            },
        }
        assert(self@ =~= sv.update(sv.len() - 1, define_in(sv.last(), name@, value@))) by {
            assert(scope_view(self.scopes@[d as int]@) =~= define_in(sv.last(), name@, value@));
        }
        proof {
            lemma_define_keeps_names_unique(sv.last(), name@, value@);
            assert forall|i: int| 0 <= i < self@.len() implies #[trigger] unique_names(self@[i]) by {
                if i != sv.len() - 1 {
                    assert(self@[i] == sv[i]);
                }
            }
        }
    }

    /// The value of `name` in the innermost scope that binds it.
    pub fn get(&self, name: &str, line: usize) -> (r: Result<LiteralValue, RuntimeError>)
        requires
            self.wf(),
        ensures
            match lookup(self@, name@) {
                Some(v) => r matches Ok(x) && x@ == v,
                None => r matches Err(e) && e@ == (Failure { message: undefined_message(name@), line: line as int }),
            },
    {
        let key = name.to_owned();
        let ghost sv = self@;
        let mut d = self.scopes.len();
        assert(sv.subrange(0, d as int) =~= sv);
        while d > 0
            invariant
                d <= self.scopes@.len(),
                sv == self@,
                key@ == name@,
                lookup(sv.subrange(0, d as int), name@) == lookup(sv, name@),
            decreases d,
        {
            assert(sv.subrange(0, d as int).drop_last() =~= sv.subrange(0, d - 1));
            match find_binding(&self.scopes[d - 1], &key) {
                Some(k) => {
                    return Ok(self.scopes[d - 1][k].value.duplicate());
                },
                None => {},
            }
            d = d - 1;
        }
        Err(RuntimeError { message: undefined(name), line })
    }

    /// Gives `value` to the innermost binding of `name`; an unbound name is an error.
    pub fn assign(&mut self, name: &str, value: LiteralValue, line: usize) -> (r: Result<(), RuntimeError>)
        requires
            old(self).wf(),
        ensures
            final(self).wf(),
            match assign_in(old(self)@, name@, value@) {
                Some(s) => r is Ok && final(self)@ == s,
                None => r matches Err(e) && e@ == (Failure { message: undefined_message(name@), line: line as int })
                    && final(self)@ == old(self)@,
            },
    {
        let key = name.to_owned();
        let ghost sv = self@;
        let mut d = self.scopes.len();
        assert(sv.subrange(0, d as int) =~= sv);
        assert(sv.subrange(d as int, sv.len() as int) =~= Seq::<Seq<(Seq<char>, Val)>>::empty());
        proof {
            match assign_in(sv, name@, value@) {
                Some(s) => {
                    assert(s + Seq::<Seq<(Seq<char>, Val)>>::empty() =~= s);
                },
                None => {},
            }
        }
        while d > 0
            invariant
                d <= self.scopes@.len(),
                sv == self@,
                self.scopes == old(self).scopes,
                all_unique(sv),
                key@ == name@,
                assign_in(sv, name@, value@) == with_outer(
                    assign_in(sv.subrange(0, d as int), name@, value@),
                    sv.subrange(d as int, sv.len() as int),
                ),
            decreases d,
        {
            let ghost pre = sv.subrange(0, d as int);
            assert(pre.drop_last() =~= sv.subrange(0, d - 1));
            match find_binding(&self.scopes[d - 1], &key) {
                Some(k) => {
                    proof {
                        lemma_find_from(sv[d - 1], name@, 0);
                    }
                    self.scopes[d - 1][k] = Binding { name: key, value };
                    proof {
                        let s = pre.update(pre.len() - 1, pre.last().update(k as int, (name@, value@)));
                        assert(assign_in(pre, name@, value@) == Some(s));
                        assert(self@ =~= s + sv.subrange(d as int, sv.len() as int)) by {
                            assert(scope_view(self.scopes@[d - 1]@) =~= sv[d - 1].update(k as int, (name@, value@)));
                        }
                        lemma_assign_names(sv, name@, value@);
                        lemma_same_names_unique(sv, self@);
                    }
                    return Ok(());
                },
                None => {
                    proof {
                        let tail = sv.subrange(d as int, sv.len() as int);
                        let tail2 = sv.subrange(d - 1, sv.len() as int);
                        assert(tail2 =~= seq![pre.last()] + tail);
                        match assign_in(sv.subrange(0, d - 1), name@, value@) {
                            Some(s) => {
                                assert(s.push(pre.last()) + tail =~= s + tail2);
                            },
                            None => {},
                        }
                    }
                },
            }
            d = d - 1;
        }
        Err(RuntimeError { message: undefined(name), line })
    }
}

fn undefined(name: &str) -> (r: String)
    ensures
        r@ == undefined_message(name@),
{
    let mut m = String::from_str("Undefined variable '");
    m.append(name);
    m.append("'.");
    m
}

} // verus!
