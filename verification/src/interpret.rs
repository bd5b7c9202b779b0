//! The parts of running a program that do not depend on the values it computes:
//! variable scopes, string literal text, call arity, and the operator rules on
//! the kinds of values.
pub mod rules;

use crate::error::Error;
use crate::text::{str_eq, usize_to_string};
use vstd::prelude::*;
use vstd::string::StrSliceExecFns;
use vstd::string::StringExecFns;

verus! {

/// The map that a list of bindings stands for: each name to the value bound to it
/// last.
pub open spec fn bindings_map<V>(s: Seq<(String, V)>) -> Map<Seq<char>, V>
    decreases s.len(),
{
    if s.len() == 0 {
        Map::empty()
    } else {
        bindings_map(s.drop_last()).insert(s.last().0@, s.last().1)
    }
}

pub open spec fn distinct_names<V>(s: Seq<(String, V)>) -> bool {
    forall|i: int, j: int| 0 <= i < j < s.len() ==> (#[trigger] s[i]).0@ != (#[trigger] s[j]).0@
}

/// With distinct names, a name is bound exactly when some binding has it, and to that
/// binding's value.
proof fn lemma_bindings_map<V>(s: Seq<(String, V)>)
    requires
        distinct_names(s),
    ensures
        forall|i: int|
            0 <= i < s.len() ==> #[trigger] bindings_map(s).contains_key(s[i].0@) && bindings_map(
                s,
            )[s[i].0@] == s[i].1,
        forall|k: Seq<char>|
            #[trigger] bindings_map(s).contains_key(k) ==> exists|i: int|
                0 <= i < s.len() && s[i].0@ == k,
    decreases s.len(),
{
    if s.len() > 0 {
        let init = s.drop_last();
        assert(distinct_names(init)) by {
            assert forall|i: int, j: int| 0 <= i < j < init.len() implies (#[trigger] init[i]).0@
                != (#[trigger] init[j]).0@ by {
                assert(init[i] == s[i] && init[j] == s[j]);
            }
        }
        lemma_bindings_map(init);
        assert forall|i: int| 0 <= i < s.len() implies #[trigger] bindings_map(s).contains_key(
            s[i].0@,
        ) && bindings_map(s)[s[i].0@] == s[i].1 by {
            if i < s.len() - 1 {
                assert(init[i] == s[i]);
                assert(bindings_map(init).contains_key(init[i].0@));
                assert(s[i].0@ != s[s.len() - 1].0@);
            }
        }
        assert forall|k: Seq<char>| #[trigger] bindings_map(s).contains_key(k) implies exists|i: int|
            0 <= i < s.len() && s[i].0@ == k by {
            if k != s.last().0@ {
                assert(bindings_map(init).contains_key(k));
                let i = choose|i: int| 0 <= i < init.len() && init[i].0@ == k;
                assert(s[i] == init[i]);
            } else {
                assert(s[s.len() - 1].0@ == k);
            }
        }
    }
}

/// Replacing the value of the binding at `i` rebinds its name.
proof fn lemma_bindings_update<V>(s: Seq<(String, V)>, i: int, b: (String, V))
    requires
        distinct_names(s),
        0 <= i < s.len(),
        b.0@ == s[i].0@,
    ensures
        distinct_names(s.update(i, b)),
        bindings_map(s.update(i, b)) == bindings_map(s).insert(b.0@, b.1),
{
    let t = s.update(i, b);
    assert(distinct_names(t)) by {
        assert forall|x: int, y: int| 0 <= x < y < t.len() implies (#[trigger] t[x]).0@ != (
        #[trigger] t[y]).0@ by {
            assert(t[x].0@ == s[x].0@ && t[y].0@ == s[y].0@);
        }
    }
    lemma_bindings_map(s);
    lemma_bindings_map(t);
    assert(bindings_map(t) =~= bindings_map(s).insert(b.0@, b.1)) by {
        assert forall|k: Seq<char>| #[trigger] bindings_map(t).contains_key(k) <==> bindings_map(
            s,
        ).insert(b.0@, b.1).contains_key(k) by {
            if bindings_map(t).contains_key(k) {
                let j = choose|j: int| 0 <= j < t.len() && t[j].0@ == k;
                assert(s[j].0@ == t[j].0@);
            }
            if bindings_map(s).contains_key(k) {
                let j = choose|j: int| 0 <= j < s.len() && s[j].0@ == k;
                assert(s[j].0@ == t[j].0@);
                assert(bindings_map(t).contains_key(t[j].0@));
            }
            assert(bindings_map(t).contains_key(t[i].0@));
        }
        assert forall|k: Seq<char>| #[trigger] bindings_map(t).contains_key(k) implies bindings_map(
            t,
        )[k] == bindings_map(s).insert(b.0@, b.1)[k] by {
            let j = choose|j: int| 0 <= j < t.len() && t[j].0@ == k;
            assert(bindings_map(t)[t[j].0@] == t[j].1);
            if j != i {
                assert(bindings_map(s)[s[j].0@] == s[j].1);
            }
        }
    }
}

/// Adding a binding for a name not yet bound binds it.
proof fn lemma_bindings_push<V>(s: Seq<(String, V)>, b: (String, V))
    requires
        distinct_names(s),
        !bindings_map(s).contains_key(b.0@),
    ensures
        distinct_names(s.push(b)),
        bindings_map(s.push(b)) == bindings_map(s).insert(b.0@, b.1),
{
    lemma_bindings_map(s);
    let t = s.push(b);
    assert(t.drop_last() =~= s);
    assert forall|x: int, y: int| 0 <= x < y < t.len() implies (#[trigger] t[x]).0@ != (
    #[trigger] t[y]).0@ by {
        assert(t[x] == s[x]);
        if y < s.len() {
            assert(t[y] == s[y]);
        } else {
            assert(bindings_map(s).contains_key(s[x].0@));
        }
    }
}

/// One scope of variables: names bound to values.
#[derive(Debug)]
pub struct Env<V> {
    vars: Vec<(String, V)>,
}

impl<V> View for Env<V> {
    type V = Map<Seq<char>, V>;

    closed spec fn view(&self) -> Map<Seq<char>, V> {
        bindings_map(self.vars@)
    }
}

impl<V> Env<V> {
    #[verifier::type_invariant]
    spec fn inv(self) -> bool {
        distinct_names(self.vars@)
    }

    /// An empty scope.
    pub fn new() -> (e: Self)
        ensures
            e@ == Map::<Seq<char>, V>::empty(),
    {
        Env { vars: Vec::new() }
    }

    /// The value bound to `name`, if any.
    pub fn get(&self, name: &str) -> (r: Option<&V>)
        ensures
            match r {
                Some(v) => self@.contains_key(name@) && *v == self@[name@],
                None => !self@.contains_key(name@),
            },
    {
        proof {
            use_type_invariant(self);
            lemma_bindings_map(self.vars@);
        }
        match self.position(name) {
            Some(i) => {
                assert(bindings_map(self.vars@).contains_key(self.vars@[i as int].0@));
                Some(&self.vars[i].1)
            },
            None => None,
        }
    }

    /// Whether `name` is bound.
    pub fn contains(&self, name: &str) -> (r: bool)
        ensures
            r == self@.contains_key(name@),
    {
        proof {
            use_type_invariant(self);
            lemma_bindings_map(self.vars@);
        }
        match self.position(name) {
            Some(i) => {
                assert(bindings_map(self.vars@).contains_key(self.vars@[i as int].0@));
                true
            },
            None => false,
        }
    }

    /// The index of the binding of `name`.
    fn position(&self, name: &str) -> (r: Option<usize>)
        ensures
            match r {
                Some(i) => i < self.vars@.len() && self.vars@[i as int].0@ == name@,
                None => forall|i: int| 0 <= i < self.vars@.len() ==> (#[trigger] self.vars@[i]).0@ != name@,
            },
    {
        let mut i: usize = 0;
        while i < self.vars.len()
            invariant
                i <= self.vars@.len(),
                forall|k: int| 0 <= k < i ==> (#[trigger] self.vars@[k]).0@ != name@,
            decreases self.vars@.len() - i,
        {
            if str_eq(self.vars[i].0.as_str(), name) {
                return Some(i);
            }
            i = i + 1;
        }
        None
    }

    /// Binds `name` to `value`, replacing an earlier binding of the same name.
    pub fn insert(&mut self, name: &str, value: V)
        ensures
            final(self)@ == old(self)@.insert(name@, value),
    {
        proof {
            use_type_invariant(&*self);
            lemma_bindings_map(self.vars@);
        }
        let key = String::from_str(name);
        let found = self.position(name);
        let mut vars: Vec<(String, V)> = Vec::new();
        std::mem::swap(&mut vars, &mut self.vars);
        match found {
            Some(i) => {
                proof {
                    lemma_bindings_update(vars@, i as int, (key, value));
                }
                vars.set(i, (key, value));
            },
            None => {
                proof {
                    lemma_bindings_push(vars@, (key, value));
                }
                vars.push((key, value));
            },
        }
        self.vars = vars;
    }
}

impl<V: Clone> Clone for Env<V> {
    /// A copy binding the same names, each to a clone of its value.
    fn clone(&self) -> (r: Self)
        ensures
            r@.dom() == self@.dom(),
            forall|k: Seq<char>| #[trigger] r@.dom().contains(k) ==> cloned::<V>(self@[k], r@[k]),
    {
        proof {
            use_type_invariant(self);
            lemma_bindings_map(self.vars@);
        }
        let mut vars: Vec<(String, V)> = Vec::new();
        let mut i: usize = 0;
        while i < self.vars.len()
            invariant
                i <= self.vars@.len(),
                vars@.len() == i,
                distinct_names(self.vars@),
                forall|k: int| 0 <= k < i ==> (#[trigger] vars@[k]).0@ == self.vars@[k].0@,
                forall|k: int| 0 <= k < i ==> cloned::<V>(self.vars@[k].1, (#[trigger] vars@[k]).1),
            decreases self.vars@.len() - i,
        {
            let name = self.vars[i].0.clone();
            let value = self.vars[i].1.clone();
            vars.push((name, value));
            i = i + 1;
        }
        proof {
            assert(distinct_names(vars@)) by {
                assert forall|x: int, y: int| 0 <= x < y < vars@.len() implies (
                #[trigger] vars@[x]).0@ != (#[trigger] vars@[y]).0@ by {
                    assert(self.vars@[x].0@ != self.vars@[y].0@);
                }
            }
            lemma_bindings_map(vars@);
            assert(bindings_map(vars@).dom() =~= bindings_map(self.vars@).dom()) by {
                assert forall|k: Seq<char>| #[trigger] bindings_map(vars@).contains_key(k)
                    <==> bindings_map(self.vars@).contains_key(k) by {
                    if bindings_map(vars@).contains_key(k) {
                        let j = choose|j: int| 0 <= j < vars@.len() && vars@[j].0@ == k;
                        assert(bindings_map(self.vars@).contains_key(self.vars@[j].0@));
                    }
                    if bindings_map(self.vars@).contains_key(k) {
                        let j = choose|j: int| 0 <= j < self.vars@.len() && self.vars@[j].0@ == k;
                        assert(bindings_map(vars@).contains_key(vars@[j].0@));
                    }
                }
            }
            assert forall|k: Seq<char>| #[trigger] bindings_map(vars@).contains_key(k) implies cloned::<
                V,
            >(bindings_map(self.vars@)[k], bindings_map(vars@)[k]) by {
                let j = choose|j: int| 0 <= j < vars@.len() && vars@[j].0@ == k;
                assert(bindings_map(vars@)[vars@[j].0@] == vars@[j].1);
                assert(bindings_map(self.vars@)[self.vars@[j].0@] == self.vars@[j].1);
                assert(cloned::<V>(self.vars@[j].1, vars@[j].1));
            }
        }
        Env { vars }
    }
}

/// The scopes of a stack, outermost first.
pub open spec fn scopes_view<V>(envs: Seq<Env<V>>) -> Seq<Map<Seq<char>, V>> {
    envs.map_values(|e: Env<V>| e@)
}

/// Replacing one scope of a stack replaces its map.
pub proof fn lemma_scopes_view_update<V>(envs: Seq<Env<V>>, i: int, e: Env<V>)
    requires
        0 <= i < envs.len(),
    ensures
        scopes_view(envs.update(i, e)) == scopes_view(envs).update(i, e@),
{
    assert(scopes_view(envs.update(i, e)) =~= scopes_view(envs).update(i, e@));
}

/// The value of `k` in the innermost scope that binds it.
pub open spec fn scope_lookup<V>(scopes: Seq<Map<Seq<char>, V>>, k: Seq<char>) -> Option<V>
    decreases scopes.len(),
{
    if scopes.len() == 0 {
        None
    } else if scopes.last().contains_key(k) {
        Some(scopes.last()[k])
    } else {
        scope_lookup(scopes.drop_last(), k)
    }
}

/// The outermost scope that binds `k`, from scope `from` on.
pub open spec fn outermost_binding<V>(scopes: Seq<Map<Seq<char>, V>>, k: Seq<char>, from: int) -> Option<int>
    decreases scopes.len() - from,
{
    if from < 0 || from >= scopes.len() {
        None
    } else if scopes[from].contains_key(k) {
        Some(from)
    } else {
        outermost_binding(scopes, k, from + 1)
    }
}

/// The value of `name` in the innermost scope of `envs` that binds it.
pub fn lookup<'a, V>(envs: &'a Vec<Env<V>>, name: &str) -> (r: Option<&'a V>)
    ensures
        match r {
            Some(v) => scope_lookup(scopes_view(envs@), name@) == Some(*v),
            None => scope_lookup(scopes_view(envs@), name@) is None,
        },
{
    let mut i = envs.len();
    assert(envs@.subrange(0, i as int) =~= envs@);
    while i > 0
        invariant
            i <= envs@.len(),
            scope_lookup(scopes_view(envs@), name@) == scope_lookup(
                scopes_view(envs@.subrange(0, i as int)),
                name@,
            ),
        decreases i,
    {
        let ghost inner = scopes_view(envs@.subrange(0, i as int));
        assert(inner.last() == envs@[i - 1]@);
        assert(inner.drop_last() =~= scopes_view(envs@.subrange(0, i - 1)));
        match envs[i - 1].get(name) {
            Some(v) => return Some(v),
            None => {},
        }
        i = i - 1;
    }
    None
}

/// The index of the outermost scope of `envs` that binds `name`.
pub fn outermost_scope<V>(envs: &Vec<Env<V>>, name: &str) -> (r: Option<usize>)
    ensures
        match r {
            Some(i) => i < envs@.len() && outermost_binding(scopes_view(envs@), name@, 0) == Some(
                i as int,
            ),
            None => outermost_binding(scopes_view(envs@), name@, 0) is None,
        },
{
    let mut i: usize = 0;
    while i < envs.len()
        invariant
            i <= envs@.len(),
            outermost_binding(scopes_view(envs@), name@, 0) == outermost_binding(
                scopes_view(envs@),
                name@,
                i as int,
            ),
        decreases envs@.len() - i,
    {
        assert(scopes_view(envs@)[i as int] == envs@[i as int]@);
        if envs[i].contains(name) {
            return Some(i);
        }
        i = i + 1;
    }
    None
}

/// Binds `name` to `value` in the innermost scope, if there is one.
pub fn define<V>(envs: &mut Vec<Env<V>>, name: &str, value: V)
    ensures
        final(envs)@.len() == old(envs)@.len(),
        old(envs)@.len() > 0 ==> scopes_view(final(envs)@) == scopes_view(old(envs)@).update(
            old(envs)@.len() - 1,
            scopes_view(old(envs)@).last().insert(name@, value),
        ),
        old(envs)@.len() == 0 ==> final(envs)@ == old(envs)@,
{
    let n = envs.len();
    if n > 0 {
        envs[n - 1].insert(name, value);
        proof {
            lemma_scopes_view_update(old(envs)@, n - 1, envs@[n - 1]);
            assert(envs@ == old(envs)@.update(n - 1, envs@[n - 1]));
        }
    }
}

/// Rebinds `name` to `value` in the outermost scope that binds it. When no scope binds
/// it, nothing changes and the value comes back.
pub fn assign<V>(envs: &mut Vec<Env<V>>, name: &str, value: V) -> (r: Option<V>)
    ensures
        final(envs)@.len() == old(envs)@.len(),
        match outermost_binding(scopes_view(old(envs)@), name@, 0) {
            Some(i) => r is None && scopes_view(final(envs)@) == scopes_view(old(envs)@).update(
                i,
                scopes_view(old(envs)@)[i].insert(name@, value),
            ),
            None => r == Some(value) && final(envs)@ == old(envs)@,
        },
{
    match outermost_scope(envs, name) {
        Some(i) => {
            envs[i].insert(name, value);
            proof {
                lemma_scopes_view_update(old(envs)@, i as int, envs@[i as int]);
                assert(envs@ == old(envs)@.update(i as int, envs@[i as int]));
            }
            None
        },
        None => Some(value),
    }
}

/// A read after a definition in the innermost scope gives the defined value.
pub proof fn law_define_then_lookup<V>(
    scopes: Seq<Map<Seq<char>, V>>,
    k: Seq<char>,
    v: V,
)
    requires
        scopes.len() > 0,
    ensures
        scope_lookup(scopes.update(scopes.len() - 1, scopes.last().insert(k, v)), k) == Some(v),
{
}

/// A definition leaves the reads of every other name as they were.
pub proof fn law_define_keeps_other_names<V>(
    scopes: Seq<Map<Seq<char>, V>>,
    k: Seq<char>,
    other: Seq<char>,
    v: V,
)
    requires
        scopes.len() > 0,
        other != k,
    ensures
        scope_lookup(scopes.update(scopes.len() - 1, scopes.last().insert(k, v)), other)
            == scope_lookup(scopes, other),
{
    let after = scopes.update(scopes.len() - 1, scopes.last().insert(k, v));
    assert(after.drop_last() =~= scopes.drop_last());
}

/// Every scope above `i` leaves `k` unbound.
pub open spec fn unshadowed<V>(scopes: Seq<Map<Seq<char>, V>>, k: Seq<char>, i: int) -> bool {
    forall|j: int| i < j < scopes.len() ==> !(#[trigger] scopes[j]).contains_key(k)
}

proof fn lemma_lookup_below<V>(scopes: Seq<Map<Seq<char>, V>>, k: Seq<char>, i: int, v: V)
    requires
        0 <= i < scopes.len(),
        unshadowed(scopes, k, i),
        scopes[i].contains_key(k),
        scopes[i][k] == v,
    ensures
        scope_lookup(scopes, k) == Some(v),
    decreases scopes.len(),
{
    if i < scopes.len() - 1 {
        assert(!scopes[scopes.len() - 1].contains_key(k));
        let below = scopes.drop_last();
        assert forall|j: int| i < j < below.len() implies !(#[trigger] below[j]).contains_key(k) by {
            assert(below[j] == scopes[j]);
        }
        lemma_lookup_below(below, k, i, v);
    }
}

/// A read after an assignment gives the assigned value when no inner scope shadows the
/// scope assigned to (the outermost that binds the name).
pub proof fn law_assign_then_lookup<V>(scopes: Seq<Map<Seq<char>, V>>, k: Seq<char>, v: V)
    requires
        outermost_binding(scopes, k, 0) matches Some(i) && unshadowed(scopes, k, i),
    ensures
        outermost_binding(scopes, k, 0) matches Some(i) && scope_lookup(
            scopes.update(i, scopes[i].insert(k, v)),
            k,
        ) == Some(v),
{
    let i = outermost_binding(scopes, k, 0)->0;
    lemma_outermost_in_range(scopes, k, 0);
    let after = scopes.update(i, scopes[i].insert(k, v));
    assert forall|j: int| i < j < after.len() implies !(#[trigger] after[j]).contains_key(k) by {
        assert(after[j] == scopes[j]);
    }
    lemma_lookup_below(after, k, i, v);
}

proof fn lemma_outermost_in_range<V>(scopes: Seq<Map<Seq<char>, V>>, k: Seq<char>, from: int)
    ensures
        outermost_binding(scopes, k, from) matches Some(i) ==> from <= i < scopes.len()
            && scopes[i].contains_key(k),
    decreases scopes.len() - from,
{
    if 0 <= from < scopes.len() && !scopes[from].contains_key(k) {
        lemma_outermost_in_range(scopes, k, from + 1);
    }
}

/// The text of a string literal: its characters between the opening and the closing
/// quote. `None` when it is not enclosed in double quotes.
pub fn string_literal_text(raw: &str) -> (r: Option<&str>)
    ensures
        ({
            let s = raw@;
            if s.len() >= 2 && s[0] == '"' && s[s.len() - 1] == '"' {
                r matches Some(t) && t@ == s.subrange(1, s.len() - 1)
            } else {
                r is None
            }
        }),
{
    let n = raw.unicode_len();
    if n >= 2 && raw.get_char(0) == '"' && raw.get_char(n - 1) == '"' {
        Some(raw.substring_char(1, n - 1))
    } else {
        None
    }
}

/// A call with `arg_count` arguments to a function with `param_count` parameters:
/// at most 254 of each, and as many arguments as parameters.
pub fn check_arity(param_count: usize, arg_count: usize) -> (r: Result<(), Error>)
    ensures
        (param_count >= 255 || arg_count >= 255) ==> (r matches Err(Error::RuntimeError(m))
            && m@ == "Function can't receive more than 255 arguments."@),
        (param_count < 255 && arg_count < 255 && arg_count != param_count) ==> (r matches Err(
            Error::RuntimeError(m),
        ) && m@ == "Function expect "@ + crate::text::decimal(param_count as nat) + " arguments, get "@
            + crate::text::decimal(arg_count as nat) + "."@),
        (param_count < 255 && arg_count == param_count) ==> r is Ok,
{
    if param_count >= 255 || arg_count >= 255 {
        return Err(
            Error::RuntimeError(String::from_str("Function can't receive more than 255 arguments.")),
        );
    }
    if arg_count != param_count {
        let mut m = String::from_str("Function expect ");
        let p = usize_to_string(param_count);
        m.append(p.as_str());
        m.append(" arguments, get ");
        let a = usize_to_string(arg_count);
        m.append(a.as_str());
        m.append(".");
        return Err(Error::RuntimeError(m));
    }
    Ok(())
}

} // verus!
