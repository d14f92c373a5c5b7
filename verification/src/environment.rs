//! The variable store: a single flat mapping from variable name to runtime
//! value. Assignment inserts or overwrites; resolving an unbound name yields
//! `Nil` rather than failing.

use crate::value::{sp_lit_wf, LiteralValue, LiteralValueM};
use vstd::prelude::*;

verus! {

/// The single global scope, modelled as a map from name to value.
pub struct Environment {
    variables: Vec<(String, LiteralValue)>,
}

/// The map an association list denotes; a later entry overrides an earlier
/// one with the same name.
pub open spec fn sp_env_view(s: Seq<(String, LiteralValue)>) -> Map<Seq<char>, LiteralValueM>
    decreases s.len(),
{
    if s.len() == 0 {
        Map::empty()
    } else {
        sp_env_view(s.drop_last()).insert(s.last().0@, s.last().1@)
    }
}

/// What a name resolves to under a store: its mapped value, or `Nil` when it
/// is unbound.
pub open spec fn sp_resolve(env: Map<Seq<char>, LiteralValueM>, name: Seq<char>) -> LiteralValueM {
    if env.contains_key(name) {
        env[name]
    } else {
        LiteralValueM::Nil
    }
}

impl View for Environment {
    type V = Map<Seq<char>, LiteralValueM>;

    closed spec fn view(&self) -> Map<Seq<char>, LiteralValueM> {
        sp_env_view(self.variables@)
    }
}

/// Entries beyond `i` that do not carry `name` never affect what `name`
/// resolves to.
proof fn lemma_env_lookup_skip(s: Seq<(String, LiteralValue)>, i: int, name: Seq<char>)
    requires
        0 <= i <= s.len(),
        forall|j: int| i <= j < s.len() ==> (#[trigger] s[j]).0@ != name,
    ensures
        sp_resolve(sp_env_view(s), name) == sp_resolve(sp_env_view(s.take(i)), name),
    decreases s.len() - i,
{
    if i < s.len() {
        assert(s.drop_last() =~= s.take(s.len() - 1));
        lemma_env_lookup_skip(s.take(s.len() - 1), i, name);
        assert(s.take(s.len() - 1).take(i) =~= s.take(i));
    } else {
        assert(s.take(i) =~= s);
    }
}

/// Assignment round trip: a name just assigned resolves to the assigned
/// value, and no other name is disturbed by the assignment.
pub proof fn lemma_assign_then_resolve(
    env: Map<Seq<char>, LiteralValueM>,
    name: Seq<char>,
    value: LiteralValueM,
    other: Seq<char>,
)
    ensures
        sp_resolve(env.insert(name, value), name) == value,
        other != name ==> sp_resolve(env.insert(name, value), other) == sp_resolve(env, other),
{
}

/// A name with no binding resolves to `Nil`.
pub proof fn lemma_resolve_unbound(env: Map<Seq<char>, LiteralValueM>, name: Seq<char>)
    ensures
        !env.contains_key(name) ==> sp_resolve(env, name) == LiteralValueM::Nil,
{
}

/// Resolution is a function of the store alone: any two reads of the same
/// name against the same unchanged store yield the identical value.
pub proof fn lemma_resolve_deterministic(
    env: Map<Seq<char>, LiteralValueM>,
    name: Seq<char>,
    r1: LiteralValueM,
    r2: LiteralValueM,
)
    requires
        r1 == sp_resolve(env, name),
        r2 == sp_resolve(env, name),
    ensures
        r1 == r2,
{
}

impl Environment {
    /// Every stored value is well formed.
    pub closed spec fn wf(self) -> bool {
        forall|i: int|
            0 <= i < self.variables@.len() ==> sp_lit_wf((#[trigger] self.variables@[i]).1@)
    }

    /// A fresh, empty store. A host may seed it through `assign` before the
    /// first run.
    pub fn new() -> (r: Environment)
        ensures
            r@ == Map::<Seq<char>, LiteralValueM>::empty(),
            r.wf(),
    {
        Environment { variables: Vec::new() }
    }

    /// The value bound to `identifier`, or `Nil` when the name is unbound.
    pub fn resolve(&self, identifier: &String) -> (r: LiteralValue)
        requires
            self.wf(),
        ensures
            r@ == sp_resolve(self@, identifier@),
            sp_lit_wf(r@),
    {
        let ghost s = self.variables@;
        let mut i: usize = self.variables.len();
        while i > 0
            invariant
                i <= s.len(),
                s == self.variables@,
                self.wf(),
                forall|j: int| i <= j < s.len() ==> (#[trigger] s[j]).0@ != identifier@,
            decreases i,
        {
            i = i - 1;
            if identifier.eq(&self.variables[i].0) {
                proof {
                    lemma_env_lookup_skip(s, i + 1, identifier@);
                    assert(s.take(i + 1).drop_last() =~= s.take(i as int));
                    assert(s.take(i + 1).last() == s[i as int]);
                }
                return self.variables[i].1.clone();
            }
        }
        proof {
            lemma_env_lookup_skip(s, 0, identifier@);
            assert(s.take(0) =~= Seq::<(String, LiteralValue)>::empty());
        }
        LiteralValue::Nil
    }

    /// Binds `identifier` to `value`, inserting or overwriting; no prior
    /// binding is required.
    pub fn assign(&mut self, identifier: &String, value: LiteralValue)
        requires
            old(self).wf(),
            sp_lit_wf(value@),
        ensures
            final(self)@ == old(self)@.insert(identifier@, value@),
            final(self).wf(),
    {
        let ghost before = self.variables@;
        let ghost vv = value@;
        self.variables.push((identifier.clone(), value));
        proof {
            assert(self.variables@.drop_last() =~= before);
        }
    }
}

} // verus!
