//! The chained environment: a stack of name-to-value frames.
use vstd::prelude::*;
use crate::value::{LoxValue, ValM, val_inv};

verus! {

/// The model of one frame: a mapping from names to value models.
pub type FrameM = Map<Seq<char>, ValM>;

/// The model of a whole scope chain, innermost frame first.
pub type EnvM = Seq<FrameM>;

/// The mapping an association list denotes; a later entry shadows an
/// earlier one with the same name.
pub open spec fn frame_map(l: Seq<(String, LoxValue)>) -> FrameM
    decreases l.len(),
{
    if l.len() == 0 {
        Map::empty()
    } else {
        frame_map(l.drop_last()).insert(l.last().0@, l.last().1@)
    }
}

/// Look a name up through the chain, innermost frame outward.
pub open spec fn env_get(env: EnvM, name: Seq<char>) -> Option<ValM>
    decreases env.len(),
{
    if env.len() == 0 {
        None
    } else if env[0].contains_key(name) {
        Some(env[0][name])
    } else {
        env_get(env.skip(1), name)
    }
}

pub open spec fn env_has(env: EnvM, name: Seq<char>) -> bool {
    env_get(env, name) is Some
}

/// Overwrite a name at the innermost frame that binds it; where no
/// frame does, the chain stays as it is.
pub open spec fn env_set(env: EnvM, name: Seq<char>, v: ValM) -> EnvM
    decreases env.len(),
{
    if env.len() == 0 {
        env
    } else if env[0].contains_key(name) {
        seq![env[0].insert(name, v)] + env.skip(1)
    } else {
        seq![env[0]] + env_set(env.skip(1), name, v)
    }
}

/// Bind a name in the innermost frame, shadowing any outer binding.
pub open spec fn env_define(env: EnvM, name: Seq<char>, v: ValM) -> EnvM {
    env.update(0, env[0].insert(name, v))
}

/// Every value bound anywhere in the chain is internally valid.
pub open spec fn env_inv(env: EnvM) -> bool {
    forall|i: int, name: Seq<char>|
        0 <= i < env.len() && #[trigger] env[i].contains_key(name) ==> val_inv(env[i][name])
}

/// A node of the scope chain: this frame's bindings and the enclosing
/// scope, if any.
pub struct Scope {
    pub vars: Vec<(String, LoxValue)>,
    pub outer: Option<Box<Scope>>,
}

impl Scope {
    /// The model of the chain that starts at this scope.
    pub open spec fn frames(&self) -> EnvM
        decreases self,
    {
        match &self.outer {
            None => seq![frame_map(self.vars@)],
            Some(o) => seq![frame_map(self.vars@)] + o.frames(),
        }
    }

    pub fn new() -> (r: Scope)
        ensures
            r.frames() == seq![Map::<Seq<char>, ValM>::empty()],
    {
        let r = Scope { vars: Vec::new(), outer: None };
        proof {
            assert(r.vars@.len() == 0);
            assert(r.frames() =~= seq![Map::<Seq<char>, ValM>::empty()]);
        }
        r
    }

    /// A fresh innermost scope whose outer is the given chain.
    pub fn new_inner(outer: Scope) -> (r: Scope)
        ensures
            r.frames() == seq![Map::<Seq<char>, ValM>::empty()] + outer.frames(),
    {
        let r = Scope { vars: Vec::new(), outer: Some(Box::new(outer)) };
        proof {
            assert(r.frames() =~= seq![Map::<Seq<char>, ValM>::empty()] + outer.frames());
        }
        r
    }

    /// Bind a name in this scope's own frame.
    pub fn define(&mut self, name: String, value: LoxValue)
        ensures
            final(self).frames() == env_define(old(self).frames(), name@, value@),
    {
        let ghost pre = self.frames();
        self.vars.push((name, value));
        proof {
            assert(self.vars@.drop_last() =~= old(self).vars@);
            assert(self.frames() =~= env_define(pre, name@, value@));
        }
    }

    /// Read a name, walking the chain from this scope outward.
    pub fn get(&self, name: &String) -> (r: Option<&LoxValue>)
        ensures
            match r {
                Some(v) => env_get(self.frames(), name@) == Some(v@),
                None => env_get(self.frames(), name@) is None,
            },
        decreases self,
    {
        let mut i: usize = self.vars.len();
        proof {
            assert(self.vars@.take(i as int) =~= self.vars@);
        }
        loop
            invariant
                i <= self.vars.len(),
                frame_lookup(self.vars@, name@) == frame_lookup(self.vars@.take(i as int), name@),
            ensures
                i == 0,
                frame_lookup(self.vars@, name@) is None,
            decreases i,
        {
            if i == 0 {
                break ;
            }
            let entry = &self.vars[i - 1];
            proof {
                assert(self.vars@.take(i as int).drop_last() =~= self.vars@.take(i - 1));
            }
            if entry.0.eq(name) {
                proof {
                    lemma_frame_lookup(self.vars@, name@);
                }
                return Some(&entry.1);
            }
            i = i - 1;
        }
        proof {
            lemma_frame_lookup(self.vars@, name@);
            assert(self.vars@.take(0) =~= Seq::<(String, LoxValue)>::empty());
            assert(self.frames()[0] == frame_map(self.vars@));
            assert(env_get(self.frames(), name@) == env_get(self.frames().skip(1), name@));
        }
        match &self.outer {
            Some(o) => {
                let r = o.get(name);
                proof {
                    assert(self.frames().skip(1) =~= o.frames());
                }
                r
            },
            None => {
                proof {
                    assert(self.frames().skip(1) =~= Seq::<FrameM>::empty());
                }
                None
            },
        }
    }

    /// Overwrite a name at the innermost scope that binds it; tells
    /// whether any did.
    pub fn set(&mut self, name: String, value: LoxValue) -> (r: bool)
        ensures
            r == env_has(old(self).frames(), name@),
            r ==> final(self).frames() == env_set(old(self).frames(), name@, value@),
            !r ==> final(self).frames() == old(self).frames(),
        decreases *old(self),
    {
        let mut i: usize = self.vars.len();
        proof {
            assert(self.vars@.take(i as int) =~= self.vars@);
        }
        loop
            invariant
                i <= self.vars.len(),
                self == old(self),
                frame_lookup(self.vars@, name@) == frame_lookup(self.vars@.take(i as int), name@),
                forall|j: int|
                    i <= j < self.vars@.len() ==> #[trigger] self.vars@[j].0@ != name@,
            ensures
                self == old(self),
                i == 0,
                frame_lookup(self.vars@, name@) is None,
            decreases i,
        {
            if i == 0 {
                break ;
            }
            proof {
                assert(self.vars@.take(i as int).drop_last() =~= self.vars@.take(i - 1));
            }
            let hit = self.vars[i - 1].0.eq(&name);
            if hit {
                proof {
                    lemma_frame_lookup(self.vars@, name@);
                }
                let ghost pre = self.frames();
                let ghost nm = name@;
                let ghost vm = value@;
                proof {
                    lemma_frame_update(self.vars@, i - 1, name, value);
                }
                self.vars[i - 1] = (name, value);
                proof {
                    assert(self.frames() =~= env_set(pre, nm, vm));
                }
                return true;
            }
            i = i - 1;
        }
        proof {
            lemma_frame_lookup(self.vars@, name@);
            assert(self.vars@.take(0) =~= Seq::<(String, LoxValue)>::empty());
            assert(self.frames()[0] == frame_map(self.vars@));
            assert(env_get(self.frames(), name@) == env_get(self.frames().skip(1), name@));
        }
        match &mut self.outer {
            Some(o) => {
                let ghost opre = o.frames();
                let r = o.set(name, value);
                proof {
                    assert(old(self).frames().skip(1) =~= opre);
                    if r {
                        assert(self.frames() =~= env_set(old(self).frames(), name@, value@));
                    } else {
                        assert(self.frames() =~= old(self).frames());
                    }
                }
                r
            },
            None => {
                proof {
                    assert(old(self).frames().skip(1) =~= Seq::<FrameM>::empty());
                }
                false
            },
        }
    }

    /// Drop this scope's own frame and hand back the enclosing chain.
    pub fn unscope(self) -> (r: Option<Box<Scope>>)
        ensures
            match r {
                Some(o) => self.frames().len() > 1 && o.frames() == self.frames().skip(1),
                None => self.frames().len() == 1,
            },
    {
        proof {
            if self.outer is Some {
                assert(self.frames().skip(1) =~= self.outer.unwrap().frames());
            }
        }
        self.outer
    }
}

pub proof fn lemma_env_set_len(env: EnvM, name: Seq<char>, v: ValM)
    ensures
        env_set(env, name, v).len() == env.len(),
    decreases env.len(),
{
    if env.len() > 0 && !env[0].contains_key(name) {
        lemma_env_set_len(env.skip(1), name, v);
    }
}

/// A value read out of a valid chain is itself valid.
pub proof fn lemma_env_get_inv(env: EnvM, name: Seq<char>)
    requires
        env_inv(env),
    ensures
        match env_get(env, name) {
            Some(v) => val_inv(v),
            None => true,
        },
    decreases env.len(),
{
    if env.len() > 0 && !env[0].contains_key(name) {
        assert(env_inv(env.skip(1))) by {
            assert(forall|i: int, nm: Seq<char>|
                0 <= i < env.skip(1).len() && #[trigger] env.skip(1)[i].contains_key(nm)
                    ==> env.skip(1)[i] == env[i + 1]);
        }
        lemma_env_get_inv(env.skip(1), name);
    }
}

/// Binding a valid value keeps the chain valid.
pub proof fn lemma_env_inv_define(env: EnvM, name: Seq<char>, v: ValM)
    requires
        env_inv(env),
        val_inv(v),
        env.len() > 0,
    ensures
        env_inv(env_define(env, name, v)),
        env_define(env, name, v).len() == env.len(),
{
    let env2 = env_define(env, name, v);
    assert forall|i: int, nm: Seq<char>|
        0 <= i < env2.len() && #[trigger] env2[i].contains_key(nm) implies val_inv(
        env2[i][nm],
    ) by {
        if i == 0 {
            if nm != name {
                assert(env[0].contains_key(nm));
            }
        } else {
            assert(env2[i] == env[i]);
        }
    }
}

/// Overwriting with a valid value keeps the chain valid.
pub proof fn lemma_env_inv_set(env: EnvM, name: Seq<char>, v: ValM)
    requires
        env_inv(env),
        val_inv(v),
    ensures
        env_inv(env_set(env, name, v)),
    decreases env.len(),
{
    if env.len() == 0 {
    } else if env[0].contains_key(name) {
        let env2 = env_set(env, name, v);
        assert forall|i: int, nm: Seq<char>|
            0 <= i < env2.len() && #[trigger] env2[i].contains_key(nm) implies val_inv(
            env2[i][nm],
        ) by {
            if i == 0 {
                if nm != name {
                    assert(env[0].contains_key(nm));
                }
            } else {
                assert(env2[i] == env[i]);
            }
        }
    } else {
        assert(env_inv(env.skip(1))) by {
            assert(forall|i: int, nm: Seq<char>|
                0 <= i < env.skip(1).len() && #[trigger] env.skip(1)[i].contains_key(nm)
                    ==> env.skip(1)[i] == env[i + 1]);
        }
        lemma_env_inv_set(env.skip(1), name, v);
        let env2 = env_set(env, name, v);
        let inner = env_set(env.skip(1), name, v);
        assert forall|i: int, nm: Seq<char>|
            0 <= i < env2.len() && #[trigger] env2[i].contains_key(nm) implies val_inv(
            env2[i][nm],
        ) by {
            if i == 0 {
                assert(env2[0] == env[0]);
            } else {
                assert(env2[i] == inner[i - 1]);
            }
        }
    }
}

/// A popped chain is still valid.
pub proof fn lemma_env_inv_skip(env: EnvM)
    requires
        env_inv(env),
        env.len() >= 1,
    ensures
        env_inv(env.skip(1)),
{
    assert(forall|i: int, nm: Seq<char>|
        0 <= i < env.skip(1).len() && #[trigger] env.skip(1)[i].contains_key(nm) ==> env.skip(
            1,
        )[i] == env[i + 1]);
}

/// A pushed empty frame keeps the chain valid.
pub proof fn lemma_env_inv_push(env: EnvM)
    requires
        env_inv(env),
    ensures
        env_inv(seq![Map::<Seq<char>, ValM>::empty()] + env),
{
    let env2 = seq![Map::<Seq<char>, ValM>::empty()] + env;
    assert(forall|i: int, nm: Seq<char>|
        0 < i < env2.len() && #[trigger] env2[i].contains_key(nm) ==> env2[i] == env[i - 1]);
}

/// What scanning an association list backwards for a name yields.
pub open spec fn frame_lookup(l: Seq<(String, LoxValue)>, name: Seq<char>) -> Option<ValM>
    decreases l.len(),
{
    if l.len() == 0 {
        None
    } else if l.last().0@ == name {
        Some(l.last().1@)
    } else {
        frame_lookup(l.drop_last(), name)
    }
}

/// The backward scan agrees with the mapping the list denotes.
pub proof fn lemma_frame_lookup(l: Seq<(String, LoxValue)>, name: Seq<char>)
    ensures
        frame_map(l).contains_key(name) == (frame_lookup(l, name) is Some),
        frame_map(l).contains_key(name) ==> frame_map(l)[name] == frame_lookup(l, name).unwrap(),
    decreases l.len(),
{
    if l.len() > 0 {
        lemma_frame_lookup(l.drop_last(), name);
    }
}

/// Overwriting the last occurrence of a name updates the mapping.
pub proof fn lemma_frame_update(l: Seq<(String, LoxValue)>, i: int, s: String, val: LoxValue)
    requires
        0 <= i < l.len(),
        l[i].0@ == s@,
        forall|j: int| i < j < l.len() ==> #[trigger] l[j].0@ != s@,
    ensures
        frame_map(l.update(i, (s, val))) == frame_map(l).insert(s@, val@),
    decreases l.len(),
{
    let l2 = l.update(i, (s, val));
    if i == l.len() - 1 {
        assert(l2.drop_last() =~= l.drop_last());
        assert(frame_map(l2) =~= frame_map(l).insert(s@, val@));
    } else {
        assert forall|j: int| i < j < l.drop_last().len() implies #[trigger] l.drop_last()[j].0@
            != s@ by {
            assert(l.drop_last()[j] == l[j]);
        }
        lemma_frame_update(l.drop_last(), i, s, val);
        assert(l2.drop_last() =~= l.drop_last().update(i, (s, val)));
        assert(l2.last() == l.last());
        assert(l.last().0@ != s@);
        assert(frame_map(l2) =~= frame_map(l).insert(s@, val@));
    }
}

} // verus!
