//! An environment: names with values, each name at most once.

use crate::text::same_text;
use vstd::prelude::*;

verus! {

/// Environment variables, in no particular order.
pub struct Env {
    vars: Vec<(String, String)>,
}

/// The map that a list of variables stands for; a later one replaces an earlier one.
pub open spec fn vars_map(vars: Seq<(String, String)>) -> Map<Seq<char>, Seq<char>>
    decreases vars.len(),
{
    if vars.len() == 0 {
        Map::empty()
    } else {
        vars_map(vars.drop_last()).insert(vars.last().0@, vars.last().1@)
    }
}

/// Whether no name occurs twice.
pub open spec fn names_distinct(vars: Seq<(String, String)>) -> bool {
    forall|i: int, j: int|
        0 <= i < j < vars.len() ==> (#[trigger] vars[i]).0@ != (#[trigger] vars[j]).0@
}

impl View for Env {
    type V = Map<Seq<char>, Seq<char>>;

    closed spec fn view(&self) -> Map<Seq<char>, Seq<char>> {
        vars_map(self.vars@)
    }
}

/// The value of a variable, where it is set.
pub open spec fn value_in(env: Map<Seq<char>, Seq<char>>, name: Seq<char>) -> Option<Seq<char>> {
    if env.contains_key(name) {
        Some(env[name])
    } else {
        None
    }
}

proof fn lemma_vars_map_keys(vars: Seq<(String, String)>, name: Seq<char>)
    ensures
        vars_map(vars).contains_key(name) <==> exists|i: int|
            0 <= i < vars.len() && (#[trigger] vars[i]).0@ == name,
    decreases vars.len(),
{
    if vars.len() > 0 {
        let init = vars.drop_last();
        lemma_vars_map_keys(init, name);
        if vars_map(init).contains_key(name) {
            let i = choose|i: int| 0 <= i < init.len() && (#[trigger] init[i]).0@ == name;
            assert(vars[i].0@ == name);
        }
        if exists|i: int| 0 <= i < vars.len() && (#[trigger] vars[i]).0@ == name {
            let i = choose|i: int| 0 <= i < vars.len() && (#[trigger] vars[i]).0@ == name;
            if i < init.len() {
                assert(init[i].0@ == name);
            } else {
                assert(vars.last().0@ == name);
            }
        }
        if vars.last().0@ == name {
            assert(vars[vars.len() - 1].0@ == name);
        }
    }
}

impl Env {
    /// Each name occurs once.
    pub closed spec fn wf(self) -> bool {
        names_distinct(self.vars@)
    }

    /// The empty environment.
    pub fn new() -> (r: Self)
        ensures
            r.wf(),
            r@ == Map::<Seq<char>, Seq<char>>::empty(),
    {
        Env { vars: Vec::new() }
    }

    /// The value of a variable, if it is set.
    pub fn get(&self, name: &str) -> (r: Option<&String>)
        ensures
            match r {
                Some(v) => value_in(self@, name@) == Some(v@),
                None => value_in(self@, name@) is None,
            },
    {
        let mut i: usize = self.vars.len();
        assert(self.vars@.take(i as int) =~= self.vars@);
        while i > 0
            invariant
                i <= self.vars@.len(),
                value_in(self@, name@) == value_in(vars_map(self.vars@.take(i as int)), name@),
            decreases i,
        {
            i -= 1;
            assert(self.vars@.take(i + 1).drop_last() =~= self.vars@.take(i as int));
            assert(self.vars@.take(i + 1).last() == self.vars@[i as int]);
            if same_text(self.vars[i].0.as_str(), name) {
                return Some(&self.vars[i].1);
            }
        }
        None
    }

    /// Unsets a variable.
    pub fn remove(&mut self, name: &str)
        requires
            old(self).wf(),
        ensures
            final(self).wf(),
            final(self)@ == old(self)@.remove(name@),
    {
        let mut kept: Vec<(String, String)> = Vec::new();
        let ghost all = self.vars@;
        let mut i: usize = 0;
        assert(all.take(0) =~= Seq::<(String, String)>::empty());
        assert(vars_map(all.take(0)).remove(name@) =~= Map::<Seq<char>, Seq<char>>::empty());
        while i < self.vars.len()
            invariant
                self.vars@ == all,
                i <= all.len(),
                names_distinct(all),
                names_distinct(kept@),
                vars_map(kept@) == vars_map(all.take(i as int)).remove(name@),
                forall|k: int|
                    0 <= k < kept@.len() ==> exists|j: int|
                        0 <= j < i && all[j].0@ == (#[trigger] kept@[k]).0@,
            decreases all.len() - i,
        {
            let ghost before = kept@;
            proof {
                assert(all.take(i + 1).drop_last() =~= all.take(i as int));
                assert(all.take(i + 1).last() == all[i as int]);
            }
            if !same_text(self.vars[i].0.as_str(), name) {
                let key = self.vars[i].0.clone();
                let value = self.vars[i].1.clone();
                kept.push((key, value));
                proof {
                    assert(kept@.drop_last() =~= before);
                    assert forall|a: int, b: int| 0 <= a < b < kept@.len() implies (
                    #[trigger] kept@[a]).0@ != (#[trigger] kept@[b]).0@ by {
                        if b == before.len() {
                            assert(kept@[a] == before[a]);
                            let j = choose|j: int| 0 <= j < i && all[j].0@ == before[a].0@;
                            assert(all[j].0@ != all[i as int].0@);
                        }
                    }
                }
                assert(vars_map(kept@) =~= vars_map(all.take(i + 1)).remove(name@));
            } else {
                assert(vars_map(kept@) =~= vars_map(all.take(i + 1)).remove(name@));
            }
            proof {
                assert forall|k: int| 0 <= k < kept@.len() implies exists|j: int|
                    0 <= j < i + 1 && all[j].0@ == (#[trigger] kept@[k]).0@ by {
                    if k < before.len() {
                        assert(kept@[k] == before[k]);
                        let j = choose|j: int| 0 <= j < i && all[j].0@ == before[k].0@;
                        assert(0 <= j < i + 1 && all[j].0@ == kept@[k].0@);
                    } else {
                        assert(all[i as int].0@ == kept@[k].0@);
                    }
                }
            }
            i += 1;
        }
        assert(all.take(i as int) =~= all);
        self.vars = kept;
    }

    /// Sets a variable, replacing any earlier value.
    pub fn insert(&mut self, name: &str, value: &str)
        requires
            old(self).wf(),
        ensures
            final(self).wf(),
            final(self)@ == old(self)@.insert(name@, value@),
    {
        self.remove(name);
        let ghost before = self.vars@;
        self.vars.push((name.to_owned(), value.to_owned()));
        proof {
            assert(self.vars@.drop_last() =~= before);
            lemma_vars_map_keys(before, name@);
            assert forall|a: int, b: int| 0 <= a < b < self.vars@.len() implies (
            #[trigger] self.vars@[a]).0@ != (#[trigger] self.vars@[b]).0@ by {
                assert(self.vars@[a] == before[a]);
                if b == before.len() {
                    assert(!vars_map(before).contains_key(name@));
                }
            }
            assert(self@ =~= old(self)@.insert(name@, value@));
        }
    }

    /// The variables as a list, each name once.
    pub fn entries(&self) -> (r: &Vec<(String, String)>)
        requires
            self.wf(),
        ensures
            vars_map(r@) == self@,
            names_distinct(r@),
    {
        &self.vars
    }

    /// A copy of the environment.
    pub fn copy(&self) -> (r: Self)
        requires
            self.wf(),
        ensures
            r.wf(),
            r@ == self@,
    {
        let mut out: Vec<(String, String)> = Vec::new();
        let ghost all = self.vars@;
        let mut i: usize = 0;
        assert(all.take(0) =~= Seq::<(String, String)>::empty());
        while i < self.vars.len()
            invariant
                all == self.vars@,
                i <= all.len(),
                out@.len() == i,
                forall|j: int| 0 <= j < i ==> (#[trigger] out@[j]).0@ == all[j].0@,
                vars_map(out@) == vars_map(all.take(i as int)),
            decreases all.len() - i,
        {
            let ghost before = out@;
            out.push((self.vars[i].0.clone(), self.vars[i].1.clone()));
            assert(out@.drop_last() =~= before);
            assert(all.take(i + 1).drop_last() =~= all.take(i as int));
            assert(all.take(i + 1).last() == all[i as int]);
            i += 1;
        }
        assert(all.take(i as int) =~= all);
        assert forall|a: int, b: int| 0 <= a < b < out@.len() implies (#[trigger] out@[a]).0@ != (
        #[trigger] out@[b]).0@ by {
            assert(all[a].0@ != all[b].0@);
        }
        Env { vars: out }
    }
}

} // verus!
