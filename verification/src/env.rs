//! The shell's environment: the variables that builtins change and that
//! expansion reads, and the shell's own process id.

use vstd::prelude::*;
use crate::text::str_eq;

verus! {

/// The variables of the shell, by name, and the shell's process id.
pub struct Environment {
    vars: Vec<(String, String)>,
    pid: u32,
}

/// The names and values of a list of pairs, as texts.
pub open spec fn pairs_view(vars: Seq<(String, String)>) -> Seq<(Seq<char>, Seq<char>)> {
    vars.map_values(|p: (String, String)| (p.0@, p.1@))
}

/// Whether `i` is a place where `name` stands.
pub open spec fn names_at(pairs: Seq<(Seq<char>, Seq<char>)>, name: Seq<char>, i: int) -> bool {
    0 <= i < pairs.len() && pairs[i].0 == name
}

/// No name stands at two places.
pub open spec fn names_distinct(pairs: Seq<(Seq<char>, Seq<char>)>) -> bool {
    forall|i: int, j: int|
        0 <= i < j < pairs.len() ==> (#[trigger] pairs[i]).0 != (#[trigger] pairs[j]).0
}

/// The variables that a list of pairs defines.
pub open spec fn vars_of(pairs: Seq<(Seq<char>, Seq<char>)>) -> Map<Seq<char>, Seq<char>> {
    Map::new(
        |name: Seq<char>| exists|i: int| names_at(pairs, name, i),
        |name: Seq<char>| pairs[choose|i: int| names_at(pairs, name, i)].1,
    )
}

impl Environment {
    #[verifier::type_invariant]
    spec fn inv(self) -> bool {
        names_distinct(pairs_view(self.vars@))
    }

    /// The variables, by name.
    pub closed spec fn vars(&self) -> Map<Seq<char>, Seq<char>> {
        vars_of(pairs_view(self.vars@))
    }

    /// The shell's process id.
    pub closed spec fn shell_pid(&self) -> u32 {
        self.pid
    }

    /// An environment without variables, for the shell with this pid.
    pub fn new(pid: u32) -> (r: Environment)
        ensures
            r.vars() == Map::<Seq<char>, Seq<char>>::empty(),
            r.shell_pid() == pid,
    {
        let r = Environment { vars: Vec::new(), pid };
        assert(r.vars() =~= Map::<Seq<char>, Seq<char>>::empty());
        r
    }

    /// The shell's process id.
    pub fn pid(&self) -> (r: u32)
        ensures
            r == self.shell_pid(),
    {
        self.pid
    }

    fn position(&self, name: &str) -> (r: Option<usize>)
        ensures
            names_distinct(pairs_view(self.vars@)),
            match r {
                Some(i) => names_at(pairs_view(self.vars@), name@, i as int) && self.vars().dom().contains(
                    name@,
                ) && self.vars()[name@] == self.vars@[i as int].1@,
                None => !self.vars().dom().contains(name@),
            },
    {
        proof {
            use_type_invariant(self);
        }
        let ghost pairs = pairs_view(self.vars@);
        let mut i: usize = 0;
        while i < self.vars.len()
            invariant
                i <= self.vars.len(),
                pairs == pairs_view(self.vars@),
                names_distinct(pairs),
                forall|j: int| 0 <= j < i ==> !names_at(pairs, name@, j),
            decreases self.vars.len() - i,
        {
            if str_eq(self.vars[i].0.as_str(), name) {
                proof {
                    assert(names_at(pairs, name@, i as int));
                    let k = choose|k: int| names_at(pairs, name@, k);
                    if k < i {
                        assert(pairs[k].0 != pairs[i as int].0);
                    } else if i < k {
                        assert(pairs[i as int].0 != pairs[k].0);
                    }
                }
                return Some(i);
            }
            i += 1;
        }
        None
    }

    /// The value of the variable `name`, if it is set.
    pub fn get(&self, name: &str) -> (r: Option<&String>)
        ensures
            match r {
                Some(value) => self.vars().dom().contains(name@) && self.vars()[name@] == value@,
                None => !self.vars().dom().contains(name@),
            },
    {
        match self.position(name) {
            Some(i) => Some(&self.vars[i].1),
            None => None,
        }
    }

    /// Sets the variable `name` to `value`.
    pub fn set(&mut self, name: String, value: String)
        ensures
            final(self).vars() == old(self).vars().insert(name@, value@),
            final(self).shell_pid() == old(self).shell_pid(),
    {
        let ghost before = pairs_view(self.vars@);
        let found = self.position(name.as_str());
        let mut vars: Vec<(String, String)> = Vec::new();
        std::mem::swap(&mut vars, &mut self.vars);
        assert(pairs_view(self.vars@) =~= Seq::empty());
        match found {
            Some(i) => {
                vars.set(i, (name, value));
                proof {
                    let after = pairs_view(vars@);
                    assert(after =~= before.update(i as int, (name@, value@)));
                    assert forall|a: int, b: int| 0 <= a < b < after.len() implies (
                    #[trigger] after[a]).0 != (#[trigger] after[b]).0 by {
                        assert(after[a].0 == before[a].0);
                        assert(after[b].0 == before[b].0);
                    }
                    lemma_update_inserts(before, i as int, value@);
                }
            },
            None => {
                vars.push((name, value));
                proof {
                    let after = pairs_view(vars@);
                    assert(after =~= before.push((name@, value@)));
                    assert forall|a: int, b: int| 0 <= a < b < after.len() implies (
                    #[trigger] after[a]).0 != (#[trigger] after[b]).0 by {
                        assert(after[a] == before[a]);
                        if b < before.len() {
                            assert(after[b] == before[b]);
                        } else {
                            assert(!names_at(before, name@, a));
                        }
                    }
                    lemma_push_inserts(before, name@, value@);
                }
            },
        }
        self.vars = vars;
    }

    /// Removes the variable `name`.
    pub fn unset(&mut self, name: &str)
        ensures
            final(self).vars() == old(self).vars().remove(name@),
            final(self).shell_pid() == old(self).shell_pid(),
    {
        let ghost before = pairs_view(self.vars@);
        match self.position(name) {
            Some(i) => {
                let mut vars: Vec<(String, String)> = Vec::new();
                std::mem::swap(&mut vars, &mut self.vars);
                assert(pairs_view(self.vars@) =~= Seq::empty());
                vars.remove(i);
                proof {
                    let after = pairs_view(vars@);
                    assert(after =~= before.remove(i as int));
                    assert forall|a: int, b: int| 0 <= a < b < after.len() implies (
                    #[trigger] after[a]).0 != (#[trigger] after[b]).0 by {
                        let a0 = if a < i { a } else { a + 1 };
                        let b0 = if b < i { b } else { b + 1 };
                        assert(after[a] == before[a0]);
                        assert(after[b] == before[b0]);
                    }
                    lemma_remove_removes(before, i as int);
                }
                self.vars = vars;
            },
            None => {
                assert(self.vars() =~= self.vars().remove(name@));
            },
        }
    }

    /// All variables as pairs of name and value, in the order in which
    /// they were first set.
    pub fn pairs(&self) -> (r: &Vec<(String, String)>)
        ensures
            vars_of(pairs_view(r@)) == self.vars(),
            names_distinct(pairs_view(r@)),
    {
        proof {
            use_type_invariant(self);
        }
        &self.vars
    }
}

/// The place of a name in a list of distinct names is the one place where
/// it stands.
proof fn lemma_place(pairs: Seq<(Seq<char>, Seq<char>)>, i: int)
    requires
        names_distinct(pairs),
        0 <= i < pairs.len(),
    ensures
        vars_of(pairs).dom().contains(pairs[i].0),
        vars_of(pairs)[pairs[i].0] == pairs[i].1,
{
    let name = pairs[i].0;
    assert(names_at(pairs, name, i));
    let k = choose|k: int| names_at(pairs, name, k);
    if k < i {
        assert(pairs[k].0 != pairs[i].0);
    } else if i < k {
        assert(pairs[i].0 != pairs[k].0);
    }
}

proof fn lemma_update_inserts(pairs: Seq<(Seq<char>, Seq<char>)>, i: int, value: Seq<char>)
    requires
        names_distinct(pairs),
        0 <= i < pairs.len(),
        names_distinct(pairs.update(i, (pairs[i].0, value))),
    ensures
        vars_of(pairs.update(i, (pairs[i].0, value))) == vars_of(pairs).insert(pairs[i].0, value),
{
    let name = pairs[i].0;
    let after = pairs.update(i, (name, value));
    let want = vars_of(pairs).insert(name, value);
    assert forall|n: Seq<char>| vars_of(after).dom().contains(n) <==> want.dom().contains(n) by {
        if vars_of(after).dom().contains(n) {
            let k = choose|k: int| names_at(after, n, k);
            assert(names_at(pairs, n, k));
        }
        if want.dom().contains(n) && n != name {
            let k = choose|k: int| names_at(pairs, n, k);
            assert(names_at(after, n, k));
        }
        if n == name {
            assert(names_at(after, n, i));
        }
    }
    assert forall|n: Seq<char>| vars_of(after).dom().contains(n) implies vars_of(after)[n]
        == want[n] by {
        let k = choose|k: int| names_at(after, n, k);
        lemma_place(after, k);
        if n != name {
            assert(names_at(pairs, n, k));
            lemma_place(pairs, k);
        } else {
            lemma_place(after, i);
        }
    }
    assert(vars_of(after) =~= want);
}

proof fn lemma_push_inserts(pairs: Seq<(Seq<char>, Seq<char>)>, name: Seq<char>, value: Seq<char>)
    requires
        names_distinct(pairs),
        names_distinct(pairs.push((name, value))),
    ensures
        vars_of(pairs.push((name, value))) == vars_of(pairs).insert(name, value),
{
    let after = pairs.push((name, value));
    let want = vars_of(pairs).insert(name, value);
    assert forall|n: Seq<char>| vars_of(after).dom().contains(n) <==> want.dom().contains(n) by {
        if vars_of(after).dom().contains(n) {
            let k = choose|k: int| names_at(after, n, k);
            if k < pairs.len() {
                assert(names_at(pairs, n, k));
            }
        }
        if want.dom().contains(n) && n != name {
            let k = choose|k: int| names_at(pairs, n, k);
            assert(names_at(after, n, k));
        }
        if n == name {
            assert(names_at(after, n, pairs.len() as int));
        }
    }
    assert forall|n: Seq<char>| vars_of(after).dom().contains(n) implies vars_of(after)[n]
        == want[n] by {
        let k = choose|k: int| names_at(after, n, k);
        lemma_place(after, k);
        if k < pairs.len() {
            assert(names_at(pairs, n, k));
            lemma_place(pairs, k);
            assert(after[k] == pairs[k]);
            if n == name {
                lemma_place(after, pairs.len() as int);
            }
        }
    }
    assert(vars_of(after) =~= want);
}

proof fn lemma_remove_removes(pairs: Seq<(Seq<char>, Seq<char>)>, i: int)
    requires
        names_distinct(pairs),
        0 <= i < pairs.len(),
        names_distinct(pairs.remove(i)),
    ensures
        vars_of(pairs.remove(i)) == vars_of(pairs).remove(pairs[i].0),
{
    let name = pairs[i].0;
    let after = pairs.remove(i);
    let want = vars_of(pairs).remove(name);
    assert forall|n: Seq<char>| vars_of(after).dom().contains(n) <==> want.dom().contains(n) by {
        if vars_of(after).dom().contains(n) {
            let k = choose|k: int| names_at(after, n, k);
            let k0 = if k < i { k } else { k + 1 };
            assert(after[k] == pairs[k0]);
            assert(names_at(pairs, n, k0));
            if k0 < i {
                assert(pairs[k0].0 != pairs[i].0);
            } else {
                assert(pairs[i].0 != pairs[k0].0);
            }
        }
        if want.dom().contains(n) {
            let k0 = choose|k: int| names_at(pairs, n, k);
            let k = if k0 < i { k0 } else { k0 - 1 };
            assert(after[k] == pairs[k0]);
            assert(names_at(after, n, k));
        }
    }
    assert forall|n: Seq<char>| vars_of(after).dom().contains(n) implies vars_of(after)[n]
        == want[n] by {
        let k = choose|k: int| names_at(after, n, k);
        let k0 = if k < i { k } else { k + 1 };
        assert(after[k] == pairs[k0]);
        lemma_place(after, k);
        lemma_place(pairs, k0);
    }
    assert(vars_of(after) =~= want);
}

} // verus!
