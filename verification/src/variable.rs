//! The shell's own variables: names bound to text, apart from the environment
//! the shell itself runs in.

use vstd::prelude::*;

verus! {

/// Whether some pair of `pairs` has the name `name`.
pub open spec fn binds(pairs: Seq<(Seq<char>, Seq<char>)>, name: Seq<char>) -> bool {
    exists|i: int| 0 <= i < pairs.len() && (#[trigger] pairs[i]).0 == name
}

/// No name stands in two pairs.
pub open spec fn distinct_names(pairs: Seq<(Seq<char>, Seq<char>)>) -> bool {
    forall|i: int, j: int|
        0 <= i < pairs.len() && 0 <= j < pairs.len() && (#[trigger] pairs[i]).0 == (
        #[trigger] pairs[j]).0 ==> i == j
}

/// The map that a sequence of name and value pairs stands for.
pub open spec fn bindings(pairs: Seq<(Seq<char>, Seq<char>)>) -> Map<Seq<char>, Seq<char>> {
    Map::new(
        |name: Seq<char>| binds(pairs, name),
        |name: Seq<char>|
            pairs[choose|i: int| 0 <= i < pairs.len() && (#[trigger] pairs[i]).0 == name].1,
    )
}

/// The store of shell variables. Its view is the map from each bound name to
/// its value.
pub struct Variable {
    local_vars: Vec<(String, String)>,
}

impl View for Variable {
    type V = Map<Seq<char>, Seq<char>>;

    closed spec fn view(&self) -> Map<Seq<char>, Seq<char>> {
        bindings(self.pairs())
    }
}

impl Variable {
    /// The bindings one by one, in the order in which the names were first set.
    pub closed spec fn pairs(&self) -> Seq<(Seq<char>, Seq<char>)> {
        self.local_vars@.map_values(|e: (String, String)| (e.0@, e.1@))
    }

    #[verifier::type_invariant]
    spec fn inv(self) -> bool {
        distinct_names(self.pairs())
    }

    /// A store with no variable in it.
    pub fn new() -> (store: Variable)
        ensures
            store@ == Map::<Seq<char>, Seq<char>>::empty(),
            store.pairs() == Seq::<(Seq<char>, Seq<char>)>::empty(),
    {
        let store = Variable { local_vars: Vec::new() };
        assert(store.pairs() =~= Seq::empty());
        assert(store@ =~= Map::empty());
        store
    }

    /// Where `name` is bound among the pairs, if it is.
    fn position(&self, name: &String) -> (found: Option<usize>)
        ensures
            match found {
                Some(i) => i < self.pairs().len() && self.pairs()[i as int].0 == name@,
                None => !binds(self.pairs(), name@),
            },
    {
        let mut i: usize = 0;
        while i < self.local_vars.len()
            invariant
                i <= self.local_vars.len(),
                forall|k: int| 0 <= k < i ==> (#[trigger] self.pairs()[k]).0 != name@,
            decreases self.local_vars.len() - i,
        {
            if self.local_vars[i].0 == *name {
                return Some(i);
            }
            i += 1;
        }
        None
    }

    /// All the bindings, each name once.
    pub fn get_all(&self) -> (all: &Vec<(String, String)>)
        ensures
            all@.map_values(|e: (String, String)| (e.0@, e.1@)) == self.pairs(),
            distinct_names(self.pairs()),
            bindings(self.pairs()) == self@,
    {
        proof {
            use_type_invariant(self);
        }
        &self.local_vars
    }

    /// The value of `name`, or the empty string where `name` is not bound.
    pub fn get(&self, name: String) -> (value: String)
        ensures
            value@ == if self@.contains_key(name@) {
                self@[name@]
            } else {
                Seq::<char>::empty()
            },
    {
        proof {
            use_type_invariant(self);
        }
        match self.position(&name) {
            Some(i) => self.local_vars[i].1.clone(),
            None => String::new(),
        }
    }

    /// Binds `name` to `value`, in place of what it was bound to before.
    pub fn set(&mut self, name: String, value: String)
        ensures
            final(self)@ == old(self)@.insert(name@, value@),
            final(self).pairs() == if binds(old(self).pairs(), name@) {
                let i = choose|i: int|
                    0 <= i < old(self).pairs().len() && (#[trigger] old(self).pairs()[i]).0
                        == name@;
                old(self).pairs().update(i, (name@, value@))
            } else {
                old(self).pairs().push((name@, value@))
            },
    {
        proof {
            use_type_invariant(&*self);
        }
        let ghost before = self.pairs();
        let ghost pair = (name@, value@);
        match self.position(&name) {
            Some(i) => {
                let mut entries: Vec<(String, String)> = Vec::new();
                std::mem::swap(&mut entries, &mut self.local_vars);
                entries.set(i, (name, value));
                proof {
                    let after = entries@.map_values(|e: (String, String)| (e.0@, e.1@));
                    assert(after =~= before.update(i as int, pair));
                    lemma_update_bindings(before, i as int, pair.1);
                }
                self.local_vars = entries;
            },
            None => {
                let mut entries: Vec<(String, String)> = Vec::new();
                std::mem::swap(&mut entries, &mut self.local_vars);
                entries.push((name, value));
                proof {
                    let after = entries@.map_values(|e: (String, String)| (e.0@, e.1@));
                    assert(after =~= before.push(pair));
                    lemma_push_bindings(before, pair);
                }
                self.local_vars = entries;
            },
        }
    }
}

/// Giving the name at `i` a new value changes the map at that name only, and
/// keeps the names distinct.
pub proof fn lemma_update_bindings(pairs: Seq<(Seq<char>, Seq<char>)>, i: int, value: Seq<char>)
    requires
        distinct_names(pairs),
        0 <= i < pairs.len(),
    ensures
        distinct_names(pairs.update(i, (pairs[i].0, value))),
        bindings(pairs.update(i, (pairs[i].0, value))) == bindings(pairs).insert(pairs[i].0, value),
{
    let name = pairs[i].0;
    let after = pairs.update(i, (name, value));
    assert(distinct_names(after)) by {
        assert forall|a: int, b: int|
            0 <= a < after.len() && 0 <= b < after.len() && (#[trigger] after[a]).0 == (
            #[trigger] after[b]).0 implies a == b by {
            assert(after[a].0 == pairs[a].0);
            assert(after[b].0 == pairs[b].0);
        }
    }
    assert forall|n: Seq<char>| binds(after, n) == (binds(pairs, n) || n == name) by {
        if binds(after, n) {
            let k = choose|k: int| 0 <= k < after.len() && (#[trigger] after[k]).0 == n;
            assert(pairs[k].0 == n);
        }
        if binds(pairs, n) {
            let k = choose|k: int| 0 <= k < pairs.len() && (#[trigger] pairs[k]).0 == n;
            assert(after[k].0 == n);
        }
        if n == name {
            assert(after[i].0 == n);
        }
    }
    assert forall|n: Seq<char>| binds(after, n) implies #[trigger] bindings(after)[n] == bindings(
        pairs,
    ).insert(name, value)[n] by {
        let k = choose|k: int| 0 <= k < after.len() && (#[trigger] after[k]).0 == n;
        assert(pairs[k].0 == n);
        if n != name {
            let m = choose|m: int| 0 <= m < pairs.len() && (#[trigger] pairs[m]).0 == n;
            assert(m == k);
        } else {
            assert(after[i].0 == after[k].0);
        }
    }
    assert(bindings(after) =~= bindings(pairs).insert(name, value));
}

/// Appending a pair with a new name binds that name and changes nothing else.
pub proof fn lemma_push_bindings(pairs: Seq<(Seq<char>, Seq<char>)>, pair: (Seq<char>, Seq<char>))
    requires
        distinct_names(pairs),
        !binds(pairs, pair.0),
    ensures
        distinct_names(pairs.push(pair)),
        bindings(pairs.push(pair)) == bindings(pairs).insert(pair.0, pair.1),
{
    let after = pairs.push(pair);
    let last = pairs.len() as int;
    assert(distinct_names(after)) by {
        assert forall|a: int, b: int|
            0 <= a < after.len() && 0 <= b < after.len() && (#[trigger] after[a]).0 == (
            #[trigger] after[b]).0 implies a == b by {
            if a < last {
                assert(pairs[a].0 == after[a].0);
            }
            if b < last {
                assert(pairs[b].0 == after[b].0);
            }
        }
    }
    assert forall|n: Seq<char>| binds(after, n) == (binds(pairs, n) || n == pair.0) by {
        if binds(after, n) {
            let k = choose|k: int| 0 <= k < after.len() && (#[trigger] after[k]).0 == n;
            if k < last {
                assert(pairs[k].0 == n);
            }
        }
        if binds(pairs, n) {
            let k = choose|k: int| 0 <= k < pairs.len() && (#[trigger] pairs[k]).0 == n;
            assert(after[k].0 == n);
        }
        if n == pair.0 {
            assert(after[last].0 == n);
        }
    }
    assert forall|n: Seq<char>| binds(after, n) implies #[trigger] bindings(after)[n] == bindings(
        pairs,
    ).insert(pair.0, pair.1)[n] by {
        let k = choose|k: int| 0 <= k < after.len() && (#[trigger] after[k]).0 == n;
        if n != pair.0 {
            assert(k < last);
            assert(pairs[k].0 == n);
            let m = choose|m: int| 0 <= m < pairs.len() && (#[trigger] pairs[m]).0 == n;
            assert(after[m].0 == after[k].0);
        } else {
            assert(after[last].0 == after[k].0);
        }
    }
    assert(bindings(after) =~= bindings(pairs).insert(pair.0, pair.1));
}

} // verus!
