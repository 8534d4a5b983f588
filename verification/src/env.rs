//! The environment that lowering resolves identifiers in.

use vstd::prelude::*;

verus! {

/// The mapping that a list of bindings stands for: each name maps to the
/// offset of its last binding in the list.
pub open spec fn bindings_map(bindings: Seq<(String, i64)>) -> Map<Seq<char>, i64>
    decreases bindings.len(),
{
    if bindings.len() == 0 {
        Map::empty()
    } else {
        bindings_map(bindings.drop_last()).insert(bindings.last().0@, bindings.last().1)
    }
}

/// A mapping from identifiers to stack offsets.
///
/// An environment only grows: a binding added later hides an earlier one of
/// the same name, and nothing is ever taken out.
#[derive(Debug)]
pub struct Env {
    bindings: Vec<(String, i64)>,
}

impl View for Env {
    type V = Map<Seq<char>, i64>;

    closed spec fn view(&self) -> Map<Seq<char>, i64> {
        bindings_map(self.bindings@)
    }
}

impl Clone for Env {
    fn clone(&self) -> (res: Self)
        ensures
            res@ == self@,
    {
        let mut bindings: Vec<(String, i64)> = Vec::new();
        let mut i: usize = 0;
        while i < self.bindings.len()
            invariant
                i <= self.bindings.len(),
                bindings@ == self.bindings@.take(i as int),
            decreases self.bindings.len() - i,
        {
            let entry = &self.bindings[i];
            bindings.push((entry.0.clone(), entry.1));
            assert(bindings@ =~= self.bindings@.take(i + 1));
            i += 1;
        }
        assert(self.bindings@.take(i as int) =~= self.bindings@);
        Env { bindings }
    }
}

impl Env {
    /// The environment that binds no name.
    pub fn new() -> (env: Self)
        ensures
            env@ == Map::<Seq<char>, i64>::empty(),
    {
        Env { bindings: Vec::new() }
    }

    /// The offset that `name` is bound to, or `None` where it is not bound.
    pub fn lookup(&self, name: &String) -> (found: Option<i64>)
        ensures
            found == if self@.contains_key(name@) {
                Some(self@[name@])
            } else {
                None::<i64>
            },
    {
        let mut i: usize = self.bindings.len();
        assert(self.bindings@.take(i as int) =~= self.bindings@);
        while i > 0
            invariant
                i <= self.bindings.len(),
                self@.contains_key(name@) == bindings_map(self.bindings@.take(i as int)).contains_key(
                    name@,
                ),
                self@.contains_key(name@) ==> self@[name@] == bindings_map(
                    self.bindings@.take(i as int),
                )[name@],
            decreases i,
        {
            let entry = &self.bindings[i - 1];
            assert(self.bindings@.take(i as int).drop_last() =~= self.bindings@.take(i - 1));
            assert(self.bindings@.take(i as int).last() == *entry);
            if entry.0 == *name {
                return Some(entry.1);
            }
            i -= 1;
        }
        None
    }

    /// The environment in which `name` is bound to `offset` and every other
    /// name is bound as in `self`.
    pub fn bind(self, name: String, offset: i64) -> (env: Self)
        ensures
            env@ == self@.insert(name@, offset),
    {
        let mut bindings = self.bindings;
        bindings.push((name, offset));
        assert(bindings@.drop_last() =~= self.bindings@);
        Env { bindings }
    }
}

} // verus!
