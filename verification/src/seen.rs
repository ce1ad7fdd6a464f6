//! The names that a run has already given out.

use vstd::prelude::*;
use crate::text::{same_text, texts};

verus! {

/// The names assigned so far in one run, in the order in which they were
/// assigned. No name occurs twice.
pub struct SeenNames {
    names: Vec<String>,
}

impl View for SeenNames {
    type V = Seq<Seq<char>>;

    closed spec fn view(&self) -> Seq<Seq<char>> {
        texts(self.names@)
    }
}

impl SeenNames {
    #[verifier::type_invariant]
    closed spec fn distinct(&self) -> bool {
        self@.no_duplicates()
    }

    /// The names of a run that has assigned none yet.
    pub fn new() -> (s: Self)
        ensures
            s@ == Seq::<Seq<char>>::empty(),
    {
        let s = SeenNames { names: Vec::new() };
        s
    }

    /// How many names have been assigned. No name is counted twice.
    pub fn len(&self) -> (n: usize)
        ensures
            n == self@.len(),
            self@.no_duplicates(),
    {
        proof {
            use_type_invariant(self);
        }
        self.names.len()
    }

    /// Whether `name` has been assigned.
    pub fn contains(&self, name: &str) -> (b: bool)
        ensures
            b == self@.contains(name@),
    {
        let mut i: usize = 0;
        while i < self.names.len()
            invariant
                i <= self.names.len(),
                forall|j: int| 0 <= j < i ==> self@[j] != name@,
            decreases self.names.len() - i,
        {
            if same_text(self.names[i].as_str(), name) {
                assert(self@[i as int] == name@);
                return true;
            }
            i += 1;
        }
        false
    }

    /// Records `name` as assigned, unless it already is. Returns whether it
    /// was new.
    pub fn insert(&mut self, name: String) -> (fresh: bool)
        ensures
            fresh == !old(self)@.contains(name@),
            final(self)@ == if fresh {
                old(self)@.push(name@)
            } else {
                old(self)@
            },
            final(self)@.no_duplicates(),
    {
        proof {
            use_type_invariant(&*self);
        }
        if self.contains(name.as_str()) {
            false
        } else {
            self.record(name);
            true
        }
    }

    /// Records a name that has not been assigned yet.
    pub(crate) fn record(&mut self, name: String)
        requires
            !old(self)@.contains(name@),
        ensures
            final(self)@ == old(self)@.push(name@),
            final(self)@.no_duplicates(),
    {
        proof {
            use_type_invariant(&*self);
        }
        let mut names: Vec<String> = Vec::new();
        std::mem::swap(&mut self.names, &mut names);
        names.push(name);
        assert(texts(names@) =~= old(self)@.push(name@));
        self.names = names;
    }
}

} // verus!
