//! A package: the main model part and further model parts.

use vstd::prelude::*;
use crate::model::core_model::Model;

verus! {

/// A 3MF package holding several model parts.
#[derive(Debug, Clone)]
pub struct Package {
    /// The main model part.
    pub main_model: Model,
    /// Further model parts with their package paths, in insertion order.
    pub parts: Vec<(String, Model)>,
}

impl Package {
    /// Creates a package with only its main model.
    pub fn new(main_model: Model) -> (p: Self)
        ensures
            p.main_model == main_model,
            p.parts@.len() == 0,
    {
        Package { main_model, parts: Vec::new() }
    }

    /// Stores a model part under `path`, replacing an earlier part with the same path.
    pub fn add_part(&mut self, path: String, model: Model)
        ensures
            final(self).main_model == old(self).main_model,
            exists|i: int| 0 <= i < final(self).parts@.len() && final(self).parts@[i].0@ == path@
                && final(self).parts@[i].1 == model
                && forall|j: int| 0 <= j < i ==> final(self).parts@[j].0@ != path@,
            forall|j: int| 0 <= j < final(self).parts@.len() && final(self).parts@[j].0@ != path@
                ==> old(self).parts@.contains(#[trigger] final(self).parts@[j]),
            forall|j: int| 0 <= j < old(self).parts@.len() && old(self).parts@[j].0@ != path@
                ==> final(self).parts@.contains(#[trigger] old(self).parts@[j]),
    {
        let mut i: usize = 0;
        while i < self.parts.len()
            invariant
                i <= self.parts@.len(),
                self.parts@ == old(self).parts@,
                self.main_model == old(self).main_model,
                forall|j: int| 0 <= j < i ==> self.parts@[j].0@ != path@,
            decreases self.parts@.len() - i,
        {
            if self.parts[i].0 == path {
                let ghost before = self.parts@;
                self.parts.set(i, (path, model));
                proof {
                    assert forall|j: int| 0 <= j < self.parts@.len() && self.parts@[j].0@ != path@
                        implies before.contains(#[trigger] self.parts@[j]) by {
                        assert(self.parts@[j] == before[j]);
                    }
                    assert forall|j: int| 0 <= j < before.len() && before[j].0@ != path@
                        implies self.parts@.contains(#[trigger] before[j]) by {
                        assert(self.parts@[j] == before[j]);
                    }
                    assert(self.parts@[i as int].0@ == path@);
                }
                return;
            }
            i = i + 1;
        }
        let ghost before = self.parts@;
        let n = self.parts.len();
        self.parts.push((path, model));
        proof {
            assert forall|j: int| 0 <= j < self.parts@.len() && self.parts@[j].0@ != path@
                implies before.contains(#[trigger] self.parts@[j]) by {
                assert(j < n);
                assert(self.parts@[j] == before[j]);
            }
            assert forall|j: int| 0 <= j < before.len() && before[j].0@ != path@
                implies self.parts@.contains(#[trigger] before[j]) by {
                assert(self.parts@[j] == before[j]);
            }
            assert(self.parts@[n as int].0@ == path@);
        }
    }
}

} // verus!
