//! A keyed store of resources produced by a caller-supplied loader.

use vstd::prelude::*;

use vstd::string::StringExecFns;

verus! {

/// A source of resources: `load` builds one from caller data and may
/// fail, `create` builds a blank one of the given pixel size. Callers
/// of the store implement this for their own resource kind.
pub trait ResourceLoader<R> {
    type Args;

    fn load(&self, data: &Self::Args) -> Result<R, String>;

    fn create(&self, w: u32, h: u32) -> R;
}

/// A store of resources under integer keys, each loaded at most once.
pub struct ResourceManager<R, L: ResourceLoader<R>> {
    pub loader: L,
    pub table: Vec<(usize, R)>,
}

impl<R, L: ResourceLoader<R>> ResourceManager<R, L> {
    /// Some entry holds this key.
    pub open spec fn spec_contains(self, key: usize) -> bool {
        exists|i: int| 0 <= i < self.table@.len() && (#[trigger] self.table@[i]).0 == key
    }

    /// No two entries share a key.
    pub open spec fn wf(self) -> bool {
        forall|i: int, j: int|
            0 <= i < j < self.table@.len() ==> (#[trigger] self.table@[i]).0 != (
            #[trigger] self.table@[j]).0
    }

    pub fn new(loader: L) -> (r: Self)
        ensures
            r.wf(),
            r.table@.len() == 0,
            r.loader == loader,
    {
        ResourceManager { table: Vec::new(), loader }
    }

    /// The position of the entry holding `key`, if any.
    fn find(&self, key: usize) -> (r: Option<usize>)
        ensures
            r matches Some(i) ==> i < self.table@.len() && self.table@[i as int].0 == key,
            r is None ==> !self.spec_contains(key),
    {
        let mut i: usize = 0;
        while i < self.table.len()
            invariant
                0 <= i <= self.table@.len(),
                forall|j: int| 0 <= j < i ==> (#[trigger] self.table@[j]).0 != key,
            decreases self.table@.len() - i,
        {
            if self.table[i].0 == key {
                return Some(i);
            }
            i = i + 1;
        }
        None
    }

    /// Load a resource from caller data and store it under `key`. A key
    /// already present is refused; a loader failure is passed through.
    /// Whether the loader succeeds is the loader's business alone, so
    /// nothing more is promised of the outcome than how each of them
    /// changes the table.
    pub fn load(&mut self, key: usize, details: &L::Args) -> (r: Result<(), String>)
        requires
            old(self).wf(),
        ensures
            final(self).wf(),
            final(self).loader == old(self).loader,
            old(self).spec_contains(key) ==> r is Err && final(self).table@ == old(self).table@,
            !old(self).spec_contains(key) && r is Err ==> final(self).table@ == old(self).table@,
            !old(self).spec_contains(key) && r is Ok ==> {
                &&& final(self).table@.len() == old(self).table@.len() + 1
                &&& final(self).table@.subrange(0, old(self).table@.len() as int) == old(
                    self,
                ).table@
                &&& final(self).table@.last().0 == key
            },
            final(self).spec_contains(key) <==> (old(self).spec_contains(key) || r is Ok),
    {
        if self.find(key).is_some() {
            return Err(String::from_str("Value already exists"));
        }
        match self.loader.load(details) {
            Ok(res) => {
                let ghost pre = self.table@;
                self.table.push((key, res));
                proof {
                    assert(self.table@.subrange(0, pre.len() as int) =~= pre);
                    assert(self.table@[pre.len() as int].0 == key);
                }
                Ok(())
            },
            Err(e) => Err(e),
        }
    }

    /// Create a blank resource of the given size and store it under
    /// `key`, replacing whatever the key held before.
    pub fn create(&mut self, key: usize, w: u32, h: u32) -> (r: Result<(), String>)
        requires
            old(self).wf(),
        ensures
            final(self).wf(),
            final(self).loader == old(self).loader,
            r is Ok,
            final(self).spec_contains(key),
            old(self).spec_contains(key) ==> final(self).table@.len() == old(self).table@.len(),
            !old(self).spec_contains(key) ==> {
                &&& final(self).table@.len() == old(self).table@.len() + 1
                &&& final(self).table@.subrange(0, old(self).table@.len() as int) == old(
                    self,
                ).table@
                &&& final(self).table@.last().0 == key
            },
            forall|j: int|
                0 <= j < old(self).table@.len() && (#[trigger] old(self).table@[j]).0 != key
                    ==> final(self).table@[j] == old(self).table@[j],
    {
        let tex = self.loader.create(w, h);
        let ghost pre = self.table@;
        match self.find(key) {
            Some(i) => {
                self.table[i] = (key, tex);
                proof {
                    assert(self.table@[i as int].0 == key);
                }
            },
            None => {
                self.table.push((key, tex));
                proof {
                    assert(self.table@.subrange(0, pre.len() as int) =~= pre);
                    assert(self.table@[pre.len() as int].0 == key);
                }
            },
        }
        Ok(())
    }

    /// The resource stored under `key`, if any.
    pub fn get(&self, key: usize) -> (r: Option<&R>)
        ensures
            r is Some <==> self.spec_contains(key),
            r matches Some(v) ==> exists|i: int|
                0 <= i < self.table@.len() && (#[trigger] self.table@[i]).0 == key
                    && self.table@[i].1 == *v,
    {
        match self.find(key) {
            Some(i) => Some(&self.table[i].1),
            None => None,
        }
    }
}

} // verus!
