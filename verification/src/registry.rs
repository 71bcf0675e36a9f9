//! The brand registry: at most one brand per account, with names unique
//! across all accounts.

use vstd::prelude::*;

use crate::AccountId;
use crate::assoc::assoc_get;
use crate::assoc::lemma_assoc_get_absent;
use crate::assoc::lemma_assoc_get_first;
use crate::assoc::lemma_assoc_get_push;
use crate::assoc::lemma_assoc_get_remove;
use crate::assoc::lemma_assoc_get_update;
use crate::assoc::unique_keys;
use crate::bytes_clone;

verus! {

/// A registered brand identity.
#[derive(PartialEq, Debug)]
pub struct Brand {
    pub name: Vec<u8>,
}

#[derive(Clone, Copy, PartialEq, Eq, Structural, Debug)]
pub enum Error {
    BrandNameExisted,
    ThisUserNotCreatedBrandBefore,
}

#[derive(PartialEq, Debug)]
pub enum Event {
    NewBrandCreated(AccountId, Brand),
    BrandRemoved(AccountId, Brand),
}

/// Account-to-brand store, one entry per registered account.
pub struct BrandRegistry {
    pub brands: Vec<(AccountId, Brand)>,
    pub events: Vec<Event>,
}

impl BrandRegistry {
    pub open spec fn spec_brand(self, who: AccountId) -> Option<Brand> {
        assoc_get(self.brands@, who)
    }

    /// Some account registered a brand under this name.
    pub open spec fn name_taken(self, name: Seq<u8>) -> bool {
        exists|i: int| 0 <= i < self.brands@.len() && self.brands@[i].1.name@ == name
    }

    /// One brand per account, and one account per name.
    pub open spec fn wf(self) -> bool {
        &&& unique_keys(self.brands@)
        &&& (forall|i: int, j: int|
            0 <= i < j < self.brands@.len() ==> (#[trigger] self.brands@[i]).1.name@ != (
            #[trigger] self.brands@[j]).1.name@)
    }

    pub fn new() -> (r: BrandRegistry)
        ensures
            r.wf(),
            forall|a: AccountId| #[trigger] r.spec_brand(a) is None,
            r.events@ == Seq::<Event>::empty(),
            r.brands@ == Seq::<(AccountId, Brand)>::empty(),
    {
        let r = BrandRegistry { brands: Vec::new(), events: Vec::new() };
        proof {
            assert forall|a: AccountId| #[trigger] r.spec_brand(a) is None by {
                lemma_assoc_get_absent(r.brands@, a);
            }
        }
        r
    }

    fn find_brand(&self, who: AccountId) -> (r: Option<usize>)
        ensures
            match r {
                Some(i) => i < self.brands.len() && self.brands@[i as int].0 == who
                    && assoc_get(self.brands@, who) == Some(self.brands@[i as int].1),
                None => assoc_get(self.brands@, who) is None,
            },
    {
        let n = self.brands.len();
        let mut i: usize = 0;
        while i < n
            invariant
                n == self.brands.len(),
                i <= n,
                forall|j: int| 0 <= j < i ==> self.brands@[j].0 != who,
            decreases n - i,
        {
            if self.brands[i].0 == who {
                proof {
                    lemma_assoc_get_first(self.brands@, i as int);
                }
                return Some(i);
            }
            i += 1;
        }
        proof {
            lemma_assoc_get_absent(self.brands@, who);
        }
        None
    }

    /// Whether any account already holds a brand named `name`.
    fn name_exists(&self, name: &Vec<u8>) -> (r: bool)
        ensures
            r == self.name_taken(name@),
    {
        let n = self.brands.len();
        let mut i: usize = 0;
        while i < n
            invariant
                n == self.brands.len(),
                i <= n,
                forall|j: int| 0 <= j < i ==> self.brands@[j].1.name@ != name@,
            decreases n - i,
        {
            if crate::bytes_equal(&self.brands[i].1.name, name) {
                return true;
            }
            i += 1;
        }
        false
    }

    pub fn brand_by_id(&self, who: AccountId) -> (r: Option<&Brand>)
        ensures
            match r {
                Some(b) => self.spec_brand(who) == Some(*b),
                None => self.spec_brand(who) is None,
            },
    {
        match self.find_brand(who) {
            Some(i) => Some(&self.brands[i].1),
            None => None,
        }
    }

    /// Registers (or re-registers) the caller's brand under `name`; fails,
    /// changing nothing, where any account already holds that name.
    pub fn create_brand(&mut self, who: AccountId, name: Vec<u8>) -> (r: Result<(), Error>)
        requires
            old(self).wf(),
        ensures
            final(self).wf(),
            old(self).name_taken(name@) ==> r == Err::<(), Error>(Error::BrandNameExisted)
                && *final(self) == *old(self),
            !old(self).name_taken(name@) ==> r is Ok && (match final(self).spec_brand(who) {
                Some(b) => b.name@ == name@,
                None => false,
            }) && (forall|a: AccountId| a != who ==> #[trigger] final(self).spec_brand(a) == old(
                self,
            ).spec_brand(a)) && final(self).events@.len() == old(self).events@.len() + 1 && (
            match final(self).events@.last() {
                Event::NewBrandCreated(a, b) => a == who && b.name@ == name@,
                _ => false,
            }) && final(self).events@.take(old(self).events@.len() as int) == old(self).events@,
    {
        if self.name_exists(&name) {
            return Err(Error::BrandNameExisted);
        }
        let stored = Brand { name: bytes_clone(&name) };
        match self.find_brand(who) {
            Some(i) => {
                let ghost before = self.brands@;
                self.brands[i] = (who, stored);
                proof {
                    lemma_assoc_get_update(before, i as int, self.brands@[i as int]);
                    assert forall|x: int, y: int|
                        0 <= x < y < self.brands@.len() implies (#[trigger] self.brands@[
                    x]).1.name@ != (#[trigger] self.brands@[y]).1.name@ by {
                        if x != i as int && y != i as int {
                            assert(self.brands@[x] == before[x]);
                            assert(self.brands@[y] == before[y]);
                        } else if x == i as int {
                            assert(self.brands@[y] == before[y]);
                        } else {
                            assert(self.brands@[x] == before[x]);
                        }
                    }
                }
            },
            None => {
                let ghost before = self.brands@;
                self.brands.push((who, stored));
                proof {
                    lemma_assoc_get_push(before, self.brands@.last());
                    assert forall|x: int, y: int|
                        0 <= x < y < self.brands@.len() implies (#[trigger] self.brands@[
                    x]).1.name@ != (#[trigger] self.brands@[y]).1.name@ by {
                        if y < before.len() {
                            assert(self.brands@[x] == before[x]);
                            assert(self.brands@[y] == before[y]);
                        } else {
                            assert(self.brands@[x] == before[x]);
                        }
                    }
                }
            },
        }
        self.events.push(Event::NewBrandCreated(who, Brand { name }));
        Ok(())
    }

    /// Removes the caller's brand; fails where none is registered.
    pub fn remove_brand(&mut self, who: AccountId) -> (r: Result<(), Error>)
        requires
            old(self).wf(),
        ensures
            final(self).wf(),
            old(self).spec_brand(who) is None ==> r == Err::<(), Error>(
                Error::ThisUserNotCreatedBrandBefore,
            ) && *final(self) == *old(self),
            old(self).spec_brand(who) is Some ==> r is Ok && final(self).spec_brand(who) is None
                && (forall|a: AccountId| a != who ==> #[trigger] final(self).spec_brand(a) == old(
                self,
            ).spec_brand(a)) && final(self).events@ == old(self).events@.push(
                Event::BrandRemoved(who, old(self).spec_brand(who)->0),
            ),
    {
        match self.find_brand(who) {
            Some(i) => {
                let ghost before = self.brands@;
                proof {
                    lemma_assoc_get_remove(self.brands@, i as int);
                }
                let (_, brand) = self.brands.remove(i);
                self.events.push(Event::BrandRemoved(who, brand));
                proof {
                    assert forall|x: int, y: int|
                        0 <= x < y < self.brands@.len() implies (#[trigger] self.brands@[
                    x]).1.name@ != (#[trigger] self.brands@[y]).1.name@ by {
                        let x0 = if x < i as int {
                            x
                        } else {
                            x + 1
                        };
                        let y0 = if y < i as int {
                            y
                        } else {
                            y + 1
                        };
                        assert(self.brands@[x] == before[x0]);
                        assert(self.brands@[y] == before[y0]);
                    }
                }
                Ok(())
            },
            None => Err(Error::ThisUserNotCreatedBrandBefore),
        }
    }
}

} // verus!
