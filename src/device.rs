use vstd::prelude::*;
use std::collections::HashMap;
use std::hash::Hash;
use vstd::std_specs::hash::obeys_key_model;
use crate::event::Device;

verus! {

broadcast use vstd::std_specs::hash::group_hash_axioms;

/// Numbers the physical input devices in order of first sight.
///
/// A device is known by the windowing backend's own device handle `K`, whose
/// `==` and hash must agree with its value.
pub struct DeviceStore<K> {
    map: HashMap<K, usize>,
    count: usize,
}

impl<K: Eq + Hash> DeviceStore<K> {
    /// The number given to each device seen so far.
    pub closed spec fn numbers(&self) -> Map<K, usize> {
        self.map@
    }

    /// How many devices have been seen.
    pub closed spec fn count_spec(&self) -> nat {
        self.count as nat
    }

    /// Each device seen has its own number below `count`.
    pub open spec fn wf(&self) -> bool {
        &&& obeys_key_model::<K>()
        &&& forall|k: K| #[trigger] self.numbers().contains_key(k) ==> self.numbers()[k] < self.count_spec()
        &&& forall|k1: K, k2: K| #[trigger] self.numbers().contains_key(k1) && #[trigger] self.numbers().contains_key(k2)
            && k1 != k2 ==> self.numbers()[k1] != self.numbers()[k2]
    }

    /// A store that has seen no device.
    pub fn new() -> (s: Self)
        requires
            obeys_key_model::<K>(),
        ensures
            s.wf(),
            s.numbers() == Map::<K, usize>::empty(),
            s.count_spec() == 0,
    {
        DeviceStore { map: HashMap::new(), count: 0 }
    }

    /// How many devices have been seen.
    pub fn count(&self) -> (r: usize)
        ensures
            r == self.count_spec(),
    {
        self.count
    }

    /// The number of device `key`, given on first sight.
    pub fn register_device(&mut self, key: K) -> (d: Device)
        requires
            old(self).wf(),
            old(self).numbers().contains_key(key) || old(self).count_spec() < usize::MAX,
        ensures
            final(self).wf(),
            old(self).numbers().contains_key(key) ==> {
                &&& d == Device(old(self).numbers()[key])
                &&& final(self).numbers() == old(self).numbers()
                &&& final(self).count_spec() == old(self).count_spec()
            },
            !old(self).numbers().contains_key(key) ==> {
                &&& d == Device(old(self).count_spec() as usize)
                &&& final(self).numbers() == old(self).numbers().insert(key, old(self).count_spec() as usize)
                &&& final(self).count_spec() == old(self).count_spec() + 1
            },
    {
        match self.map.get(&key) {
            Some(n) => Device(*n),
            None => {
                let n = self.count;
                self.map.insert(key, n);
                self.count = n + 1;
                assert forall|k1: K, k2: K| #[trigger] self.numbers().contains_key(k1)
                    && #[trigger] self.numbers().contains_key(k2) && k1 != k2
                    implies self.numbers()[k1] != self.numbers()[k2] by {
                    if k1 != key {
                        assert(old(self).numbers().contains_key(k1));
                    }
                    if k2 != key {
                        assert(old(self).numbers().contains_key(k2));
                    }
                }
                assert forall|k: K| #[trigger] self.numbers().contains_key(k)
                    implies self.numbers()[k] < self.count_spec() by {
                    if k != key {
                        assert(old(self).numbers().contains_key(k));
                    }
                }
                Device(n)
            },
        }
    }
}

} // verus!
