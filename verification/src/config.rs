//! The configuration provider: a mapping from parameter name to value,
//! populated once at startup and read by `CONFIG GET`.
use vstd::prelude::*;

use crate::bytes::bytes_eq;

verus! {

struct CfgSlot {
    name: Vec<u8>,
    value: Vec<u8>,
}

/// First-match lookup; the newest setting for a name sits closest to the
/// front.
spec fn lookup(slots: Seq<CfgSlot>, k: Seq<u8>) -> Option<Seq<u8>>
    decreases slots.len(),
{
    if slots.len() == 0 {
        Option::None
    } else if slots[0].name@ == k {
        Option::Some(slots[0].value@)
    } else {
        lookup(slots.drop_first(), k)
    }
}

/// A set of named configuration values.
pub struct Config {
    slots: Vec<CfgSlot>,
}

impl View for Config {
    type V = Map<Seq<u8>, Seq<u8>>;

    closed spec fn view(&self) -> Map<Seq<u8>, Seq<u8>> {
        Map::new(
            |k: Seq<u8>| lookup(self.slots@, k) is Some,
            |k: Seq<u8>| lookup(self.slots@, k)->Some_0,
        )
    }
}

impl Config {
    /// Creates an empty configuration.
    pub fn new() -> (c: Config)
        ensures
            c@ == Map::<Seq<u8>, Seq<u8>>::empty(),
    {
        let c = Config { slots: Vec::new() };
        proof {
            assert(c@ =~= Map::<Seq<u8>, Seq<u8>>::empty());
        }
        c
    }

    /// Sets the value of a parameter, replacing any earlier value.
    pub fn insert(&mut self, name: Vec<u8>, value: Vec<u8>)
        ensures
            final(self)@ == old(self)@.insert(name@, value@),
    {
        let ghost old_slots = self.slots@;
        let ghost kv = name@;
        let ghost vv = value@;
        self.slots.insert(0, CfgSlot { name, value });
        proof {
            assert(self.slots@.drop_first() =~= old_slots);
            assert forall|k: Seq<u8>| true implies lookup(self.slots@, k) == (if k == kv {
                Option::Some(vv)
            } else {
                lookup(old_slots, k)
            }) by {
                if k != kv {
                    assert(self.slots@[0].name@ != k);
                }
            }
            assert(self@ =~= old(self)@.insert(kv, vv));
        }
    }

    /// Returns the configured value of `name`, or absent when `name` was
    /// never configured.
    pub fn get(&self, name: &Vec<u8>) -> (r: Option<Vec<u8>>)
        ensures
            match r {
                Option::Some(v) => self@.dom().contains(name@) && self@[name@] == v@,
                Option::None => !self@.dom().contains(name@),
            },
    {
        let n = self.slots.len();
        let mut i: usize = 0;
        proof {
            assert(self.slots@.skip(0) =~= self.slots@);
        }
        while i < n
            invariant
                n == self.slots.len(),
                i <= n,
                lookup(self.slots@, name@) == lookup(self.slots@.skip(i as int), name@),
            decreases n - i,
        {
            let slot = &self.slots[i];
            if bytes_eq(&slot.name, name) {
                proof {
                    assert(self.slots@.skip(i as int)[0].name@ == name@);
                    assert(lookup(self.slots@, name@) == Option::Some(
                        self.slots@[i as int].value@,
                    ));
                }
                return Some(slot.value.clone());
            }
            proof {
                assert(self.slots@.skip(i as int).drop_first() =~= self.slots@.skip(i as int + 1));
            }
            i += 1;
        }
        proof {
            assert(self.slots@.skip(n as int) =~= Seq::<CfgSlot>::empty());
            assert(lookup(self.slots@, name@) is None);
        }
        None
    }
}

} // verus!
