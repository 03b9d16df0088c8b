//! The `defaults` namespace of the host-import surface: a session-scoped
//! key/value store for the guest's persistent settings. Values are stored
//! and handed back as clones, never aliases.

use vstd::prelude::*;
use crate::heap::alloc_effect;
use crate::memory::utf8_lossy;
use crate::store::GlobalStore;
use crate::value::{
    assoc_find, clone_value, lemma_obj_first_hit, lemma_obj_lookup_absent, lemma_obj_lookup_at,
    lemma_obj_update_absent, lemma_obj_update_unique, obj_keys_unique, obj_lookup, obj_update,
    wf_val, Val, Value,
};

verus! {

/// Clones the stored value under the key at `(key, len)` into a fresh
/// descriptor; `-1` when the key is absent or its range leaves the
/// memory.
pub fn get(store: &mut GlobalStore, mem: &Vec<u8>, key: u32, len: u32) -> (d: i32)
    requires
        old(store).wf(),
        old(store).can_alloc_value(),
    ensures
        final(store).wf(),
        ({
            let ok = key + len <= mem@.len();
            let k = utf8_lossy(mem@.subrange(key as int, key + len));
            let found: Option<Val> = if ok {
                obj_lookup(old(store).defaults_assoc(), k)
            } else {
                None
            };
            match found {
                Some(v) => alloc_effect(*old(store), *final(store), d, v),
                None => d == -1 && *final(store) == *old(store),
            }
        }),
{
    let kstr: String = match crate::memory::read_string(mem, key, len) {
        Some(s) => s,
        None => {
            return -1;
        },
    };
    match assoc_find(&store.defaults, kstr.as_str()) {
        Some(i) => {
            proof {
                lemma_obj_lookup_at(store.defaults_assoc(), kstr@, i as int);
            }
            let v = clone_value(&store.defaults[i].1);
            proof {
                assert(wf_val(v@));
            }
            store.store_value(v)
        },
        None => {
            proof {
                lemma_obj_lookup_absent(store.defaults_assoc(), kstr@);
            }
            -1
        },
    }
}

/// Stores a clone of the value behind `value` under the key at
/// `(key, len)`, replacing an existing entry with that key. A key range
/// leaving the memory or a dead value descriptor leaves everything
/// unchanged.
pub fn set(store: &mut GlobalStore, mem: &Vec<u8>, key: u32, len: u32, value: i32)
    requires
        old(store).wf(),
    ensures
        final(store).wf(),
        ({
            let ok = key + len <= mem@.len();
            let k = utf8_lossy(mem@.subrange(key as int, key + len));
            let applies = ok && old(store).val_map().dom().contains(value as int);
            &&& applies ==> {
                &&& final(store).defaults_assoc() == obj_update(
                    old(store).defaults_assoc(),
                    k,
                    old(store).val_map()[value as int],
                )
                &&& final(store).val_map() == old(store).val_map()
                &&& final(store).next_descriptor() == old(store).next_descriptor()
                &&& final(store).live_count() == old(store).live_count()
                &&& final(store).req_map() == old(store).req_map()
                &&& final(store).next_request() == old(store).next_request()
            }
            &&& !applies ==> *final(store) == *old(store)
        }),
{
    let kstr: String = match crate::memory::read_string(mem, key, len) {
        Some(s) => s,
        None => {
            return ;
        },
    };
    let cloned: Option<Value> = match store.read_value(value) {
        Some(v) => Some(clone_value(v)),
        None => None,
    };
    let val: Value = match cloned {
        Some(v) => v,
        None => {
            return ;
        },
    };
    let ghost pre = store.defaults_assoc();
    let ghost vmodel = val@;
    match assoc_find(&store.defaults, kstr.as_str()) {
        Some(i) => {
            proof {
                lemma_obj_first_hit(pre, kstr@, i as int);
            }
            store.defaults.set(i, (kstr, val));
            proof {
                assert(store.defaults_assoc() =~= obj_update(pre, kstr@, vmodel));
            }
        },
        None => {
            proof {
                lemma_obj_update_absent(pre, kstr@, vmodel);
                lemma_obj_update_unique(pre, kstr@, vmodel);
            }
            store.defaults.push((kstr, val));
            proof {
                assert(store.defaults_assoc() =~= obj_update(pre, kstr@, vmodel));
            }
        },
    }
}

} // verus!
