//! The `std` namespace of the host-import surface: the typed value heap.
//! Every operation takes the session store; a call on a dead descriptor or
//! a value of the wrong kind returns the documented sentinel and never
//! faults.

use vstd::prelude::*;
use vstd::utf8::encode_utf8;
use crate::fbits::{
    f64_le_zero, f64_le_zero_bits, f64_trunc_i64, f64_trunc_int, i64_to_f64, i64_to_f64_bits,
    F64_NEG_ONE_BITS,
};
use crate::memory::{in_bounds, utf8_lossy, write_bytes};
use crate::store::GlobalStore;
use crate::value::{
    assoc_find, clone_pairs, clone_value, clone_values, filter_field, kind_code, lemma_obj_first_hit,
    lemma_obj_lookup_absent, lemma_obj_lookup_at, lemma_obj_update_absent, lemma_obj_update_unique,
    lemma_pair_vals_of, lemma_vals_of, manga_field, obj_lookup, obj_update, pair_vals_of, vals_of,
    wf_val, Val, Value,
};

verus! {

/// The request store and the defaults are untouched between `pre` and
/// `post`.
pub open spec fn frame_requests(pre: GlobalStore, post: GlobalStore) -> bool {
    &&& post.req_map() == pre.req_map()
    &&& post.next_request() == pre.next_request()
    &&& post.defaults_assoc() == pre.defaults_assoc()
}

/// Between `pre` and `post` exactly one descriptor was allocated: `d` is
/// the cursor, it now holds `v`, and nothing else changed.
pub open spec fn alloc_effect(pre: GlobalStore, post: GlobalStore, d: i32, v: Val) -> bool {
    &&& d as int == pre.next_descriptor()
    &&& post.next_descriptor() == pre.next_descriptor() + 1
    &&& post.val_map() == pre.val_map().insert(d as int, v)
    &&& post.live_count() == pre.live_count() + 1
    &&& frame_requests(pre, post)
}

/// Deep-clones the value behind `descriptor` into a fresh descriptor;
/// `-1` if the descriptor is dead.
pub fn copy(store: &mut GlobalStore, descriptor: i32) -> (d: i32)
    requires
        old(store).wf(),
        old(store).can_alloc_value(),
    ensures
        final(store).wf(),
        old(store).val_map().dom().contains(descriptor as int) ==> alloc_effect(
            *old(store),
            *final(store),
            d,
            old(store).val_map()[descriptor as int],
        ),
        !old(store).val_map().dom().contains(descriptor as int) ==> d == -1 && *final(store)
            == *old(store),
{
    let cloned = match store.read_value(descriptor) {
        Some(v) => Some(clone_value(v)),
        None => None,
    };
    match cloned {
        Some(obj) => store.store_value(obj),
        None => -1,
    }
}

/// Removes `descriptor`; removing a dead descriptor is a no-op. The
/// cursor does not move, so the id is never reused.
pub fn destroy(store: &mut GlobalStore, obj: i32)
    requires
        old(store).wf(),
    ensures
        final(store).wf(),
        final(store).val_map() == old(store).val_map().remove(obj as int),
        final(store).next_descriptor() == old(store).next_descriptor(),
        final(store).live_count() == old(store).live_count() - (if old(store).val_map().dom()
            .contains(obj as int) {
            1nat
        } else {
            0nat
        }),
        frame_requests(*old(store), *final(store)),
{
    store.remove_value(obj);
}

/// Allocates a `Null` value.
pub fn create_null(store: &mut GlobalStore) -> (d: i32)
    requires
        old(store).wf(),
        old(store).can_alloc_value(),
    ensures
        final(store).wf(),
        alloc_effect(*old(store), *final(store), d, Val::Null),
{
    store.store_value(Value::Null)
}

/// Allocates an `Int` value.
pub fn create_int(store: &mut GlobalStore, value: i64) -> (d: i32)
    requires
        old(store).wf(),
        old(store).can_alloc_value(),
    ensures
        final(store).wf(),
        alloc_effect(*old(store), *final(store), d, Val::Int(value)),
{
    store.store_value(Value::Int(value))
}

/// Allocates a `Float` value from its 64-bit pattern.
pub fn create_float(store: &mut GlobalStore, value: u64) -> (d: i32)
    requires
        old(store).wf(),
        old(store).can_alloc_value(),
    ensures
        final(store).wf(),
        alloc_effect(*old(store), *final(store), d, Val::Float(value)),
{
    store.store_value(Value::Float(value))
}

/// Allocates a `Bool` value; any nonzero integer reads as true.
pub fn create_bool(store: &mut GlobalStore, value: i32) -> (d: i32)
    requires
        old(store).wf(),
        old(store).can_alloc_value(),
    ensures
        final(store).wf(),
        alloc_effect(*old(store), *final(store), d, Val::Bool(value != 0)),
{
    store.store_value(Value::Bool(value != 0))
}

/// Allocates an empty string value.
pub fn create_string(store: &mut GlobalStore) -> (d: i32)
    requires
        old(store).wf(),
        old(store).can_alloc_value(),
    ensures
        final(store).wf(),
        alloc_effect(*old(store), *final(store), d, Val::Str(Seq::<char>::empty())),
{
    store.store_value(Value::Str(String::new()))
}

/// Allocates an empty object value.
pub fn create_object(store: &mut GlobalStore) -> (d: i32)
    requires
        old(store).wf(),
        old(store).can_alloc_value(),
    ensures
        final(store).wf(),
        alloc_effect(
            *old(store),
            *final(store),
            d,
            Val::Object(Seq::<(Seq<char>, Val)>::empty()),
        ),
{
    let obj = Value::Object(Vec::new());
    proof {
        lemma_pair_vals_of(obj->Object_0@);
        assert(obj@->Object_0 =~= Seq::<(Seq<char>, Val)>::empty());
    }
    store.store_value(obj)
}

/// Allocates an empty array value.
pub fn create_array(store: &mut GlobalStore) -> (d: i32)
    requires
        old(store).wf(),
        old(store).can_alloc_value(),
    ensures
        final(store).wf(),
        alloc_effect(*old(store), *final(store), d, Val::Array(Seq::<Val>::empty())),
{
    let arr = Value::Array(Vec::new());
    proof {
        lemma_vals_of(arr->Array_0@);
        assert(arr@->Array_0 =~= Seq::<Val>::empty());
    }
    store.store_value(arr)
}

/// The pattern a date allocation stores: a non-positive input is replaced
/// with the given current time, converted to a 64-bit pattern.
pub open spec fn date_bits(value: u64, now: i64) -> u64 {
    if f64_le_zero(value) {
        i64_to_f64_bits(now)
    } else {
        value
    }
}

/// Allocates a `Date` value from epoch seconds as a 64-bit pattern; a
/// pattern comparing `<= 0.0` is replaced with the current Unix time.
pub fn create_date(store: &mut GlobalStore, value: u64) -> (d: i32)
    requires
        old(store).wf(),
        old(store).can_alloc_value(),
    ensures
        final(store).wf(),
        exists|now: i64| alloc_effect(*old(store), *final(store), d, Val::Date(date_bits(value, now))),
        !f64_le_zero(value) ==> alloc_effect(*old(store), *final(store), d, Val::Date(value)),
{
    if f64_le_zero_bits(value) {
        let now = crate::dates::unix_now();
        let bits = i64_to_f64(now);
        let d = store.store_value(Value::Date(bits));
        proof {
            assert(alloc_effect(*old(store), *store, d, Val::Date(date_bits(value, now))));
        }
        d
    } else {
        let d = store.store_value(Value::Date(value));
        proof {
            assert(alloc_effect(*old(store), *store, d, Val::Date(date_bits(value, 0))));
        }
        d
    }
}

/// The kind code of the value behind `descriptor`, or 0 (the null kind)
/// for a dead descriptor.
pub fn value_kind(store: &GlobalStore, descriptor: i32) -> (k: i32)
    ensures
        store.val_map().dom().contains(descriptor as int) ==> k == kind_code(
            store.val_map()[descriptor as int],
        ),
        !store.val_map().dom().contains(descriptor as int) ==> k == 0,
{
    match store.read_value(descriptor) {
        Some(v) => v.kind(),
        None => 0,
    }
}

/// The UTF-8 byte length of the string behind `descriptor`, or 0 for any
/// other kind or a dead descriptor.
pub fn string_len(store: &GlobalStore, descriptor: i32) -> (n: i32)
    ensures
        ({
            let live = store.val_map().dom().contains(descriptor as int);
            &&& (live && store.val_map()[descriptor as int] is Str && encode_utf8(
                store.val_map()[descriptor as int]->Str_0,
            ).len() <= i32::MAX ==> n == encode_utf8(
                store.val_map()[descriptor as int]->Str_0,
            ).len())
            &&& (!live || !(store.val_map()[descriptor as int] is Str) ==> n == 0)
        }),
{
    match store.read_value(descriptor) {
        Some(v) => match v {
            Value::Str(s) => #[verifier::truncate] (s.as_str().len() as i32),
            _ => 0,
        },
        None => 0,
    }
}

/// The region `[ptr, ptr + data.len())` of `post` holds `data`, everything
/// else holds what `pre` held, and the length is unchanged.
pub open spec fn wrote_region(pre: Seq<u8>, post: Seq<u8>, ptr: int, data: Seq<u8>) -> bool {
    &&& post.len() == pre.len()
    &&& forall|i: int|
        0 <= i < pre.len() ==> post[i] == (if ptr <= i < ptr + data.len() {
            data[i - ptr]
        } else {
            pre[i]
        })
}

/// The prefix of the string's UTF-8 bytes that a read with the given size
/// budget copies out: the whole encoding, unless `0 <= size < len` cuts it.
pub open spec fn string_read_prefix(s: Seq<char>, size: i32) -> Seq<u8> {
    let bytes = encode_utf8(s);
    if 0 <= size < bytes.len() {
        bytes.subrange(0, size as int)
    } else {
        bytes
    }
}

/// Copies up to `size` bytes of the string behind `descriptor` into guest
/// memory at `buff`. Anything but a live string, a negative destination,
/// or a destination range leaving the memory leaves the memory untouched.
pub fn read_string(store: &GlobalStore, mem: &mut Vec<u8>, descriptor: i32, buff: i32, size: i32)
    ensures
        final(mem)@.len() == old(mem)@.len(),
        ({
            let live = store.val_map().dom().contains(descriptor as int);
            let v = store.val_map()[descriptor as int];
            if live && v is Str && buff >= 0 {
                let data = string_read_prefix(v->Str_0, size);
                if in_bounds(old(mem)@.len(), buff as u32, data.len() as int) {
                    wrote_region(old(mem)@, final(mem)@, buff as int, data)
                } else {
                    final(mem)@ == old(mem)@
                }
            } else {
                final(mem)@ == old(mem)@
            }
        }),
{
    if buff < 0 {
        return ;
    }
    match store.read_value(descriptor) {
        Some(v) => match v {
            Value::Str(s) => {
                let bytes = s.as_str().as_bytes();
                let total = bytes.len();
                let k: usize = if size >= 0 && (size as usize) < total {
                    size as usize
                } else {
                    total
                };
                let mut data: Vec<u8> = Vec::new();
                let mut i: usize = 0;
                while i < k
                    invariant
                        k <= bytes@.len(),
                        i <= k,
                        data@ =~= bytes@.subrange(0, i as int),
                    decreases k - i,
                {
                    data.push(bytes[i]);
                    i += 1;
                }
                proof {
                    assert(data@ =~= string_read_prefix(s@, size));
                }
                write_bytes(mem, &data, buff as u32);
            },
            _ => (),
        },
        None => (),
    }
}

/// What an integer read yields of a model value: an `Int` itself, a
/// `Float` truncated, a `Bool` as 0 or 1, anything else the sentinel -1.
pub open spec fn read_int_model(v: Val) -> int {
    match v {
        Val::Int(i) => i as int,
        Val::Float(b) => f64_trunc_int(b),
        Val::Bool(b) => if b {
            1
        } else {
            0
        },
        _ => -1,
    }
}

/// Coerces the value behind `descriptor` to a signed integer; the
/// sentinel -1 stands for a dead descriptor or a kind with no integer
/// reading.
pub fn read_int(store: &GlobalStore, descriptor: i32) -> (r: i64)
    ensures
        store.val_map().dom().contains(descriptor as int) ==> r as int == read_int_model(
            store.val_map()[descriptor as int],
        ),
        !store.val_map().dom().contains(descriptor as int) ==> r == -1,
{
    match store.read_value(descriptor) {
        Some(v) => match v {
            Value::Int(i) => *i,
            Value::Float(b) => f64_trunc_i64(*b),
            Value::Bool(b) => if *b {
                1
            } else {
                0
            },
            _ => -1,
        },
        None => -1,
    }
}

/// What a fractional read yields of a model value, as a 64-bit pattern:
/// a `Float` itself, an `Int` converted, anything else the pattern of -1.
pub open spec fn read_float_model(v: Val) -> u64 {
    match v {
        Val::Float(b) => b,
        Val::Int(i) => i64_to_f64_bits(i),
        _ => F64_NEG_ONE_BITS,
    }
}

/// Coerces the value behind `descriptor` to a 64-bit pattern; the pattern
/// of -1 stands for a dead descriptor or a kind with no fractional
/// reading.
pub fn read_float(store: &GlobalStore, descriptor: i32) -> (r: u64)
    ensures
        store.val_map().dom().contains(descriptor as int) ==> r == read_float_model(
            store.val_map()[descriptor as int],
        ),
        !store.val_map().dom().contains(descriptor as int) ==> r == F64_NEG_ONE_BITS,
{
    match store.read_value(descriptor) {
        Some(v) => match v {
            Value::Float(b) => *b,
            Value::Int(i) => i64_to_f64(*i),
            _ => F64_NEG_ONE_BITS,
        },
        None => F64_NEG_ONE_BITS,
    }
}

/// What a boolean read yields of a model value: a `Bool` as 0 or 1, an
/// `Int` by whether it is nonzero, anything else 0.
pub open spec fn read_bool_model(v: Val) -> i32 {
    match v {
        Val::Bool(b) => if b {
            1
        } else {
            0
        },
        Val::Int(i) => if i == 0 {
            0
        } else {
            1
        },
        _ => 0,
    }
}

/// Coerces the value behind `descriptor` to 0 or 1; 0 stands for a dead
/// descriptor or a kind with no boolean reading.
pub fn read_bool(store: &GlobalStore, descriptor: i32) -> (r: i32)
    ensures
        store.val_map().dom().contains(descriptor as int) ==> r == read_bool_model(
            store.val_map()[descriptor as int],
        ),
        !store.val_map().dom().contains(descriptor as int) ==> r == 0,
{
    match store.read_value(descriptor) {
        Some(v) => match v {
            Value::Bool(b) => if *b {
                1
            } else {
                0
            },
            Value::Int(i) => if *i == 0 {
                0
            } else {
                1
            },
            _ => 0,
        },
        None => 0,
    }
}

/// What a date read yields of a model value, as a 64-bit pattern: a
/// `Date` or `Float` itself, anything else the pattern of -1.
pub open spec fn read_date_model(v: Val) -> u64 {
    match v {
        Val::Date(b) => b,
        Val::Float(b) => b,
        _ => F64_NEG_ONE_BITS,
    }
}

/// Reads the value behind `descriptor` as epoch seconds, a 64-bit
/// pattern; the pattern of -1 stands for a dead descriptor or a kind with
/// no date reading.
pub fn read_date(store: &GlobalStore, descriptor: i32) -> (r: u64)
    ensures
        store.val_map().dom().contains(descriptor as int) ==> r == read_date_model(
            store.val_map()[descriptor as int],
        ),
        !store.val_map().dom().contains(descriptor as int) ==> r == F64_NEG_ONE_BITS,
{
    match store.read_value(descriptor) {
        Some(v) => match v {
            Value::Date(b) => *b,
            Value::Float(b) => *b,
            _ => F64_NEG_ONE_BITS,
        },
        None => F64_NEG_ONE_BITS,
    }
}

/// Round trip of primitives: a freshly created value reports its
/// documented kind code, and the matching read hands the payload back
/// exactly — an integer, a fractional pattern, a boolean as 0 or 1, a
/// date's pattern, and a string's whole UTF-8 encoding.
pub proof fn lemma_primitive_round_trip(x: i64, bits: u64, b: bool, s: Seq<char>, t: u64)
    ensures
        kind_code(Val::Null) == 0,
        kind_code(Val::Int(x)) == 1 && read_int_model(Val::Int(x)) == x,
        kind_code(Val::Float(bits)) == 2 && read_float_model(Val::Float(bits)) == bits,
        kind_code(Val::Str(s)) == 3 && (encode_utf8(s).len() <= i32::MAX ==> string_read_prefix(
            s,
            encode_utf8(s).len() as i32,
        ) == encode_utf8(s)),
        kind_code(Val::Bool(b)) == 4 && read_bool_model(Val::Bool(b)) == (if b {
            1int
        } else {
            0int
        }),
        kind_code(Val::Date(t)) == 7 && read_date_model(Val::Date(t)) == t,
{
    if encode_utf8(s).len() <= i32::MAX {
        assert(string_read_prefix(s, encode_utf8(s).len() as i32) =~= encode_utf8(s));
    }
}

/// Every domain record reports the object kind, 6, to the guest.
pub proof fn lemma_domain_record_kind(v: Val)
    requires
        v is Manga || v is MangaResult || v is Filter || v is Listing || v is Chapter
            || v is Page || v is DeepLink,
    ensures
        kind_code(v) == 6,
{
}

/// The key a guest hands by pointer and length: read lossily; a zero
/// length or a range leaving the memory reads as the empty key.
pub open spec fn read_key(mem: Seq<u8>, key: u32, key_len: u32) -> Seq<char> {
    if key_len > 0 && key + key_len <= mem.len() {
        utf8_lossy(mem.subrange(key as int, key + key_len))
    } else {
        Seq::<char>::empty()
    }
}

/// What `object_get` yields of a model value: an object is looked up by
/// key, a domain record answers through its key-accessor protocol, and
/// everything else yields nothing.
pub open spec fn object_get_model(v: Val, key: Seq<char>) -> Option<Val> {
    match v {
        Val::Object(pairs) => obj_lookup(pairs, key),
        Val::Filter(f) => filter_field(f, key),
        Val::Manga(m) => manga_field(m, key),
        _ => None,
    }
}

/// The map accessor on a manga: asking a manga descriptor for `id`
/// yields a fresh string value holding exactly the manga's id.
pub proof fn lemma_manga_id_accessor(m: crate::models::MangaModel)
    ensures
        object_get_model(Val::Manga(m), "id"@) == Some(Val::Str(m.id)),
{
}

/// The number of pairs of the object behind `descriptor`, or 0 for any
/// other kind or a dead descriptor.
pub fn object_len(store: &GlobalStore, descriptor: i32) -> (n: i32)
    ensures
        ({
            let live = store.val_map().dom().contains(descriptor as int);
            &&& (live && store.val_map()[descriptor as int] is Object && store.val_map()[
                descriptor as int
            ]->Object_0.len() <= i32::MAX ==> n == store.val_map()[
                descriptor as int
            ]->Object_0.len())
            &&& (!live || !(store.val_map()[descriptor as int] is Object) ==> n == 0)
        }),
{
    match store.read_value(descriptor) {
        Some(v) => match v {
            Value::Object(pairs) => {
                proof {
                    lemma_pair_vals_of(pairs@);
                }
                #[verifier::truncate] (pairs.len() as i32)
            },
            _ => 0,
        },
        None => 0,
    }
}

/// Looks the key at `(key, key_len)` up in the value behind `descriptor`
/// and stores the answer as a fresh descriptor: an object by its pairs, a
/// manga or filter through its key-accessor. `-1` stands for an unknown
/// key, a kind that holds no keys, or a dead descriptor.
pub fn object_get(
    store: &mut GlobalStore,
    mem: &Vec<u8>,
    descriptor: i32,
    key: u32,
    key_len: u32,
) -> (d: i32)
    requires
        old(store).wf(),
        old(store).can_alloc_value(),
    ensures
        final(store).wf(),
        ({
            let k = read_key(mem@, key, key_len);
            let found = if old(store).val_map().dom().contains(descriptor as int) {
                object_get_model(old(store).val_map()[descriptor as int], k)
            } else {
                None
            };
            match found {
                Some(v) => alloc_effect(*old(store), *final(store), d, v),
                None => d == -1 && *final(store) == *old(store),
            }
        }),
{
    let kstr: String = if key_len > 0 {
        match crate::memory::read_string(mem, key, key_len) {
            Some(s) => s,
            None => String::new(),
        }
    } else {
        String::new()
    };
    proof {
        assert(kstr@ == read_key(mem@, key, key_len));
    }
    let extracted: Option<Value> = match store.read_value(descriptor) {
        Some(v) => match v {
            Value::Object(pairs) => {
                proof {
                    lemma_pair_vals_of(pairs@);
                }
                match assoc_find(pairs, kstr.as_str()) {
                    Some(i) => {
                        proof {
                            lemma_obj_lookup_at(pair_vals_of(pairs@), kstr@, i as int);
                        }
                        let picked = clone_value(&pairs[i].1);
                        proof {
                            assert(wf_val(picked@));
                        }
                        Some(picked)
                    },
                    None => {
                        proof {
                            lemma_obj_lookup_absent(pair_vals_of(pairs@), kstr@);
                        }
                        None
                    },
                }
            },
            Value::Filter(f) => {
                let r = f.get_value(kstr.as_str());
                proof {
                    assert(r is Some ==> wf_val(r->Some_0@));
                }
                r
            },
            Value::Manga(m) => {
                let r = m.get_value(kstr.as_str());
                proof {
                    assert(r is Some ==> wf_val(r->Some_0@));
                }
                r
            },
            _ => None,
        },
        None => None,
    };
    match extracted {
        Some(value) => {
            proof {
                assert(wf_val(value@));
            }
            store.store_value(value)
        },
        None => -1,
    }
}

/// Inserts the value behind `value` into the object behind `descriptor`
/// under the key at `(key, key_len)`, replacing an existing pair with
/// that key. A key range leaving the memory, a non-object target or a
/// dead value descriptor leaves everything unchanged.
pub fn object_set(
    store: &mut GlobalStore,
    mem: &Vec<u8>,
    descriptor: i32,
    key: u32,
    key_len: u32,
    value: i32,
)
    requires
        old(store).wf(),
    ensures
        final(store).wf(),
        ({
            let ok = key + key_len <= mem@.len();
            let k = utf8_lossy(mem@.subrange(key as int, key + key_len));
            let applies = ok && old(store).val_map().dom().contains(descriptor as int) && old(
                store,
            ).val_map()[descriptor as int] is Object && old(store).val_map().dom().contains(
                value as int,
            );
            &&& applies ==> {
                &&& final(store).val_map() == old(store).val_map().insert(
                    descriptor as int,
                    Val::Object(
                        obj_update(
                            old(store).val_map()[descriptor as int]->Object_0,
                            k,
                            old(store).val_map()[value as int],
                        ),
                    ),
                )
                &&& final(store).next_descriptor() == old(store).next_descriptor()
                &&& final(store).live_count() == old(store).live_count()
                &&& frame_requests(*old(store), *final(store))
            }
            &&& !applies ==> *final(store) == *old(store)
        }),
{
    let kread = crate::memory::read_string(mem, key, key_len);
    let kstr: String = match kread {
        Some(s) => s,
        None => {
            return ;
        },
    };
    let ghost old_pairs = old(store).val_map()[descriptor as int]->Object_0;
    let pairs_cloned: Option<Vec<(String, Value)>> = match store.read_value(descriptor) {
        Some(v) => match v {
            Value::Object(pairs) => {
                proof {
                    lemma_pair_vals_of(pairs@);
                }
                Some(clone_pairs(pairs))
            },
            _ => None,
        },
        None => None,
    };
    let mut new_pairs: Vec<(String, Value)> = match pairs_cloned {
        Some(p) => p,
        None => {
            return ;
        },
    };
    proof {
        lemma_pair_vals_of(new_pairs@);
        assert(pair_vals_of(new_pairs@) =~= old_pairs);
    }
    let val_cloned: Option<Value> = match store.read_value(value) {
        Some(v) => Some(clone_value(v)),
        None => None,
    };
    let val: Value = match val_cloned {
        Some(v) => v,
        None => {
            return ;
        },
    };
    let ghost vmodel = val@;
    proof {
        assert(crate::value::obj_keys_unique(old_pairs));
    }
    match assoc_find(&new_pairs, kstr.as_str()) {
        Some(i) => {
            proof {
                lemma_obj_first_hit(pair_vals_of(new_pairs@), kstr@, i as int);
            }
            new_pairs.set(i, (kstr, val));
            proof {
                lemma_pair_vals_of(new_pairs@);
                assert(pair_vals_of(new_pairs@) =~= obj_update(old_pairs, kstr@, vmodel));
            }
        },
        None => {
            proof {
                lemma_obj_update_absent(pair_vals_of(new_pairs@), kstr@, vmodel);
                lemma_obj_update_unique(pair_vals_of(new_pairs@), kstr@, vmodel);
            }
            new_pairs.push((kstr, val));
            proof {
                lemma_pair_vals_of(new_pairs@);
                assert(pair_vals_of(new_pairs@) =~= obj_update(old_pairs, kstr@, vmodel));
            }
        },
    }
    let obj = Value::Object(new_pairs);
    proof {
        assert(wf_val(obj@));
    }
    store.set_value(descriptor, obj);
}

/// Allocates a fresh array holding the values of the object behind
/// `descriptor`, in pair order; `-1` for any other kind or a dead
/// descriptor.
pub fn object_values(store: &mut GlobalStore, descriptor: i32) -> (d: i32)
    requires
        old(store).wf(),
        old(store).can_alloc_value(),
    ensures
        final(store).wf(),
        ({
            let live = old(store).val_map().dom().contains(descriptor as int);
            if live && old(store).val_map()[descriptor as int] is Object {
                let pairs = old(store).val_map()[descriptor as int]->Object_0;
                alloc_effect(
                    *old(store),
                    *final(store),
                    d,
                    Val::Array(Seq::new(pairs.len(), |i: int| pairs[i].1)),
                )
            } else {
                d == -1 && *final(store) == *old(store)
            }
        }),
{
    let collected: Option<Vec<Value>> = match store.read_value(descriptor) {
        Some(v) => match v {
            Value::Object(pairs) => {
                proof {
                    lemma_pair_vals_of(pairs@);
                }
                let mut out: Vec<Value> = Vec::new();
                let mut i: usize = 0;
                while i < pairs.len()
                    invariant
                        i <= pairs@.len(),
                        out@.len() == i,
                        forall|j: int| 0 <= j < i ==> out@[j]@ == pairs@[j].1@,
                    decreases pairs@.len() - i,
                {
                    out.push(clone_value(&pairs[i].1));
                    i += 1;
                }
                Some(out)
            },
            _ => None,
        },
        None => None,
    };
    match collected {
        Some(out) => {
            let arr = Value::Array(out);
            proof {
                lemma_vals_of(arr->Array_0@);
                let pairs = old(store).val_map()[descriptor as int]->Object_0;
                assert(arr@->Array_0 =~= Seq::new(pairs.len(), |i: int| pairs[i].1));
            }
            store.store_value(arr)
        },
        None => -1,
    }
}

/// The length of the array behind `descriptor`, or 0 for any other kind
/// or a dead descriptor.
pub fn array_len(store: &GlobalStore, descriptor: i32) -> (n: i32)
    ensures
        ({
            let live = store.val_map().dom().contains(descriptor as int);
            &&& (live && store.val_map()[descriptor as int] is Array && store.val_map()[
                descriptor as int
            ]->Array_0.len() <= i32::MAX ==> n == store.val_map()[descriptor as int]->Array_0.len())
            &&& (!live || !(store.val_map()[descriptor as int] is Array) ==> n == 0)
        }),
{
    match store.read_value(descriptor) {
        Some(v) => match v {
            Value::Array(items) => {
                proof {
                    lemma_vals_of(items@);
                }
                #[verifier::truncate] (items.len() as i32)
            },
            _ => 0,
        },
        None => 0,
    }
}

/// Clones the element at `idx` of the array behind `descriptor` into a
/// fresh descriptor; `-1` for an index out of range, any other kind, or a
/// dead descriptor.
pub fn array_get(store: &mut GlobalStore, descriptor: i32, idx: i32) -> (d: i32)
    requires
        old(store).wf(),
        old(store).can_alloc_value(),
    ensures
        final(store).wf(),
        ({
            let live = old(store).val_map().dom().contains(descriptor as int);
            if live && old(store).val_map()[descriptor as int] is Array && 0 <= idx < old(
                store,
            ).val_map()[descriptor as int]->Array_0.len() {
                alloc_effect(
                    *old(store),
                    *final(store),
                    d,
                    old(store).val_map()[descriptor as int]->Array_0[idx as int],
                )
            } else {
                d == -1 && *final(store) == *old(store)
            }
        }),
{
    let picked: Option<Value> = match store.read_value(descriptor) {
        Some(v) => match v {
            Value::Array(items) => {
                proof {
                    lemma_vals_of(items@);
                }
                if idx >= 0 && (idx as usize) < items.len() {
                    let element = clone_value(&items[idx as usize]);
                    proof {
                        assert(wf_val(vals_of(items@)[idx as int]));
                        assert(wf_val(element@));
                    }
                    Some(element)
                } else {
                    None
                }
            },
            _ => None,
        },
        None => None,
    };
    match picked {
        Some(value) => store.store_value(value),
        None => -1,
    }
}

/// Appends a clone of the value behind `value` to the array behind
/// `descriptor`. A non-array target or a dead value descriptor leaves
/// everything unchanged.
pub fn array_append(store: &mut GlobalStore, descriptor: i32, value: i32)
    requires
        old(store).wf(),
    ensures
        final(store).wf(),
        ({
            let applies = old(store).val_map().dom().contains(descriptor as int) && old(
                store,
            ).val_map()[descriptor as int] is Array && old(store).val_map().dom().contains(
                value as int,
            );
            &&& applies ==> {
                &&& final(store).val_map() == old(store).val_map().insert(
                    descriptor as int,
                    Val::Array(
                        old(store).val_map()[descriptor as int]->Array_0.push(
                            old(store).val_map()[value as int],
                        ),
                    ),
                )
                &&& final(store).next_descriptor() == old(store).next_descriptor()
                &&& final(store).live_count() == old(store).live_count()
                &&& frame_requests(*old(store), *final(store))
            }
            &&& !applies ==> *final(store) == *old(store)
        }),
{
    let ghost old_items = old(store).val_map()[descriptor as int]->Array_0;
    let items_cloned: Option<Vec<Value>> = match store.read_value(descriptor) {
        Some(v) => match v {
            Value::Array(items) => {
                proof {
                    lemma_vals_of(items@);
                }
                Some(clone_values(items))
            },
            _ => None,
        },
        None => None,
    };
    let mut new_items: Vec<Value> = match items_cloned {
        Some(items) => items,
        None => {
            return ;
        },
    };
    proof {
        lemma_vals_of(new_items@);
        assert(vals_of(new_items@) =~= old_items);
    }
    let val_cloned: Option<Value> = match store.read_value(value) {
        Some(v) => Some(clone_value(v)),
        None => None,
    };
    let val: Value = match val_cloned {
        Some(v) => v,
        None => {
            return ;
        },
    };
    let ghost vmodel = val@;
    new_items.push(val);
    let arr = Value::Array(new_items);
    proof {
        lemma_vals_of(arr->Array_0@);
        assert(arr@->Array_0 =~= old_items.push(vmodel));
        assert(wf_val(arr@));
    }
    store.set_value(descriptor, arr);
}

} // verus!
