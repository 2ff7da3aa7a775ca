//! The uuid keystore: the association between uuids and the values (file
//! paths) they stand for. Loading it from and saving it to disk is left to
//! the caller.
use vstd::prelude::*;
use crate::string_map::{entries_map, keys_unique, StringMap};
use crate::uuid_text::{is_uuid_v4_text, new_uuid_v4};

verus! {

/// Whether `value` is stored under some key of `m`.
pub open spec fn has_value(m: Map<Seq<char>, Seq<char>>, value: Seq<char>) -> bool {
    exists|k: Seq<char>| m.contains_key(k) && m[k] == value
}

/// Whether `inv` maps each value of `m` to a key of `m` that holds it, and
/// nothing else.
pub open spec fn is_inverse(inv: Map<Seq<char>, Seq<char>>, m: Map<Seq<char>, Seq<char>>) -> bool {
    &&& forall|v: Seq<char>| inv.contains_key(v) <==> has_value(m, v)
    &&& forall|v: Seq<char>|
        #[trigger] inv.contains_key(v) ==> m.contains_key(inv[v]) && m[inv[v]] == v
}

/// The map from each value of `orig` to a key that holds it. When several
/// keys hold the same value, which of them is kept is not stated.
pub fn invert_map(orig: &StringMap) -> (result: StringMap)
    ensures
        is_inverse(result@, orig@),
{
    let n = orig.len();
    let ghost e = orig.entry_seq();
    let mut result = StringMap::new();
    let mut i: usize = 0;
    while i < n
        invariant
            i <= n == e.len(),
            e == orig.entry_seq(),
            keys_unique(e),
            orig@ == entries_map(e),
            forall|v: Seq<char>|
                result@.contains_key(v) <==> exists|j: int| 0 <= j < i && #[trigger] e[j].1@ == v,
            forall|v: Seq<char>|
                #[trigger] result@.contains_key(v) ==> exists|j: int|
                    0 <= j < i && e[j].1@ == v && e[j].0@ == result@[v],
        decreases n - i,
    {
        let (key, value) = orig.entry(i);
        result.insert(value.clone(), key.clone());
        assert(e[i as int].1@ == value@);
        i = i + 1;
    }
    assert forall|v: Seq<char>| result@.contains_key(v) <==> has_value(orig@, v) by {
        if result@.contains_key(v) {
            let j = choose|j: int| 0 <= j < i && #[trigger] e[j].1@ == v;
            crate::string_map::lemma_entries_map_at(e, j);
        }
        if has_value(orig@, v) {
            let k = choose|k: Seq<char>| orig@.contains_key(k) && orig@[k] == v;
            let j = choose|j: int| 0 <= j < e.len() && e[j].0@ == k;
            crate::string_map::lemma_entries_map_at(e, j);
            assert(e[j].1@ == v);
        }
    }
    assert forall|v: Seq<char>| #[trigger]
        result@.contains_key(v) implies orig@.contains_key(result@[v]) && orig@[result@[v]]
        == v by {
        let j = choose|j: int| 0 <= j < i && e[j].1@ == v && e[j].0@ == result@[v];
        crate::string_map::lemma_entries_map_at(e, j);
    }
    result
}

/// What associating `value` does: when `value` is already stored, its uuid
/// is `uuid` and the keystore stays as it was; otherwise `uuid` is a fresh
/// version 4 uuid under which `value` is now stored.
pub open spec fn associated(
    old_store: Map<Seq<char>, Seq<char>>,
    value: Seq<char>,
    uuid: Seq<char>,
    created: bool,
    new_store: Map<Seq<char>, Seq<char>>,
) -> bool {
    if has_value(old_store, value) {
        &&& !created
        &&& old_store.contains_key(uuid)
        &&& old_store[uuid] == value
        &&& new_store == old_store
    } else {
        &&& created
        &&& is_uuid_v4_text(uuid)
        &&& new_store == old_store.insert(uuid, value)
    }
}

/// The uuid that stands for `value`, which is associated with a new random
/// uuid when it has none yet. Returns the uuid and whether it was created
/// (in which case the keystore has to be saved).
pub fn get_or_associate_uuid(keystore: &mut StringMap, value: &str) -> (r: (String, bool))
    ensures
        associated(old(keystore)@, value@, r.0@, r.1, final(keystore)@),
{
    let inverted = invert_map(keystore);
    match inverted.get(value) {
        Some(uuid) => {
            return (uuid.clone(), false);
        },
        None => {},
    }
    let uuid = new_uuid_v4();
    keystore.insert(uuid.clone(), value.to_owned());
    (uuid, true)
}

/// The value stored under `uuid`.
pub fn get_value(keystore: &StringMap, uuid: &str) -> (r: Option<String>)
    ensures
        r is Some <==> keystore@.contains_key(uuid@),
        r matches Some(v) ==> v@ == keystore@[uuid@],
{
    match keystore.get(uuid) {
        Some(value) => Some(value.clone()),
        None => None,
    }
}

/// Once a value is associated with a uuid, looking the uuid up gives the
/// value back.
pub proof fn lemma_value_of_associated_uuid(
    old_store: Map<Seq<char>, Seq<char>>,
    value: Seq<char>,
    uuid: Seq<char>,
    created: bool,
    new_store: Map<Seq<char>, Seq<char>>,
)
    requires
        associated(old_store, value, uuid, created, new_store),
    ensures
        new_store.contains_key(uuid),
        new_store[uuid] == value,
{
}

/// Associating a value a second time creates nothing and leaves the
/// keystore as it is.
pub proof fn lemma_associate_idempotent(
    store0: Map<Seq<char>, Seq<char>>,
    value: Seq<char>,
    uuid1: Seq<char>,
    created1: bool,
    store1: Map<Seq<char>, Seq<char>>,
    uuid2: Seq<char>,
    created2: bool,
    store2: Map<Seq<char>, Seq<char>>,
)
    requires
        associated(store0, value, uuid1, created1, store1),
        associated(store1, value, uuid2, created2, store2),
    ensures
        !created2,
        store2 == store1,
        store2[uuid2] == value,
{
    assert(store1.contains_key(uuid1) && store1[uuid1] == value);
    assert(has_value(store1, value));
}

/// Associating a value leaves the values stored under other uuids as they
/// were.
pub proof fn lemma_associate_keeps_others(
    old_store: Map<Seq<char>, Seq<char>>,
    value: Seq<char>,
    uuid: Seq<char>,
    created: bool,
    new_store: Map<Seq<char>, Seq<char>>,
    other: Seq<char>,
)
    requires
        associated(old_store, value, uuid, created, new_store),
        old_store.contains_key(other),
        other != uuid,
    ensures
        new_store.contains_key(other),
        new_store[other] == old_store[other],
{
}

} // verus!
