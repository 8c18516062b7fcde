//! What happens to a cache when something is put into it.

use vstd::prelude::*;

verus! {

/// Whether `after` is `before` with a value put in, and at most one other, if the key is
/// new, taken out.
pub open spec fn is_put<K, V>(before: Map<K, V>, key: K, value: V, after: Map<K, V>) -> bool {
    ||| after == before.insert(key, value)
    ||| exists|gone: K|
        !before.contains_key(key) && #[trigger] before.contains_key(gone) && after
            == before.remove(gone).insert(key, value)
}

/// Whether `after` is `before` with a value put in, and any number of others taken out.
pub open spec fn is_put_in_place<K, V>(before: Map<K, V>, key: K, value: V, after: Map<K, V>) -> bool {
    &&& after.contains_key(key)
    &&& after[key] == value
    &&& forall|k: K|
        k != key && #[trigger] after.contains_key(k) ==> before.contains_key(k) && after[k]
            == before[k]
}

/// Whether a cache holds at most so many values.
pub open spec fn holds_at_most<K, V>(m: Map<K, V>, n: nat) -> bool {
    m.dom().finite() && m.dom().len() <= n
}

} // verus!
