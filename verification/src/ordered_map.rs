//! A map and a set that keep their keys sorted, one entry for each key.

use vstd::prelude::*;

use crate::order::lemma_text_order_dual;
use crate::order::lemma_text_order_equal;
use crate::order::lemma_text_order_transitive;
use crate::order::Order;
use crate::order::SortKey;

verus! {

/// The number of leading keys that are before `key`: where `key` stands, or would stand, among
/// sorted keys.
pub open spec fn lower_bound<K: SortKey>(keys: Seq<K::V>, key: K::V) -> nat
    decreases keys.len(),
{
    if keys.len() == 0 || !(K::order(keys[0], key) is Less) {
        0
    } else {
        1 + lower_bound::<K>(keys.skip(1), key)
    }
}

/// Whether the keys stand in strictly ascending order.
pub open spec fn sorted<K: SortKey>(keys: Seq<K::V>) -> bool {
    forall|i: int, j: int|
        0 <= i < j < keys.len() ==> #[trigger] K::order(keys[i], keys[j]) is Less
}

/// Where `key` is among the keys, if it is there.
pub open spec fn index_of<K: SortKey>(keys: Seq<K::V>, key: K::V) -> Option<int> {
    let i = lower_bound::<K>(keys, key) as int;
    if i < keys.len() && K::order(keys[i], key) is Equal {
        Some(i)
    } else {
        None
    }
}

/// The keys after `key` was added: unchanged where an equal key was there.
pub open spec fn with_key<K: SortKey>(keys: Seq<K::V>, key: K::V) -> Seq<K::V> {
    if index_of::<K>(keys, key) is Some {
        keys
    } else {
        keys.insert(lower_bound::<K>(keys, key) as int, key)
    }
}

/// The entries of a map: its keys in order, and at the same index the value of each.
pub struct Entries<A, B> {
    pub keys: Seq<A>,
    pub values: Seq<B>,
}

/// Whether the keys are sorted and each has a value.
pub open spec fn entries_wf<K: SortKey, B>(entries: Entries<K::V, B>) -> bool {
    &&& entries.keys.len() == entries.values.len()
    &&& sorted::<K>(entries.keys)
}

/// The map without entries.
pub open spec fn no_entries<A, B>() -> Entries<A, B> {
    Entries { keys: Seq::empty(), values: Seq::empty() }
}

/// The value that the map holds for `key`.
pub open spec fn lookup<K: SortKey, B>(entries: Entries<K::V, B>, key: K::V) -> Option<B> {
    match index_of::<K>(entries.keys, key) {
        Some(i) => Some(entries.values[i]),
        None => None,
    }
}

/// The map after `value` was put under `key`: an equal key that was there stays, with the new
/// value.
pub open spec fn with_entry<K: SortKey, B>(
    entries: Entries<K::V, B>,
    key: K::V,
    value: B,
) -> Entries<K::V, B> {
    Entries {
        keys: with_key::<K>(entries.keys, key),
        values: match index_of::<K>(entries.keys, key) {
            Some(i) => entries.values.update(i, value),
            None => entries.values.insert(lower_bound::<K>(entries.keys, key) as int, value),
        },
    }
}

/// A key that has nothing but smaller keys before it, and no smaller key at it, is at its lower
/// bound.
pub proof fn lemma_lower_bound<K: SortKey>(keys: Seq<K::V>, key: K::V, i: int)
    requires
        0 <= i <= keys.len(),
        forall|j: int| 0 <= j < i ==> #[trigger] K::order(keys[j], key) is Less,
        i < keys.len() ==> !(K::order(keys[i], key) is Less),
    ensures
        lower_bound::<K>(keys, key) == i,
    decreases keys.len(),
{
    if i > 0 {
        assert(K::order(keys[0], key) is Less);
        assert forall|j: int| 0 <= j < i - 1 implies #[trigger] K::order(
            keys.skip(1)[j],
            key,
        ) is Less by {
            assert(keys.skip(1)[j] == keys[j + 1]);
        }
        lemma_lower_bound::<K>(keys.skip(1), key, i - 1);
    }
}

/// Every key before the lower bound is smaller; the one at it is not.
pub proof fn lemma_lower_bound_splits<K: SortKey>(keys: Seq<K::V>, key: K::V)
    ensures
        lower_bound::<K>(keys, key) <= keys.len(),
        forall|j: int|
            0 <= j < lower_bound::<K>(keys, key) ==> #[trigger] K::order(keys[j], key) is Less,
        lower_bound::<K>(keys, key) < keys.len() ==> !(K::order(
            keys[lower_bound::<K>(keys, key) as int],
            key,
        ) is Less),
    decreases keys.len(),
{
    if keys.len() > 0 && K::order(keys[0], key) is Less {
        lemma_lower_bound_splits::<K>(keys.skip(1), key);
        assert forall|j: int| 0 <= j < lower_bound::<K>(keys, key) implies #[trigger] K::order(
            keys[j],
            key,
        ) is Less by {
            if j > 0 {
                assert(keys[j] == keys.skip(1)[j - 1]);
            }
        }
    }
}

/// A key that was added is found; a value that was put under a key is what the key holds.
pub proof fn lemma_lookup_after_entry<K: SortKey, B>(
    entries: Entries<K::V, B>,
    key: K::V,
    value: B,
)
    requires
        entries.keys.len() == entries.values.len(),
    ensures
        lookup::<K, B>(with_entry::<K, B>(entries, key, value), key) == Some(value),
        index_of::<K>(with_key::<K>(entries.keys, key), key) == Some(
            lower_bound::<K>(entries.keys, key) as int,
        ),
{
    let i = lower_bound::<K>(entries.keys, key) as int;
    let keys = with_key::<K>(entries.keys, key);
    lemma_lower_bound_splits::<K>(entries.keys, key);
    K::order_reflexive(key);
    assert forall|j: int| 0 <= j < i implies #[trigger] K::order(keys[j], key) is Less by {
        assert(keys[j] == entries.keys[j]);
    }
    lemma_lower_bound::<K>(keys, key, i);
}

/// Every value of the map after a value was put under a key is that value or was there before.
pub proof fn lemma_values_after_entry<K: SortKey, B>(
    entries: Entries<K::V, B>,
    key: K::V,
    value: B,
)
    requires
        entries.keys.len() == entries.values.len(),
    ensures
        forall|i: int|
            0 <= i < with_entry::<K, B>(entries, key, value).values.len() ==> (
            #[trigger] with_entry::<K, B>(entries, key, value).values[i]) == value
                || entries.values.contains(with_entry::<K, B>(entries, key, value).values[i]),
{
    let at = lower_bound::<K>(entries.keys, key) as int;
    let after = with_entry::<K, B>(entries, key, value);
    lemma_lower_bound_splits::<K>(entries.keys, key);
    assert forall|i: int| 0 <= i < after.values.len() implies (#[trigger] after.values[i]) == value
        || entries.values.contains(after.values[i]) by {
        if index_of::<K>(entries.keys, key) is Some {
            if i != at {
                assert(after.values[i] == entries.values[i]);
            }
        } else if i < at {
            assert(after.values[i] == entries.values[i]);
        } else if i > at {
            assert(after.values[i] == entries.values[i - 1]);
        }
    }
}

/// Every entry of the map after a value was put under a key is that value under an equal key, or
/// was there before.
pub proof fn lemma_entries_after_entry<K: SortKey, B>(
    entries: Entries<K::V, B>,
    key: K::V,
    value: B,
    i: int,
)
    requires
        entries.keys.len() == entries.values.len(),
        0 <= i < with_entry::<K, B>(entries, key, value).keys.len(),
    ensures
        ({
            let after = with_entry::<K, B>(entries, key, value);
            ||| after.values[i] == value && K::order(after.keys[i], key) is Equal
            ||| exists|j: int|
                0 <= j < entries.keys.len() && #[trigger] entries.keys[j] == after.keys[i]
                    && entries.values[j] == after.values[i]
        }),
{
    let at = lower_bound::<K>(entries.keys, key) as int;
    let after = with_entry::<K, B>(entries, key, value);
    lemma_lower_bound_splits::<K>(entries.keys, key);
    K::order_reflexive(key);
    let absent = index_of::<K>(entries.keys, key) is None;
    if i != at {
        let j = if absent && i > at {
            i - 1
        } else {
            i
        };
        assert(entries.keys[j] == after.keys[i]);
    }
}

/// Adding a key that was just added changes nothing.
pub proof fn law_adding_a_key_twice_is_adding_it_once<K: SortKey>(keys: Seq<K::V>, key: K::V)
    ensures
        with_key::<K>(with_key::<K>(keys, key), key) == with_key::<K>(keys, key),
{
    lemma_lookup_after_entry::<K, K::V>(Entries { keys, values: keys }, key, key);
}

/// Of two values put under one key one after the other, the second is what the map holds, as if
/// the first had never been put there.
pub proof fn law_the_last_value_of_a_key_wins<K: SortKey, B>(
    entries: Entries<K::V, B>,
    key: K::V,
    first: B,
    second: B,
)
    requires
        entries.keys.len() == entries.values.len(),
    ensures
        with_entry::<K, B>(with_entry::<K, B>(entries, key, first), key, second) == with_entry::<
            K,
            B,
        >(entries, key, second),
{
    lemma_lookup_after_entry::<K, B>(entries, key, first);
    lemma_lower_bound_splits::<K>(entries.keys, key);
    let once = with_entry::<K, B>(entries, key, second);
    let twice = with_entry::<K, B>(with_entry::<K, B>(entries, key, first), key, second);
    assert(twice.keys =~= once.keys);
    assert(twice.values =~= once.values);
}

/// A map from text, seen as what each text leads to.
pub open spec fn text_map<B>(entries: Entries<Seq<char>, B>) -> Map<Seq<char>, B> {
    Map::new(
        |key: Seq<char>| lookup::<String, B>(entries, key) is Some,
        |key: Seq<char>| lookup::<String, B>(entries, key)->0,
    )
}

proof fn lemma_index_of_text(keys: Seq<Seq<char>>, key: Seq<char>)
    requires
        sorted::<String>(keys),
    ensures
        index_of::<String>(keys, key) matches Some(i) ==> 0 <= i < keys.len() && keys[i] == key,
        index_of::<String>(keys, key) is None ==> !keys.contains(key),
{
    let i = lower_bound::<String>(keys, key) as int;
    lemma_lower_bound_splits::<String>(keys, key);
    if i < keys.len() {
        lemma_text_order_equal(keys[i], key);
    }
    if keys.contains(key) {
        let j = choose|j: int| 0 <= j < keys.len() && keys[j] == key;
        lemma_text_order_equal(key, key);
        assert forall|k: int| 0 <= k < j implies #[trigger] String::order(
            keys[k],
            key,
        ) is Less by {
            assert(String::order(keys[k], keys[j]) is Less);
        }
        lemma_lower_bound::<String>(keys, key, j);
    }
}

proof fn lemma_sorted_with_text(keys: Seq<Seq<char>>, key: Seq<char>)
    requires
        sorted::<String>(keys),
    ensures
        sorted::<String>(with_key::<String>(keys, key)),
{
    let i = lower_bound::<String>(keys, key) as int;
    lemma_lower_bound_splits::<String>(keys, key);
    if index_of::<String>(keys, key) is None {
        if i < keys.len() {
            lemma_text_order_dual(keys[i], key);
            assert forall|c: Seq<char>| String::order(
                keys[i],
                c,
            ) is Less implies #[trigger] String::order(key, c) is Less by {
                lemma_text_order_transitive(key, keys[i], c);
            }
        }
        lemma_sorted_with_key::<String>(keys, key);
    }
}

/// Putting a value under a text changes what that text leads to, and nothing else.
pub proof fn law_text_map_insert<B>(entries: Entries<Seq<char>, B>, key: Seq<char>, value: B)
    requires
        entries_wf::<String, B>(entries),
    ensures
        entries_wf::<String, B>(with_entry::<String, B>(entries, key, value)),
        text_map(with_entry::<String, B>(entries, key, value)) == text_map(entries).insert(
            key,
            value,
        ),
{
    let after = with_entry::<String, B>(entries, key, value);
    let at = lower_bound::<String>(entries.keys, key) as int;
    lemma_lower_bound_splits::<String>(entries.keys, key);
    lemma_sorted_with_text(entries.keys, key);
    lemma_lookup_after_entry::<String, B>(entries, key, value);
    lemma_index_of_text(entries.keys, key);
    assert forall|other: Seq<char>| other != key implies lookup::<String, B>(after, other)
        == lookup::<String, B>(entries, other) by {
        lemma_index_of_text(entries.keys, other);
        lemma_index_of_text(after.keys, other);
        match (
            index_of::<String>(entries.keys, other),
            index_of::<String>(after.keys, other),
        ) {
            (Some(i), found) => {
                let moved = if index_of::<String>(entries.keys, key) is None && i >= at {
                    i + 1
                } else {
                    i
                };
                assert(after.keys[moved] == other);
                assert(after.keys.contains(other));
                let j = found->0;
                assert(after.keys[j] == other);
                if j < moved {
                    assert(String::order(after.keys[j], after.keys[moved]) is Less);
                    lemma_text_order_equal(other, other);
                } else if moved < j {
                    assert(String::order(after.keys[moved], after.keys[j]) is Less);
                    lemma_text_order_equal(other, other);
                }
            },
            (None, Some(j)) => {
                let back = if index_of::<String>(entries.keys, key) is None && j > at {
                    j - 1
                } else {
                    j
                };
                assert(entries.keys[back] == other);
                assert(false);
            },
            (None, None) => {},
        }
    }
    assert(text_map(after) =~= text_map(entries).insert(key, value));
}

/// A sorted map from text leads from each of its keys to the value beside it, and from no other
/// text to anything.
pub proof fn law_text_map_holds_each_entry<B>(
    entries: Entries<Seq<char>, B>,
    i: int,
    name: Seq<char>,
)
    requires
        entries_wf::<String, B>(entries),
    ensures
        0 <= i < entries.keys.len() ==> text_map(entries).contains_key(entries.keys[i])
            && text_map(entries)[entries.keys[i]] == entries.values[i],
        text_map(entries).contains_key(name) <==> entries.keys.contains(name),
{
    lemma_index_of_text(entries.keys, name);
    if 0 <= i < entries.keys.len() {
        law_sorted_keys_lead_to_their_values::<String, B>(entries, i);
    }
    if let Some(j) = index_of::<String>(entries.keys, name) {
        assert(entries.keys[j] == name);
    }
}

/// A sorted map leads from each of its keys to the value beside it.
pub proof fn law_sorted_keys_lead_to_their_values<K: SortKey, B>(
    entries: Entries<K::V, B>,
    i: int,
)
    requires
        entries_wf::<K, B>(entries),
        0 <= i < entries.keys.len(),
    ensures
        index_of::<K>(entries.keys, entries.keys[i]) == Some(i),
        lookup::<K, B>(entries, entries.keys[i]) == Some(entries.values[i]),
{
    K::order_reflexive(entries.keys[i]);
    assert forall|j: int| 0 <= j < i implies #[trigger] K::order(
        entries.keys[j],
        entries.keys[i],
    ) is Less by {}
    lemma_lower_bound::<K>(entries.keys, entries.keys[i], i);
}

/// A key is found only where an equal key stands and every key before that is smaller.
pub proof fn law_keys_are_found_where_they_stand<K: SortKey>(keys: Seq<K::V>, key: K::V)
    ensures
        index_of::<K>(keys, key) matches Some(i) ==> 0 <= i < keys.len() && K::order(
            keys[i],
            key,
        ) is Equal && forall|j: int| 0 <= j < i ==> #[trigger] K::order(keys[j], key) is Less,
        index_of::<K>(keys, key) is None ==> exists|i: int|
            0 <= i <= keys.len() && (forall|j: int|
                0 <= j < i ==> #[trigger] K::order(keys[j], key) is Less) && (i < keys.len()
                ==> K::order(keys[i], key) is Greater),
{
    lemma_lower_bound_splits::<K>(keys, key);
}

/// A value that is put under a key replaces the value of an equal key, which stays itself; where
/// there is none, key and value come in at one place, behind all smaller keys, and everything else
/// is kept in its order.
pub proof fn law_an_entry_changes_one_place<K: SortKey, B>(
    entries: Entries<K::V, B>,
    key: K::V,
    value: B,
)
    requires
        entries.keys.len() == entries.values.len(),
    ensures
        with_key::<K>(entries.keys, key) == with_entry::<K, B>(entries, key, value).keys,
        index_of::<K>(entries.keys, key) matches Some(i) ==> {
            let after = with_entry::<K, B>(entries, key, value);
            &&& after.keys == entries.keys
            &&& after.values.len() == entries.values.len()
            &&& after.values[i] == value
            &&& forall|j: int|
                0 <= j < entries.values.len() && j != i ==> #[trigger] after.values[j]
                    == entries.values[j]
        },
        index_of::<K>(entries.keys, key) is None ==> exists|i: int|
            #![trigger with_entry::<K, B>(entries, key, value).keys[i]]
            {
                let after = with_entry::<K, B>(entries, key, value);
                &&& 0 <= i < after.keys.len()
                &&& after.keys[i] == key
                &&& after.values[i] == value
                &&& after.keys.remove(i) == entries.keys
                &&& after.values.remove(i) == entries.values
                &&& forall|j: int| 0 <= j < i ==> #[trigger] K::order(entries.keys[j], key) is Less
                &&& i < entries.keys.len() ==> K::order(entries.keys[i], key) is Greater
            },
{
    let at = lower_bound::<K>(entries.keys, key) as int;
    let after = with_entry::<K, B>(entries, key, value);
    lemma_lower_bound_splits::<K>(entries.keys, key);
    if index_of::<K>(entries.keys, key) is None {
        assert(after.keys[at] == key);
        assert(after.keys.remove(at) =~= entries.keys);
        assert(after.values.remove(at) =~= entries.values);
    }
}

/// Whether a map holds one and the same for `key` and for every key that compares equal with it.
pub open spec fn same_for_equals<K: SortKey, B>(entries: Entries<K::V, B>, key: K::V) -> bool {
    forall|other: K::V|
        K::order(key, other) is Equal ==> #[trigger] lookup::<K, B>(entries, other) == lookup::<
            K,
            B,
        >(entries, key)
}

/// Whether a map holds the same for every key but `key` and those that compare equal with it, and
/// does not tell those apart, neither before nor after.
pub open spec fn same_but<K: SortKey, B>(
    before: Entries<K::V, B>,
    after: Entries<K::V, B>,
    key: K::V,
) -> bool {
    &&& forall|other: K::V|
        K::order(key, other) !is Equal ==> #[trigger] lookup::<K, B>(after, other) == lookup::<
            K,
            B,
        >(before, other)
    &&& same_for_equals::<K, B>(before, key)
    &&& same_for_equals::<K, B>(after, key)
}

/// How `key` compares with the keys around its place, held against any other key.
spec fn placed<K: SortKey>(keys: Seq<K::V>, key: K::V) -> bool {
    let at = lower_bound::<K>(keys, key) as int;
    &&& forall|j: int, c: K::V|
        0 <= j < at && K::order(key, c) !is Greater ==> #[trigger] K::order(keys[j], c) is Less
    &&& at < keys.len() && K::order(keys[at], key) is Equal ==> forall|c: K::V| #[trigger]
        K::order(keys[at], c) == K::order(key, c)
    &&& at < keys.len() && K::order(keys[at], key) is Greater ==> forall|c: K::V|
        K::order(keys[at], c) !is Greater ==> #[trigger] K::order(key, c) is Less
}

proof fn lemma_same_for_equals<K: SortKey, B>(entries: Entries<K::V, B>, key: K::V)
    requires
        placed::<K>(entries.keys, key),
    ensures
        same_for_equals::<K, B>(entries, key),
{
    let keys = entries.keys;
    let at = lower_bound::<K>(keys, key) as int;
    lemma_lower_bound_splits::<K>(keys, key);
    assert forall|other: K::V| K::order(key, other) is Equal implies #[trigger] lookup::<K, B>(
        entries,
        other,
    ) == lookup::<K, B>(entries, key) by {
        if at < keys.len() && K::order(keys[at], key) is Greater {
            assert(K::order(keys[at], other) is Greater);
        }
        lemma_lower_bound::<K>(keys, other, at);
    }
}

proof fn lemma_same_for_equals_after<K: SortKey, B>(
    entries: Entries<K::V, B>,
    key: K::V,
    value: B,
)
    requires
        entries.keys.len() == entries.values.len(),
        placed::<K>(entries.keys, key),
    ensures
        same_for_equals::<K, B>(with_entry::<K, B>(entries, key, value), key),
{
    let keys = entries.keys;
    let after = with_entry::<K, B>(entries, key, value);
    let at = lower_bound::<K>(keys, key) as int;
    lemma_lower_bound_splits::<K>(keys, key);
    lemma_lookup_after_entry::<K, B>(entries, key, value);
    assert forall|other: K::V| K::order(key, other) is Equal implies #[trigger] lookup::<K, B>(
        after,
        other,
    ) == lookup::<K, B>(after, key) by {
        assert forall|j: int| 0 <= j < at implies #[trigger] K::order(
            after.keys[j],
            other,
        ) is Less by {
            assert(after.keys[j] == keys[j]);
        }
        assert(K::order(after.keys[at], other) is Equal);
        lemma_lower_bound::<K>(after.keys, other, at);
    }
}

proof fn lemma_same_but<K: SortKey, B>(entries: Entries<K::V, B>, key: K::V, value: B)
    requires
        entries.keys.len() == entries.values.len(),
        placed::<K>(entries.keys, key),
    ensures
        same_but::<K, B>(entries, with_entry::<K, B>(entries, key, value), key),
{
    lemma_same_for_equals::<K, B>(entries, key);
    lemma_same_for_equals_after::<K, B>(entries, key, value);
    let keys = entries.keys;
    let after = with_entry::<K, B>(entries, key, value);
    let at = lower_bound::<K>(keys, key) as int;
    lemma_lower_bound_splits::<K>(keys, key);
    assert forall|other: K::V| K::order(key, other) !is Equal implies #[trigger] lookup::<K, B>(
        after,
        other,
    ) == lookup::<K, B>(entries, other) by {
        let was = lower_bound::<K>(keys, other) as int;
        lemma_lower_bound_splits::<K>(keys, other);
        if index_of::<K>(keys, key) is None {
            if K::order(key, other) is Less {
                if was < at {
                    assert(K::order(keys[was], other) is Less);
                }
                assert forall|j: int| 0 <= j < was + 1 implies #[trigger] K::order(
                    after.keys[j],
                    other,
                ) is Less by {
                    if j < at {
                        assert(after.keys[j] == keys[j]);
                    } else if j > at {
                        assert(after.keys[j] == keys[j - 1]);
                    }
                }
                lemma_lower_bound::<K>(after.keys, other, was + 1);
            } else {
                if was > at {
                    assert(K::order(keys[at], other) is Less);
                }
                assert forall|j: int| 0 <= j < was implies #[trigger] K::order(
                    after.keys[j],
                    other,
                ) is Less by {
                    assert(after.keys[j] == keys[j]);
                }
                lemma_lower_bound::<K>(after.keys, other, was);
                if was == at && was < keys.len() {
                    assert(K::order(keys[at], other) !is Equal);
                }
            }
        }
    }
}

/// Searches sorted keys from the start.
fn search<K: SortKey>(keys: &Vec<K>, key: &K) -> (r: usize)
    ensures
        r == lower_bound::<K>(keys.deep_view(), key.deep_view()),
        r <= keys.len(),
        forall|j: int, c: K::V|
            0 <= j < r && K::order(key.deep_view(), c) !is Greater ==> #[trigger] K::order(
                keys.deep_view()[j],
                c,
            ) is Less,
{
    let mut i: usize = 0;
    while i < keys.len()
        invariant
            i <= keys.len(),
            forall|j: int, c: K::V|
                0 <= j < i && K::order(key.deep_view(), c) !is Greater ==> #[trigger] K::order(
                    keys.deep_view()[j],
                    c,
                ) is Less,
            forall|j: int|
                0 <= j < i ==> #[trigger] K::order(
                    keys.deep_view()[j],
                    key.deep_view(),
                ) is Less,
        decreases keys.len() - i,
    {
        let order = keys[i].compare(key);
        assert(keys.deep_view()[i as int] == keys[i as int].deep_view());
        if order != Order::Less {
            proof {
                lemma_lower_bound::<K>(keys.deep_view(), key.deep_view(), i as int);
            }
            return i;
        }
        i = i + 1;
    }
    proof {
        lemma_lower_bound::<K>(keys.deep_view(), key.deep_view(), i as int);
    }
    i
}

/// Searches sorted keys for one key: whether it is there, and where it is or belongs.
fn find<K: SortKey>(keys: &Vec<K>, key: &K) -> (r: (bool, usize))
    requires
        sorted::<K>(keys.deep_view()),
    ensures
        r.1 == lower_bound::<K>(keys.deep_view(), key.deep_view()),
        r.1 <= keys.len(),
        r.0 ==> index_of::<K>(keys.deep_view(), key.deep_view()) == Some(r.1 as int),
        r.0 ==> r.1 < keys.len(),
        !r.0 ==> index_of::<K>(keys.deep_view(), key.deep_view()) is None,
        sorted::<K>(with_key::<K>(keys.deep_view(), key.deep_view())),
        placed::<K>(keys.deep_view(), key.deep_view()),
{
    let i = search(keys, key);
    let ghost before = keys.deep_view();
    let ghost k = key.deep_view();
    proof {
        lemma_lower_bound_splits::<K>(before, k);
    }
    if i < keys.len() {
        let order = keys[i].compare(key);
        assert(before[i as int] == keys[i as int].deep_view());
        if order == Order::Equal {
            return (true, i);
        }
        proof {
            lemma_sorted_with_key::<K>(before, k);
        }
        (false, i)
    } else {
        proof {
            lemma_sorted_with_key::<K>(before, k);
        }
        (false, i)
    }
}

proof fn lemma_sorted_with_key<K: SortKey>(keys: Seq<K::V>, key: K::V)
    requires
        sorted::<K>(keys),
        index_of::<K>(keys, key) is None,
        ({
            let i = lower_bound::<K>(keys, key) as int;
            i < keys.len() ==> {
                &&& K::order(key, keys[i]) is Less
                &&& forall|c: K::V|
                    K::order(keys[i], c) is Less ==> #[trigger] K::order(key, c) is Less
            }
        }),
    ensures
        sorted::<K>(with_key::<K>(keys, key)),
{
    let i = lower_bound::<K>(keys, key) as int;
    let after = with_key::<K>(keys, key);
    lemma_lower_bound_splits::<K>(keys, key);
    assert forall|a: int, b: int| 0 <= a < b < after.len() implies #[trigger] K::order(
        after[a],
        after[b],
    ) is Less by {
        if a < i && b == i {
            assert(K::order(keys[a], key) is Less);
        } else if a == i {
            if b - 1 > i {
                assert(K::order(keys[i], keys[b - 1]) is Less);
            }
            assert(K::order(key, keys[b - 1]) is Less);
        } else {
            let x = if a < i { a } else { a - 1 };
            let y = if b < i { b } else { b - 1 };
            assert(K::order(keys[x], keys[y]) is Less);
        }
    }
}

/// A map sorted by its keys.
#[derive(Clone, Debug, PartialEq, Eq)]
pub struct OrderedMap<K, V> {
    keys: Vec<K>,
    values: Vec<V>,
}

impl<K: SortKey, V: DeepView> DeepView for OrderedMap<K, V> {
    type V = Entries<K::V, V::V>;

    closed spec fn deep_view(&self) -> Entries<K::V, V::V> {
        Entries { keys: self.keys.deep_view(), values: self.values.deep_view() }
    }
}

impl<K: SortKey, V: DeepView> OrderedMap<K, V> {
    /// The keys are sorted and each has a value.
    pub open spec fn wf(&self) -> bool {
        entries_wf::<K, V::V>(self.deep_view())
    }

    /// The map without entries.
    pub fn new() -> (r: Self)
        ensures
            r.wf(),
            r.deep_view() == no_entries::<K::V, V::V>(),
    {
        let r = OrderedMap { keys: Vec::new(), values: Vec::new() };
        assert(r.deep_view().keys =~= Seq::empty());
        assert(r.deep_view().values =~= Seq::empty());
        r
    }

    /// The number of entries.
    pub fn len(&self) -> (r: usize)
        requires
            self.wf(),
        ensures
            r == self.deep_view().keys.len(),
            r == self.deep_view().values.len(),
    {
        self.keys.len()
    }

    /// Whether there is no entry.
    pub fn is_empty(&self) -> (r: bool)
        requires
            self.wf(),
        ensures
            r == (self.deep_view().keys.len() == 0),
    {
        self.keys.len() == 0
    }

    /// The key at an index.
    pub fn key_at(&self, index: usize) -> (r: &K)
        requires
            self.wf(),
            index < self.deep_view().keys.len(),
        ensures
            r.deep_view() == self.deep_view().keys[index as int],
    {
        &self.keys[index]
    }

    /// The value at an index.
    pub fn value_at(&self, index: usize) -> (r: &V)
        requires
            self.wf(),
            index < self.deep_view().keys.len(),
        ensures
            r.deep_view() == self.deep_view().values[index as int],
    {
        &self.values[index]
    }

    /// Whether the map holds a value for the key.
    pub fn contains_key(&self, key: &K) -> (r: bool)
        requires
            self.wf(),
        ensures
            r == (lookup::<K, V::V>(self.deep_view(), key.deep_view()) is Some),
            same_for_equals::<K, V::V>(self.deep_view(), key.deep_view()),
    {
        let (found, _) = find(&self.keys, key);
        proof {
            lemma_same_for_equals::<K, V::V>(self.deep_view(), key.deep_view());
        }
        found
    }

    /// The value that the map holds for the key.
    pub fn get(&self, key: &K) -> (r: Option<&V>)
        requires
            self.wf(),
        ensures
            r.deep_view() == lookup::<K, V::V>(self.deep_view(), key.deep_view()),
    {
        let (found, i) = find(&self.keys, key);
        if found {
            Some(&self.values[i])
        } else {
            None
        }
    }

    /// Gives access to the value that the map holds for the key.
    pub fn value_mut(&mut self, key: &K) -> (r: &mut V)
        requires
            old(self).wf(),
            lookup::<K, V::V>(old(self).deep_view(), key.deep_view()) is Some,
        ensures
            Some((*r).deep_view()) == lookup::<K, V::V>(old(self).deep_view(), key.deep_view()),
            final(self).wf(),
            final(self).deep_view() == with_entry::<K, V::V>(
                old(self).deep_view(),
                key.deep_view(),
                (*final(r)).deep_view(),
            ),
            same_but::<K, V::V>(old(self).deep_view(), final(self).deep_view(), key.deep_view()),
    {
        let (_, i) = find(&self.keys, key);
        proof {
            let before = self.values;
            let entries = self.deep_view();
            let k = key.deep_view();
            assert forall|v: V::V|
                same_but::<K, V::V>(
                    entries,
                    #[trigger] with_entry::<K, V::V>(entries, k, v),
                    k,
                ) by {
                lemma_same_but::<K, V::V>(entries, k, v);
            }
            assert forall|after: Vec<V>, v: V|
                #![trigger after.deep_view(), v.deep_view()]
                after@ == before@.update(i as int, v) implies after.deep_view()
                == before.deep_view().update(i as int, v.deep_view()) by {
                assert(after.deep_view() =~= before.deep_view().update(i as int, v.deep_view()));
            }
        }
        &mut self.values[i]
    }

    /// Puts a value under a key.
    pub fn insert(&mut self, key: K, value: V)
        requires
            old(self).wf(),
        ensures
            final(self).wf(),
            final(self).deep_view() == with_entry::<K, V::V>(
                old(self).deep_view(),
                key.deep_view(),
                value.deep_view(),
            ),
            same_but::<K, V::V>(old(self).deep_view(), final(self).deep_view(), key.deep_view()),
    {
        let (found, i) = find(&self.keys, &key);
        let ghost before = self.deep_view();
        proof {
            lemma_same_but::<K, V::V>(before, key.deep_view(), value.deep_view());
        }
        let ghost k = key.deep_view();
        let ghost v = value.deep_view();
        if found {
            self.values[i] = value;
        } else {
            self.keys.insert(i, key);
            self.values.insert(i, value);
        }
        proof {
            assert(self.deep_view().keys =~= with_entry::<K, V::V>(before, k, v).keys);
            assert(self.deep_view().values =~= with_entry::<K, V::V>(before, k, v).values);
        }
    }
}

/// A set sorted by its members.
#[derive(Clone, Debug, PartialEq, Eq)]
pub struct OrderedSet<K> {
    keys: Vec<K>,
}

impl<K: SortKey> DeepView for OrderedSet<K> {
    type V = Seq<K::V>;

    closed spec fn deep_view(&self) -> Seq<K::V> {
        self.keys.deep_view()
    }
}

impl<K: SortKey> OrderedSet<K> {
    /// The members are sorted.
    pub open spec fn wf(&self) -> bool {
        sorted::<K>(self.deep_view())
    }

    /// The set without members.
    pub fn new() -> (r: Self)
        ensures
            r.wf(),
            r.deep_view() == Seq::<K::V>::empty(),
    {
        let r = OrderedSet { keys: Vec::new() };
        assert(r.deep_view() =~= Seq::empty());
        r
    }

    /// The number of members.
    pub fn len(&self) -> (r: usize)
        ensures
            r == self.deep_view().len(),
    {
        self.keys.len()
    }

    /// The member at an index.
    pub fn at(&self, index: usize) -> (r: &K)
        requires
            index < self.deep_view().len(),
        ensures
            r.deep_view() == self.deep_view()[index as int],
    {
        &self.keys[index]
    }

    /// Whether the set holds a member that compares equal.
    pub fn contains(&self, key: &K) -> (r: bool)
        requires
            self.wf(),
        ensures
            r == (index_of::<K>(self.deep_view(), key.deep_view()) is Some),
    {
        find(&self.keys, key).0
    }

    /// Adds a member, unless one that compares equal is there.
    pub fn insert(&mut self, key: K)
        requires
            old(self).wf(),
        ensures
            final(self).wf(),
            final(self).deep_view() == with_key::<K>(old(self).deep_view(), key.deep_view()),
    {
        let (found, i) = find(&self.keys, &key);
        let ghost before = self.deep_view();
        let ghost k = key.deep_view();
        if !found {
            self.keys.insert(i, key);
        }
        proof {
            assert(self.deep_view() =~= with_key::<K>(before, k));
        }
    }
}

} // verus!
