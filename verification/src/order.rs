//! Putting rows into the order in which they are worked on.
use vstd::prelude::*;

verus! {

/// What a row is ordered by: first by `major`, then by `minor`, then by its id.
#[derive(Clone, Copy, Debug, PartialEq, Eq, Structural)]
pub struct SortKey {
    pub major: i128,
    pub minor: i128,
    pub id: i64,
}

/// Whether `a` comes before `b` or equals it.
pub open spec fn key_le(a: SortKey, b: SortKey) -> bool {
    a.major < b.major || (a.major == b.major && (a.minor < b.minor || (a.minor == b.minor && a.id
        <= b.id)))
}

/// Whether the keys stand in order.
pub open spec fn in_order(keys: Seq<SortKey>) -> bool {
    forall|i: int, j: int|
        0 <= i < j < keys.len() ==> key_le(#[trigger] keys[i], #[trigger] keys[j])
}

/// `key` put into the ordered `keys`, behind its equals.
pub open spec fn placed(keys: Seq<SortKey>, key: SortKey) -> Seq<SortKey>
    decreases keys.len(),
{
    if keys.len() == 0 || key_le(keys.last(), key) {
        keys.push(key)
    } else {
        placed(keys.drop_last(), key).push(keys.last())
    }
}

/// The keys in order.
pub open spec fn sorted_keys(keys: Seq<SortKey>) -> Seq<SortKey>
    decreases keys.len(),
{
    if keys.len() == 0 {
        keys
    } else {
        placed(sorted_keys(keys.drop_last()), keys.last())
    }
}

/// The ids of the keys.
pub open spec fn key_ids(keys: Seq<SortKey>) -> Seq<i64> {
    keys.map_values(|key: SortKey| key.id)
}

/// The first `count` of the keys.
pub open spec fn first_keys(keys: Seq<SortKey>, count: int) -> Seq<SortKey> {
    if keys.len() <= count {
        keys
    } else {
        keys.take(count)
    }
}

proof fn lemma_placed(keys: Seq<SortKey>, key: SortKey)
    requires
        in_order(keys),
    ensures
        in_order(placed(keys, key)),
        placed(keys, key).len() == keys.len() + 1,
        placed(keys, key).to_multiset() == keys.to_multiset().insert(key),
        forall|i: int|
            0 <= i < keys.len() + 1 ==> #[trigger] placed(keys, key)[i] == key || keys.contains(
                placed(keys, key)[i],
            ),
    decreases keys.len(),
{
    broadcast use vstd::seq_lib::group_to_multiset_ensures;

    if keys.len() == 0 || key_le(keys.last(), key) {
        vstd::seq_lib::to_multiset_build(keys, key);
        assert forall|i: int, j: int|
            0 <= i < j < keys.push(key).len() implies key_le(
            #[trigger] keys.push(key)[i],
            #[trigger] keys.push(key)[j],
        ) by {
            if j == keys.len() {
                if i < keys.len() - 1 {
                    assert(key_le(keys[i], keys[keys.len() - 1]));
                }
            }
        }
        assert forall|i: int| 0 <= i < keys.len() + 1 implies #[trigger] placed(keys, key)[i] == key
            || keys.contains(placed(keys, key)[i]) by {
            if i < keys.len() {
                assert(keys[i] == placed(keys, key)[i]);
            }
        }
    } else {
        let rest = keys.drop_last();
        lemma_placed(rest, key);
        let inner = placed(rest, key);
        let last = keys.last();
        vstd::seq_lib::to_multiset_build(inner, last);
        vstd::seq_lib::to_multiset_build(rest, last);
        assert(rest.push(last) =~= keys);
        assert(inner.push(last).to_multiset() =~= keys.to_multiset().insert(key));
        assert forall|i: int, j: int|
            0 <= i < j < inner.push(last).len() implies key_le(
            #[trigger] inner.push(last)[i],
            #[trigger] inner.push(last)[j],
        ) by {
            if j == inner.len() {
                assert(inner[i] == key || rest.contains(inner[i]));
                if inner[i] != key {
                    let k = choose|k: int| 0 <= k < rest.len() && rest[k] == inner[i];
                    assert(key_le(keys[k], keys[keys.len() - 1]));
                }
            }
        }
        assert forall|i: int| 0 <= i < keys.len() + 1 implies #[trigger] placed(keys, key)[i] == key
            || keys.contains(placed(keys, key)[i]) by {
            if i < inner.len() {
                assert(inner[i] == key || rest.contains(inner[i]));
                if inner[i] != key {
                    let k = choose|k: int| 0 <= k < rest.len() && rest[k] == inner[i];
                    assert(keys[k] == inner[i]);
                }
            } else {
                assert(keys[keys.len() - 1] == last);
            }
        }
    }
}

/// Ordering puts the keys in order, and loses and adds none.
pub proof fn law_ordering_only_reorders(keys: Seq<SortKey>)
    ensures
        in_order(sorted_keys(keys)),
        sorted_keys(keys).to_multiset() == keys.to_multiset(),
        sorted_keys(keys).len() == keys.len(),
    decreases keys.len(),
{
    broadcast use vstd::seq_lib::group_to_multiset_ensures;

    if keys.len() > 0 {
        let rest = keys.drop_last();
        law_ordering_only_reorders(rest);
        lemma_placed(sorted_keys(rest), keys.last());
        vstd::seq_lib::to_multiset_build(rest, keys.last());
        assert(rest.push(keys.last()) =~= keys);
    }
}

/// Of two keys in the ordered list the first has the smaller `major`; where these are equal, the
/// smaller `minor`; and where these are too, no larger id.
pub proof fn law_smaller_keys_come_first(keys: Seq<SortKey>, i: int, j: int)
    requires
        0 <= i < j < sorted_keys(keys).len(),
    ensures
        ({
            let a = sorted_keys(keys)[i];
            let b = sorted_keys(keys)[j];
            &&& a.major <= b.major
            &&& a.major == b.major ==> a.minor <= b.minor
            &&& a.major == b.major && a.minor == b.minor ==> a.id <= b.id
        }),
{
    law_ordering_only_reorders(keys);
}

/// A key is in the ordered list exactly where it was given.
pub proof fn law_no_key_is_lost(keys: Seq<SortKey>, key: SortKey)
    ensures
        sorted_keys(keys).contains(key) <==> keys.contains(key),
{
    broadcast use vstd::seq_lib::group_to_multiset_ensures;

    law_ordering_only_reorders(keys);
    assert(sorted_keys(keys).to_multiset().count(key) == keys.to_multiset().count(key));
}

fn at_or_before(a: SortKey, b: SortKey) -> (yes: bool)
    ensures
        yes == key_le(a, b),
{
    a.major < b.major || (a.major == b.major && (a.minor < b.minor || (a.minor == b.minor && a.id
        <= b.id)))
}

/// The keys in order.
pub fn sort_keys(keys: &Vec<SortKey>) -> (sorted: Vec<SortKey>)
    ensures
        sorted@ == sorted_keys(keys@),
{
    let mut sorted: Vec<SortKey> = Vec::new();
    let mut i: usize = 0;
    assert(sorted@ =~= keys@.take(0));
    while i < keys.len()
        invariant
            i <= keys.len(),
            sorted@ == sorted_keys(keys@.take(i as int)),
        decreases keys.len() - i,
    {
        let key: SortKey = keys[i];
        let ghost before = sorted@;
        let mut at: usize = sorted.len();
        assert(before.take(at as int) =~= before);
        assert(before.skip(at as int) =~= Seq::<SortKey>::empty());
        while at > 0 && !at_or_before(sorted[at - 1], key)
            invariant
                at <= sorted.len(),
                sorted@ == before,
                placed(before, key) =~= placed(before.take(at as int), key) + before.skip(
                    at as int,
                ),
            decreases at,
        {
            assert(before.take(at as int).drop_last() =~= before.take(at - 1));
            assert(before.skip(at - 1) =~= seq![before[at - 1]] + before.skip(at as int));
            at = at - 1;
        }
        sorted.insert(at, key);
        proof {
            assert(placed(before.take(at as int), key) =~= before.take(at as int).push(key));
            assert(sorted@ =~= before.take(at as int).push(key) + before.skip(at as int));
            assert(keys@.take(i + 1).drop_last() =~= keys@.take(i as int));
        }
        i = i + 1;
    }
    assert(keys@.take(keys@.len() as int) =~= keys@);
    sorted
}

/// The ids of the keys in order, of which at most `limit` are given.
pub fn ordered_ids(keys: &Vec<SortKey>, limit: usize) -> (ids: Vec<i64>)
    ensures
        ids@ == key_ids(first_keys(sorted_keys(keys@), limit as int)),
{
    let sorted: Vec<SortKey> = sort_keys(keys);
    let count: usize = if sorted.len() <= limit {
        sorted.len()
    } else {
        limit
    };
    let mut ids: Vec<i64> = Vec::new();
    let mut i: usize = 0;
    while i < count
        invariant
            i <= count <= sorted.len(),
            ids@ =~= key_ids(sorted@.take(i as int)),
        decreases count - i,
    {
        ids.push(sorted[i].id);
        i = i + 1;
    }
    assert(sorted@.take(count as int) =~= first_keys(sorted_keys(keys@), limit as int));
    ids
}

} // verus!
