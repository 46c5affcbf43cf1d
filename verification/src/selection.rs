use vstd::prelude::*;

verus! {

/// The lowest index that holds the least key (0 for an empty sequence).
pub open spec fn first_min(keys: Seq<int>) -> int
    decreases keys.len(),
{
    if keys.len() <= 1 {
        0
    } else {
        let before = first_min(keys.drop_last());
        if keys.last() < keys[before] {
            keys.len() - 1
        } else {
            before
        }
    }
}

/// The highest index that holds the greatest key (0 for an empty sequence).
pub open spec fn last_max(keys: Seq<int>) -> int
    decreases keys.len(),
{
    if keys.len() <= 1 {
        0
    } else {
        let before = last_max(keys.drop_last());
        if keys.last() >= keys[before] {
            keys.len() - 1
        } else {
            before
        }
    }
}

/// The lowest index that holds the greatest key (0 for an empty sequence).
pub open spec fn first_max(keys: Seq<int>) -> int
    decreases keys.len(),
{
    if keys.len() <= 1 {
        0
    } else {
        let before = first_max(keys.drop_last());
        if keys.last() > keys[before] {
            keys.len() - 1
        } else {
            before
        }
    }
}

/// `first_min` is an index of the sequence, no key is below the key it
/// holds, and every key before it is strictly above.
pub proof fn lemma_first_min(keys: Seq<int>)
    requires
        keys.len() > 0,
    ensures
        0 <= first_min(keys) < keys.len(),
        forall|j: int| 0 <= j < keys.len() ==> keys[first_min(keys)] <= #[trigger] keys[j],
        forall|j: int| 0 <= j < first_min(keys) ==> #[trigger] keys[j] > keys[first_min(keys)],
    decreases keys.len(),
{
    if keys.len() > 1 {
        let front = keys.drop_last();
        lemma_first_min(front);
        assert forall|j: int| 0 <= j < keys.len() - 1 implies keys[j] == front[j] by {}
    }
}

/// `last_max` is an index of the sequence, no key is above the key it holds,
/// and every key after it is strictly below.
pub proof fn lemma_last_max(keys: Seq<int>)
    requires
        keys.len() > 0,
    ensures
        0 <= last_max(keys) < keys.len(),
        forall|j: int| 0 <= j < keys.len() ==> keys[last_max(keys)] >= #[trigger] keys[j],
        forall|j: int| last_max(keys) < j < keys.len() ==> #[trigger] keys[j] < keys[last_max(keys)],
    decreases keys.len(),
{
    if keys.len() > 1 {
        let front = keys.drop_last();
        lemma_last_max(front);
        assert forall|j: int| 0 <= j < keys.len() - 1 implies keys[j] == front[j] by {}
    }
}

/// `first_max` is an index of the sequence, no key is above the key it
/// holds, and every key before it is strictly below.
pub proof fn lemma_first_max(keys: Seq<int>)
    requires
        keys.len() > 0,
    ensures
        0 <= first_max(keys) < keys.len(),
        forall|j: int| 0 <= j < keys.len() ==> keys[first_max(keys)] >= #[trigger] keys[j],
        forall|j: int| 0 <= j < first_max(keys) ==> #[trigger] keys[j] < keys[first_max(keys)],
    decreases keys.len(),
{
    if keys.len() > 1 {
        let front = keys.drop_last();
        lemma_first_max(front);
        assert forall|j: int| 0 <= j < keys.len() - 1 implies keys[j] == front[j] by {}
    }
}

/// Taking one more key extends the prefix by exactly that key.
pub proof fn lemma_prefix_step(keys: Seq<int>, i: int)
    requires
        0 <= i < keys.len(),
    ensures
        keys.take(i + 1).len() == i + 1,
        keys.take(i + 1).drop_last() == keys.take(i),
        keys.take(i + 1).last() == keys[i],
        forall|j: int| 0 <= j <= i ==> #[trigger] keys.take(i + 1)[j] == keys[j],
{
    assert(keys.take(i + 1).drop_last() =~= keys.take(i));
}

} // verus!
