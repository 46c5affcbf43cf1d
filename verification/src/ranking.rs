use crate::account::Market;
use crate::fixed_point::Fixed;
use crate::selection::{
    first_max, first_min, last_max, lemma_first_max, lemma_first_min, lemma_last_max,
    lemma_prefix_step,
};
use vstd::prelude::*;

verus! {

/// The values as integers, by index.
pub open spec fn value_keys(values: Seq<Fixed>) -> Seq<int> {
    Seq::new(values.len(), |i: int| values[i].bits as int)
}

/// The absolute values as integers, by index.
pub open spec fn magnitude_keys(values: Seq<Fixed>) -> Seq<int> {
    Seq::new(values.len(), |i: int| values[i].magnitude())
}

/// The absolute value of a signed size.
pub open spec fn size_magnitude(size: i64) -> int {
    if size >= 0 {
        size as int
    } else {
        -(size as int)
    }
}

/// The absolute aggregate sizes of the resting orders, by market index.
pub open spec fn order_keys(markets: Seq<Market>) -> Seq<int> {
    Seq::new(markets.len(), |i: int| size_magnitude(markets[i].order_size))
}

/// The worst collateral: the least value, at the lowest index that holds it.
pub open spec fn worst_of(values: Seq<Fixed>) -> Option<(usize, Fixed)> {
    if values.len() == 0 {
        None
    } else {
        let i = first_min(value_keys(values));
        Some((i as usize, values[i]))
    }
}

/// The best quote candidate: the greatest value, at the highest index that
/// holds it; where that value is exactly zero, index 0 with value zero.
pub open spec fn best_quote_of(values: Seq<Fixed>) -> Option<(usize, Fixed)> {
    if values.len() == 0 {
        None
    } else {
        let i = last_max(value_keys(values));
        if values[i].bits == 0 {
            Some((0usize, Fixed { bits: 0 }))
        } else {
            Some((i as usize, values[i]))
        }
    }
}

/// The largest position: the value of greatest absolute value, at the
/// highest index that holds it; none where every value is zero.
pub open spec fn largest_position_of(values: Seq<Fixed>) -> Option<(usize, Fixed)> {
    if values.len() == 0 {
        None
    } else {
        let i = last_max(magnitude_keys(values));
        if values[i].bits == 0 {
            None
        } else {
            Some((i as usize, values[i]))
        }
    }
}

/// The market whose resting orders have the greatest absolute aggregate
/// size, at the lowest index that holds it; none where no order rests.
pub open spec fn largest_order_of(markets: Seq<Market>) -> Option<usize> {
    if markets.len() == 0 {
        None
    } else {
        let i = first_max(order_keys(markets));
        if markets[i].order_size == 0 {
            None
        } else {
            Some(i as usize)
        }
    }
}

/// Whether every value is below the dust threshold.
pub open spec fn spot_bankrupt(values: Seq<Fixed>, dust: Fixed) -> bool {
    forall|i: int| 0 <= i < values.len() ==> (#[trigger] values[i]).bits < dust.bits
}

/// The worst collateral holds the least value, and every entry before it is
/// strictly greater: the lowest index wins a tie.
pub proof fn lemma_worst_is_first_least(values: Seq<Fixed>)
    requires
        0 < values.len() <= usize::MAX,
    ensures
        worst_of(values).is_some(),
        0 <= worst_of(values).unwrap().0 < values.len(),
        worst_of(values).unwrap().1 == values[worst_of(values).unwrap().0 as int],
        forall|j: int|
            0 <= j < values.len() ==> worst_of(values).unwrap().1.bits <= (#[trigger] values[j]).bits,
        forall|j: int|
            0 <= j < worst_of(values).unwrap().0 ==> (#[trigger] values[j]).bits > worst_of(
                values,
            ).unwrap().1.bits,
{
    let keys = value_keys(values);
    lemma_first_min(keys);
    assert forall|j: int| 0 <= j < values.len() implies worst_of(values).unwrap().1.bits <= (
    #[trigger] values[j]).bits by {
        assert(keys[j] == values[j].bits);
    }
    assert forall|j: int| 0 <= j < worst_of(values).unwrap().0 implies (#[trigger] values[j]).bits
        > worst_of(values).unwrap().1.bits by {
        assert(keys[j] == values[j].bits);
    }
}

/// The largest position has the greatest absolute value and is not zero;
/// there is none exactly where every value is zero.
pub proof fn lemma_largest_position(values: Seq<Fixed>)
    requires
        values.len() <= usize::MAX,
    ensures
        largest_position_of(values).is_none() <==> (forall|j: int|
            0 <= j < values.len() ==> (#[trigger] values[j]).bits == 0),
        largest_position_of(values).is_some() ==> {
            let (i, v) = largest_position_of(values).unwrap();
            &&& 0 <= i < values.len()
            &&& v == values[i as int]
            &&& v.bits != 0
            &&& forall|j: int|
                0 <= j < values.len() ==> (#[trigger] values[j]).magnitude() <= v.magnitude()
        },
{
    if values.len() > 0 {
        let keys = magnitude_keys(values);
        lemma_last_max(keys);
        let i = last_max(keys);
        assert forall|j: int| 0 <= j < values.len() implies (#[trigger] values[j]).magnitude()
            <= values[i].magnitude() by {
            assert(keys[j] == values[j].magnitude());
        }
        if values[i].bits == 0 {
            assert forall|j: int| 0 <= j < values.len() implies (#[trigger] values[j]).bits
                == 0 by {
                assert(values[j].magnitude() <= values[i].magnitude());
            }
        }
    }
}

/// The best quote candidate holds the greatest value, unless that value is
/// zero, where the candidate is index 0 with value zero.
pub proof fn lemma_best_quote(values: Seq<Fixed>)
    requires
        0 < values.len() <= usize::MAX,
    ensures
        best_quote_of(values).is_some(),
        0 <= best_quote_of(values).unwrap().0 < values.len(),
        forall|j: int|
            0 <= j < values.len() ==> (#[trigger] values[j]).bits <= best_quote_of(
                values,
            ).unwrap().1.bits,
        best_quote_of(values).unwrap().1.bits == 0 ==> best_quote_of(values).unwrap().0 == 0,
        best_quote_of(values).unwrap().1.bits != 0 ==> best_quote_of(values).unwrap().1
            == values[best_quote_of(values).unwrap().0 as int],
{
    let keys = value_keys(values);
    lemma_last_max(keys);
    assert forall|j: int| 0 <= j < values.len() implies (#[trigger] values[j]).bits
        <= best_quote_of(values).unwrap().1.bits by {
        assert(keys[j] == values[j].bits);
    }
}

/// The largest resting order has the greatest absolute aggregate size, is
/// not zero, and every market before it has a strictly smaller one; there is
/// none exactly where no order rests.
pub proof fn lemma_largest_order(markets: Seq<Market>)
    requires
        markets.len() <= usize::MAX,
    ensures
        largest_order_of(markets).is_none() <==> (forall|j: int|
            0 <= j < markets.len() ==> (#[trigger] markets[j]).order_size == 0),
        largest_order_of(markets).is_some() ==> {
            let i = largest_order_of(markets).unwrap();
            &&& 0 <= i < markets.len()
            &&& markets[i as int].order_size != 0
            &&& forall|j: int|
                0 <= j < markets.len() ==> size_magnitude((#[trigger] markets[j]).order_size)
                    <= size_magnitude(markets[i as int].order_size)
            &&& forall|j: int|
                0 <= j < i ==> size_magnitude((#[trigger] markets[j]).order_size) < size_magnitude(
                    markets[i as int].order_size,
                )
        },
{
    if markets.len() > 0 {
        let keys = order_keys(markets);
        lemma_first_max(keys);
        let i = first_max(keys);
        assert forall|j: int| 0 <= j < markets.len() implies size_magnitude(
            (#[trigger] markets[j]).order_size,
        ) <= size_magnitude(markets[i].order_size) by {
            assert(keys[j] == size_magnitude(markets[j].order_size));
        }
        assert forall|j: int| 0 <= j < i implies size_magnitude((#[trigger] markets[j]).order_size)
            < size_magnitude(markets[i].order_size) by {
            assert(keys[j] == size_magnitude(markets[j].order_size));
        }
        if markets[i].order_size == 0 {
            assert forall|j: int| 0 <= j < markets.len() implies (#[trigger] markets[j]).order_size
                == 0 by {
                assert(size_magnitude(markets[j].order_size) <= 0);
            }
        }
    }
}

/// Finds the worst collateral of a value vector.
pub fn worst_collateral(values: &Vec<Fixed>) -> (r: Option<(usize, Fixed)>)
    ensures
        r == worst_of(values@),
{
    if values.len() == 0 {
        return None;
    }
    let ghost keys = value_keys(values@);
    let mut best: usize = 0;
    let mut i: usize = 1;
    while i < values.len()
        invariant
            1 <= i <= values.len(),
            keys == value_keys(values@),
            0 <= best < i,
            best == first_min(keys.take(i as int)),
        decreases values.len() - i,
    {
        proof {
            lemma_prefix_step(keys, i as int);
            assert(keys.take(i as int)[best as int] == keys[best as int]);
        }
        if values[i].bits < values[best].bits {
            best = i;
        }
        i = i + 1;
    }
    proof {
        assert(keys.take(i as int) =~= keys);
    }
    Some((best, values[best]))
}

/// Finds the best quote candidate of a value vector.
pub fn best_quote(values: &Vec<Fixed>) -> (r: Option<(usize, Fixed)>)
    ensures
        r == best_quote_of(values@),
{
    if values.len() == 0 {
        return None;
    }
    let ghost keys = value_keys(values@);
    let mut best: usize = 0;
    let mut i: usize = 1;
    while i < values.len()
        invariant
            1 <= i <= values.len(),
            keys == value_keys(values@),
            0 <= best < i,
            best == last_max(keys.take(i as int)),
        decreases values.len() - i,
    {
        proof {
            lemma_prefix_step(keys, i as int);
            assert(keys.take(i as int)[best as int] == keys[best as int]);
        }
        if values[i].bits >= values[best].bits {
            best = i;
        }
        i = i + 1;
    }
    proof {
        assert(keys.take(i as int) =~= keys);
    }
    if values[best].is_zero() {
        Some((0, Fixed::zero()))
    } else {
        Some((best, values[best]))
    }
}

/// Finds the largest position of a value vector.
pub fn largest_position(values: &Vec<Fixed>) -> (r: Option<(usize, Fixed)>)
    ensures
        r == largest_position_of(values@),
{
    if values.len() == 0 {
        return None;
    }
    let ghost keys = magnitude_keys(values@);
    let mut best: usize = 0;
    let mut i: usize = 1;
    while i < values.len()
        invariant
            1 <= i <= values.len(),
            keys == magnitude_keys(values@),
            0 <= best < i,
            best == last_max(keys.take(i as int)),
        decreases values.len() - i,
    {
        proof {
            lemma_prefix_step(keys, i as int);
            assert(keys.take(i as int)[best as int] == keys[best as int]);
        }
        if values[i].abs_bits() >= values[best].abs_bits() {
            best = i;
        }
        i = i + 1;
    }
    proof {
        assert(keys.take(i as int) =~= keys);
    }
    if values[best].is_zero() {
        None
    } else {
        Some((best, values[best]))
    }
}

/// The absolute value of a signed size, without the exception of a signed
/// absolute value at the most negative number.
pub fn abs_size(size: i64) -> (r: u64)
    ensures
        r == size_magnitude(size),
{
    if size >= 0 {
        size as u64
    } else {
        let above: i64 = size + 1;
        let below: u64 = (-above) as u64;
        below + 1
    }
}

/// Finds the market with the largest resting orders.
pub fn largest_open_order(markets: &Vec<Market>) -> (r: Option<usize>)
    ensures
        r == largest_order_of(markets@),
{
    if markets.len() == 0 {
        return None;
    }
    let ghost keys = order_keys(markets@);
    let mut best: usize = 0;
    let mut i: usize = 1;
    while i < markets.len()
        invariant
            1 <= i <= markets.len(),
            keys == order_keys(markets@),
            0 <= best < i,
            best == first_max(keys.take(i as int)),
        decreases markets.len() - i,
    {
        proof {
            lemma_prefix_step(keys, i as int);
            assert(keys.take(i as int)[best as int] == keys[best as int]);
        }
        if abs_size(markets[i].order_size) > abs_size(markets[best].order_size) {
            best = i;
        }
        i = i + 1;
    }
    proof {
        assert(keys.take(i as int) =~= keys);
    }
    if markets[best].order_size == 0 {
        None
    } else {
        Some(best)
    }
}

/// Tells whether every value is below the dust threshold.
pub fn is_spot_bankrupt(values: &Vec<Fixed>, dust: Fixed) -> (r: bool)
    ensures
        r == spot_bankrupt(values@, dust),
{
    let mut i: usize = 0;
    while i < values.len()
        invariant
            i <= values.len(),
            forall|j: int| 0 <= j < i ==> (#[trigger] values@[j]).bits < dust.bits,
        decreases values.len() - i,
    {
        if values[i].bits >= dust.bits {
            return false;
        }
        i = i + 1;
    }
    true
}

} // verus!
