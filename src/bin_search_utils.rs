use vstd::prelude::*;
use crate::items::{has_floor, is_floor_index, sorted_by_price, Item};

verus! {

/// A slightly modified binary search which goes through a slice of items sorted by
/// price and returns the item with the price _as close to_ but not greater than
/// `value`, or `None` when every item costs more than `value`. When the middle
/// item costs exactly `value`, that item is the one returned.
pub fn binary_search_leq(values: &[Item], value: u64) -> (r: Option<&Item>)
    requires
        sorted_by_price(values@),
    ensures
        r is None <==> !has_floor(values@, value as int),
        r matches Some(item) ==> exists|k: int|
            is_floor_index(values@, value as int, k) && *item == #[trigger] values@[k],
        values@.len() > 0 && values@[(values@.len() / 2) as int].price == value ==> r == Some(
            &values@[(values@.len() / 2) as int],
        ),
{
    match binary_search_leq_helper(values, value, 0) {
        Some(index) => Some(&values[index]),
        None => None,
    }
}

/// Finds the index of the item with the highest price less than or equal to `value`.
///
/// When the middle item costs exactly `value`, the search stops there at once;
/// which of several items of that price comes back is otherwise left open.
///
/// `low_index` is the position of `values[0]` in the slice that the search began on;
/// the index returned is counted from there too.
pub fn binary_search_leq_helper(values: &[Item], value: u64, low_index: usize) -> (r: Option<usize>)
    requires
        sorted_by_price(values@),
        low_index + values.len() <= usize::MAX,
    ensures
        r is None <==> !has_floor(values@, value as int),
        r matches Some(k) ==> low_index <= k && is_floor_index(
            values@,
            value as int,
            k - low_index,
        ),
        values@.len() > 0 && values@[(values@.len() / 2) as int].price == value ==> r == Some(
            (low_index + values@.len() / 2) as usize,
        ),
    decreases values@.len(),
{
    if values.len() == 0 {
        return None;
    }

    // The item in the middle of `values`, and its position counted from `low_index`.
    let split_index = values.len() / 2;
    let target_price = values[split_index].price;
    let target_index = low_index + split_index;

    if target_price == value {
        return Some(target_index);
    }
    if target_price < value && values.len() == 1 {
        return Some(target_index);
    }
    if target_price < value {
        // An acceptable item in the upper half is closer to `value`; failing that,
        // the middle item is the best one.
        let (_, upper) = values.split_at(split_index + 1);
        match binary_search_leq_helper(upper, value, target_index + 1) {
            Some(higher_index) => {
                proof {
                    let k = higher_index - target_index - 1;
                    assert(values@[split_index as int + 1 + k] == upper@[k]);
                    assert forall|j: int|
                        0 <= j < values@.len() && #[trigger] values@[j].price <= value implies values@[j].price
                        <= values@[higher_index - low_index].price by {
                        if j > split_index {
                            assert(values@[j] == upper@[j - split_index - 1]);
                        }
                    }
                }
                Some(higher_index)
            },
            None => {
                proof {
                    assert forall|j: int|
                        0 <= j < values@.len() && #[trigger] values@[j].price <= value implies values@[j].price
                        <= values@[split_index as int].price by {
                        if j > split_index {
                            assert(values@[j] == upper@[j - split_index - 1]);
                        }
                    }
                }
                Some(target_index)
            },
        }
    } else {
        // The middle item costs too much, and so does everything after it.
        let (lower, _) = values.split_at(split_index);
        let r = binary_search_leq_helper(lower, value, low_index);
        proof {
            assert forall|j: int|
                0 <= j < values@.len() && #[trigger] values@[j].price <= value implies j < split_index
                && values@[j] == lower@[j] by {
                if j >= split_index {
                    assert(values@[split_index as int].price <= values@[j].price);
                }
            }
            if r is None {
                assert(!has_floor(values@, value as int));
            }
        }
        r
    }
}

} // verus!
