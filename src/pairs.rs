use vstd::prelude::*;
use rayon::iter::{IntoParallelIterator, ParallelIterator};
use crate::bin_search_utils::binary_search_leq_helper;
use crate::items::{has_floor, is_floor_index, sorted_by_price, Item};

verus! {

/// The combined price of the items at positions `i` and `j`.
pub open spec fn pair_sum(s: Seq<Item>, i: int, j: int) -> int {
    s[i].price + s[j].price
}

/// Two distinct positions of `s` whose items together cost at most `budget`.
pub open spec fn fits(s: Seq<Item>, budget: int, i: int, j: int) -> bool {
    &&& 0 <= i < s.len()
    &&& 0 <= j < s.len()
    &&& i != j
    &&& pair_sum(s, i, j) <= budget
}

/// Some two distinct positions of `s` together cost at most `budget`.
pub open spec fn has_fitting_pair(s: Seq<Item>, budget: int) -> bool {
    exists|i: int, j: int| fits(s, budget, i, j)
}

/// A pair that fits the budget, with the partner `j` strictly before `i`: the
/// form in which the search meets each pair of distinct positions once.
pub open spec fn ordered_pair(s: Seq<Item>, budget: int, i: int, j: int) -> bool {
    &&& 0 <= j < i < s.len()
    &&& pair_sum(s, i, j) <= budget
}

/// The item at `i` has some partner before it that fits the budget with it.
pub open spec fn has_partner(s: Seq<Item>, budget: int, i: int) -> bool {
    exists|j: int| ordered_pair(s, budget, i, j)
}

/// What the search finds for the item at `i`: `None` when it has no partner,
/// else a partner of the greatest price among those that it may have.
pub open spec fn partner_spec(s: Seq<Item>, budget: int, i: int, r: Option<usize>) -> bool {
    &&& r is None <==> !has_partner(s, budget, i)
    &&& r matches Some(j) ==> {
        &&& ordered_pair(s, budget, i, j as int)
        &&& forall|y: int| #[trigger]
            ordered_pair(s, budget, i, y) ==> s[y].price <= s[j as int].price
    }
}

/// `(i, j)`, `j < i`, fits the budget, and no two distinct positions that fit
/// it cost more.
pub open spec fn is_best_pair(s: Seq<Item>, budget: int, i: int, j: int) -> bool {
    &&& ordered_pair(s, budget, i, j)
    &&& forall|x: int, y: int| #[trigger]
        fits(s, budget, x, y) ==> pair_sum(s, x, y) <= pair_sum(s, i, j)
}

/// A candidate is either nothing or an ordered pair that fits the budget.
pub open spec fn candidate_ok(s: Seq<Item>, budget: int, c: Option<(usize, usize)>) -> bool {
    c matches Some((i, j)) ==> ordered_pair(s, budget, i as int, j as int)
}

/// Two distinct positions that fit the budget, taken later one first, are an
/// ordered pair with the same combined price.
pub proof fn lemma_fitting_pair_ordered(s: Seq<Item>, budget: int, x: int, y: int)
    requires
        fits(s, budget, x, y),
    ensures
        x > y ==> ordered_pair(s, budget, x, y),
        y > x ==> ordered_pair(s, budget, y, x) && pair_sum(s, y, x) == pair_sum(s, x, y),
{
}

/// Any two results that meet the search's contract on the same input cost the
/// same: which tied pair comes back may vary, its sum may not.
pub proof fn lemma_best_sum_unique(
    s: Seq<Item>,
    budget: int,
    i1: int,
    j1: int,
    i2: int,
    j2: int,
)
    requires
        is_best_pair(s, budget, i1, j1),
        is_best_pair(s, budget, i2, j2),
    ensures
        pair_sum(s, i1, j1) == pair_sum(s, i2, j2),
{
    assert(fits(s, budget, i1, j1));
    assert(fits(s, budget, i2, j2));
}

/// For the item at `index`, finds the partner of greatest price among the items
/// before it such that the two cost at most `budget`. An item that alone costs
/// more than `budget` gets no partner.
pub fn best_partner(items: &[Item], index: usize, budget: u64) -> (r: Option<usize>)
    requires
        sorted_by_price(items@),
        index < items@.len(),
    ensures
        partner_spec(items@, budget as int, index as int, r),
{
    let price = items[index].price;
    if price > budget {
        return None;
    }
    let (before, _) = items.split_at(index);
    let complement = budget - price;
    let r = binary_search_leq_helper(before, complement, 0);
    proof {
        let s = items@;
        assert forall|j: int| #[trigger]
            ordered_pair(s, budget as int, index as int, j) <==> 0 <= j < before@.len()
            && before@[j].price <= complement by {
            if 0 <= j < before@.len() {
                assert(before@[j] == s[j]);
            }
        }
        if r is None {
            assert(!has_partner(s, budget as int, index as int)) by {
                if has_partner(s, budget as int, index as int) {
                    let j = choose|j: int| ordered_pair(s, budget as int, index as int, j);
                    assert(has_floor(before@, complement as int));
                }
            }
        }
        if let Some(k) = r {
            assert(is_floor_index(before@, complement as int, k as int));
            assert(before@[k as int] == s[k as int]);
            assert(ordered_pair(s, budget as int, index as int, k as int));
        }
    }
    r
}

/// Combines two candidates: the one with the strictly greater combined price
/// wins, an absent candidate loses to any present one, and on equal sums the
/// second one is kept.
pub fn better_candidate(
    items: &[Item],
    budget: u64,
    x: Option<(usize, usize)>,
    y: Option<(usize, usize)>,
) -> (r: Option<(usize, usize)>)
    requires
        candidate_ok(items@, budget as int, x),
        candidate_ok(items@, budget as int, y),
    ensures
        r == match (x, y) {
            (None, _) => y,
            (_, None) => x,
            (Some((i1, j1)), Some((i2, j2))) => if pair_sum(items@, i1 as int, j1 as int)
                > pair_sum(items@, i2 as int, j2 as int) {
                x
            } else {
                y
            },
        },
{
    match (x, y) {
        (None, None) => None,
        (x, None) => x,
        (None, y) => y,
        (Some((i1, j1)), Some((i2, j2))) => {
            let price1 = items[i1].price + items[j1].price;
            let price2 = items[i2].price + items[j2].price;
            if price1 > price2 {
                x
            } else {
                y
            }
        },
    }
}

/// Relies on rayon's parallel iterator over the index range `0..items.len()`:
/// `map` applies the closure to every index once, and `collect` into a `Vec`
/// keeps the results in index order.
#[verifier::external_body]
fn par_best_partners(items: &[Item], budget: u64) -> (r: Vec<Option<usize>>)
    requires
        sorted_by_price(items@),
    ensures
        r@.len() == items@.len(),
        forall|i: int|
            0 <= i < r@.len() ==> partner_spec(items@, budget as int, i, #[trigger] r@[i]),
{
    (0..items.len()).into_par_iter().map(|i| best_partner(items, i, budget)).collect()
}

/// Finds the positions `(i, j)`, `j < i`, of the pair of items whose combined
/// price is the largest one not above `budget`, or `None` when no two distinct
/// items fit it. Every index is looked at in parallel, as the first of a pair
/// whose partner comes before it; the per-index results are then reduced to the
/// best one.
pub fn best_pair_indices(items: &[Item], budget: u64) -> (r: Option<(usize, usize)>)
    requires
        sorted_by_price(items@),
    ensures
        r is None <==> !has_fitting_pair(items@, budget as int),
        r matches Some((i, j)) ==> is_best_pair(items@, budget as int, i as int, j as int),
{
    let partners = par_best_partners(items, budget);
    let ghost s = items@;
    let ghost b = budget as int;
    let mut best: Option<(usize, usize)> = None;
    let mut i: usize = 0;
    while i < partners.len()
        invariant
            s == items@,
            b == budget as int,
            i <= partners@.len() == s.len(),
            forall|k: int|
                0 <= k < partners@.len() ==> partner_spec(s, b, k, #[trigger] partners@[k]),
            best is None <==> forall|x: int, y: int|
                x < i ==> !#[trigger] ordered_pair(s, b, x, y),
            best matches Some((bi, bj)) ==> {
                &&& bi < i
                &&& ordered_pair(s, b, bi as int, bj as int)
                &&& forall|x: int, y: int| #[trigger]
                    ordered_pair(s, b, x, y) && x < i ==> pair_sum(s, x, y) <= pair_sum(
                        s,
                        bi as int,
                        bj as int,
                    )
            },
        decreases partners@.len() - i,
    {
        let candidate = match partners[i] {
            Some(j) => Some((i, j)),
            None => None,
        };
        proof {
            assert(partner_spec(s, b, i as int, partners@[i as int]));
        }
        let next = better_candidate(items, budget, best, candidate);
        proof {
            assert forall|x: int, y: int| #[trigger] ordered_pair(s, b, x, y) && x == i implies (
            candidate matches Some((ci, cj)) && pair_sum(s, x, y) <= pair_sum(
                s,
                ci as int,
                cj as int,
            )) by {
                assert(has_partner(s, b, x));
            }
        }
        best = next;
        i = i + 1;
    }
    proof {
        assert forall|x: int, y: int| #[trigger] fits(s, b, x, y) implies (best matches Some(
            (bi, bj),
        ) && pair_sum(s, x, y) <= pair_sum(s, bi as int, bj as int)) by {
            lemma_fitting_pair_ordered(s, b, x, y);
            if y > x {
                assert(ordered_pair(s, b, y, x));
            } else {
                assert(ordered_pair(s, b, x, y));
            }
        }
        if let Some((bi, bj)) = best {
            assert(fits(s, b, bi as int, bj as int));
        }
    }
    best
}

/// Returns the pair of items whose combined price is the largest one not above
/// `desired_price`, the later item of the list first; `None` when no two items
/// at distinct positions together cost at most `desired_price`.
pub fn get_closest_items_parallel<'a>(
    items: &'a Vec<Item>,
    desired_price: u64,
) -> (r: Option<(&'a Item, &'a Item)>)
    requires
        sorted_by_price(items@),
    ensures
        r is None <==> !has_fitting_pair(items@, desired_price as int),
        r matches Some((a, b)) ==> exists|i: int, j: int|
            is_best_pair(items@, desired_price as int, i, j) && *a == #[trigger] items@[i]
                && *b == #[trigger] items@[j],
        r matches Some((a, b)) ==> a.price + b.price <= desired_price,
{
    match best_pair_indices(items.as_slice(), desired_price) {
        Some((i, j)) => Some((&items[i], &items[j])),
        None => None,
    }
}

} // verus!
