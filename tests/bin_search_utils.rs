use find_pair::binary_search_leq;
use find_pair::Item;

fn items_with_prices(prices: &[u64]) -> Vec<Item> {
    prices.iter().map(|&price| Item { title: "".to_string(), price }).collect()
}

#[test]
fn test_binary_search_leq_simple() {
    let items = vec![Item { title: "".to_string(), price: 1 }];

    let item = binary_search_leq(&items, 1).expect("This should be found");
    assert_eq!(item.price, 1);

    let item = binary_search_leq(&items, 0);
    assert_eq!(item, None);

    let item = binary_search_leq(&items, 3).expect("This should be found");
    assert_eq!(item.price, 1);
}

#[test]
fn test_binary_search_leq_exact_values() {
    let items = vec![
        Item { title: "".to_string(), price: 1 },
        Item { title: "".to_string(), price: 2 },
        Item { title: "".to_string(), price: 3 },
        Item { title: "".to_string(), price: 4 },
    ];

    let item = binary_search_leq(&items, 4).expect("This should be found");
    assert_eq!(item.price, 4);

    let item = binary_search_leq(&items, 3).expect("This should be found");
    assert_eq!(item.price, 3);

    let item = binary_search_leq(&items, 2).expect("This should be found");
    assert_eq!(item.price, 2);

    let item = binary_search_leq(&items, 1).expect("This should be found");
    assert_eq!(item.price, 1);
}

#[test]
fn test_binary_search_leq2_offset_values() {
    let items = vec![
        Item { title: "".to_string(), price: 1 },
        Item { title: "".to_string(), price: 3 },
        Item { title: "".to_string(), price: 5 },
        Item { title: "".to_string(), price: 7 },
    ];

    let item = binary_search_leq(&items, 2).expect("This should be found");
    assert_eq!(item.price, 1);

    let item = binary_search_leq(&items, 9).expect("This should be found");
    assert_eq!(item.price, 7);
}

#[test]
fn test_binary_search_leq_odd_values() {
    let items = vec![
        Item { title: "".to_string(), price: 1 },
        Item { title: "".to_string(), price: 3 },
        Item { title: "".to_string(), price: 5 },
        Item { title: "".to_string(), price: 7 },
        Item { title: "".to_string(), price: 10 },
    ];

    let item = binary_search_leq(&items, 2).expect("This should be found");
    assert_eq!(item.price, 1);

    let item = binary_search_leq(&items, 9).expect("This should be found");
    assert_eq!(item.price, 7);

    let item = binary_search_leq(&items, 0);
    assert_eq!(item, None);
}

#[test]
fn test_binary_search_leq_extensive() {
    let items = vec![
        Item { title: "".to_string(), price: 1 },
        Item { title: "".to_string(), price: 3 },
        Item { title: "".to_string(), price: 5 },
        Item { title: "".to_string(), price: 7 },
        Item { title: "".to_string(), price: 9 },
        Item { title: "".to_string(), price: 11 },
    ];

    let item = binary_search_leq(&items, 6).expect("This should be found");
    assert_eq!(item.price, 5);

    let item = binary_search_leq(&items, 5).expect("This should be found");
    assert_eq!(item.price, 5);

    let item = binary_search_leq(&items, 8).expect("This should be found");
    assert_eq!(item.price, 7);

    let item = binary_search_leq(&items, 7).expect("This should be found");
    assert_eq!(item.price, 7);

    let item = binary_search_leq(&items, 10).expect("This should be found");
    assert_eq!(item.price, 9);

    let item = binary_search_leq(&items, 12).expect("This should be found");
    assert_eq!(item.price, 11);

    let item = binary_search_leq(&items, 11).expect("This should be found");
    assert_eq!(item.price, 11);

    let item = binary_search_leq(&items, 0);
    assert_eq!(item, None);
}

#[test]
fn floor_of_empty_list_is_none() {
    let items: Vec<Item> = Vec::new();
    assert_eq!(binary_search_leq(&items, 0), None);
    assert_eq!(binary_search_leq(&items, u64::MAX), None);
}

#[test]
fn floor_with_duplicate_prices_has_that_price() {
    let items = items_with_prices(&[2, 4, 4, 4, 4, 9]);
    assert_eq!(binary_search_leq(&items, 4).unwrap().price, 4);
    assert_eq!(binary_search_leq(&items, 8).unwrap().price, 4);
    assert_eq!(binary_search_leq(&items, 3).unwrap().price, 2);
}

#[test]
fn floor_matches_linear_scan() {
    let items = items_with_prices(&[0, 2, 2, 5, 8, 8, 13, 21, 21, 40]);
    for x in 0..45u64 {
        let expected = items.iter().map(|i| i.price).filter(|&p| p <= x).max();
        assert_eq!(binary_search_leq(&items, x).map(|i| i.price), expected);
    }
}

#[test]
fn floor_at_largest_price() {
    let items = items_with_prices(&[0, u64::MAX]);
    assert_eq!(binary_search_leq(&items, u64::MAX).unwrap().price, u64::MAX);
    assert_eq!(binary_search_leq(&items, u64::MAX - 1).unwrap().price, 0);
}

#[test]
fn helper_counts_indices_from_low_index() {
    let items = items_with_prices(&[1, 3, 5]);
    assert_eq!(find_pair::bin_search_utils::binary_search_leq_helper(&items, 4, 10), Some(11));
    assert_eq!(find_pair::bin_search_utils::binary_search_leq_helper(&items, 0, 10), None);
}

#[test]
fn exact_match_at_middle_stops_there() {
    let items = items_with_prices(&[4, 4, 4, 4, 4]);
    assert_eq!(find_pair::bin_search_utils::binary_search_leq_helper(&items, 4, 0), Some(2));
    assert_eq!(find_pair::bin_search_utils::binary_search_leq_helper(&items, 4, 7), Some(9));
    let items = items_with_prices(&[1, 2, 6, 6]);
    assert_eq!(find_pair::bin_search_utils::binary_search_leq_helper(&items, 6, 0), Some(2));
}
