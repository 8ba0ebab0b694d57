use quote_stream::generator::{
    draw_trade, random, random_by_tuple, random_choice_str, shuffle_vec, tier_of, Tier,
    Transaction, UNITS_MAX, UNITS_MIN,
};
use quote_stream::utils::get_timestamp;

#[test]
fn test_random_choice_str_with_valid_input() {
    let seq: Vec<String> = vec!["one".into(), "two".into(), "three".into()];
    let result = random_choice_str(&seq);
    assert!(result.is_some());
    let chosen = result.unwrap();
    assert!(seq.contains(&chosen));
}

#[test]
fn test_random_choice_str_with_empty_input() {
    let seq: Vec<String> = vec![];
    let result = random_choice_str(&seq);
    assert!(result.is_none());
}

#[test]
fn test_random_choice_str_with_different_containers() {
    let arr: Vec<String> = ["apple", "banana"].iter().map(|s| s.to_string()).collect();
    let result_arr = random_choice_str(&arr);
    assert!(result_arr.is_some());
    let vec_strings = vec!["cat".to_string(), "dog".to_string()];
    let result_vec = random_choice_str(&vec_strings);
    assert!(result_vec.is_some());
}

#[test]
fn test_shuffle_vec() {
    let original = vec![1, 2, 3, 4, 5];
    let shuffled = shuffle_vec(original.clone());
    assert_eq!(shuffled.len(), 5);
    assert!(shuffled.iter().all(|item| original.contains(item)));
    assert_ne!(shuffled, vec![1, 2, 3, 4, 5]);
}

#[test]
fn test_random_with_integer_range() {
    let result = random(1, 10);
    assert!((1..=10).contains(&result));
}

#[test]
fn test_random_with_same_min_max() {
    let result = random(42, 42);
    assert_eq!(result, 42);
}

#[test]
fn test_random_by_tuple() {
    let range = (5, 15);
    let result = random_by_tuple(range);
    assert!((5..=15).contains(&result));
}

#[test]
fn trade_ticker_is_loaded() {
    let tickers = vec!["AAPL".to_string(), "MSFT".to_string()];
    for _ in 0..200 {
        let t = draw_trade(&tickers).unwrap();
        assert!(tickers.contains(&t.ticker));
        assert!(UNITS_MIN <= t.volume && t.volume <= UNITS_MAX);
    }
    assert!(draw_trade(&Vec::new()).is_none());
}

#[test]
fn transaction_names() {
    assert_eq!(Transaction::Buy.as_str(), "buy");
    assert_eq!(Transaction::Sell.as_str(), "sell");
}

#[test]
fn tiers_split_by_share() {
    let tiers: Vec<Tier> = (0..10).map(|i| tier_of(i, 10)).collect();
    assert_eq!(tiers[0], Tier::Expensive);
    assert!(tiers[1..5].iter().all(|t| *t == Tier::Middle));
    assert!(tiers[5..].iter().all(|t| *t == Tier::Low));
    assert_eq!(tier_of(0, 3), Tier::Expensive);
    assert_eq!(tier_of(1, 3), Tier::Middle);
    assert_eq!(tier_of(2, 3), Tier::Middle);
    assert_eq!(tier_of(0, 1), Tier::Expensive);
}

#[test]
fn timestamp_is_recent() {
    assert!(get_timestamp() > 1_600_000_000);
}
