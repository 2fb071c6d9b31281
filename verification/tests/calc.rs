//! End-to-end tests of the calculator on concrete price sequences.

use turnip_calc::run;
use turnip_calc::CalcError;
use turnip_calc::Pattern;
use turnip_calc::Rat;

// Wrap every price in Some.
fn map_some(prices: Vec<u32>) -> Vec<Option<u32>> {
    prices.into_iter().map(Some).collect()
}

// Assert that the results contain only the given pattern with certainty.
fn assert_only(results: &Vec<(Pattern, Rat)>, pattern: Pattern) {
    assert_eq!(results.len(), 1);
    assert_eq!(results[0].0, pattern);
    assert_eq!(results[0].1, Rat { num: 1, den: 1 });
}

// The probability of a pattern within a result list.
fn prob_of(results: &Vec<(Pattern, Rat)>, pattern: Pattern) -> Rat {
    results.iter().find(|(p, _)| *p == pattern).unwrap().1
}

// Exact comparison of two probabilities.
fn rat_gt(a: Rat, b: Rat) -> bool {
    a.num as u128 * b.den as u128 > b.num as u128 * a.den as u128
}

#[test]
fn test_decreasing_full() {
    let base_price = 100;
    let prices = vec![90, 87, 82, 78, 74, 69, 66, 61, 58, 54, 50, 47];
    let results = run(None, base_price, map_some(prices)).unwrap();
    assert_only(&results, Pattern::Decreasing);
}

#[test]
fn test_decreasing_minimal() {
    let base_price = 100;
    let prices = vec![90, 87, 82, 78, 74, 69, 66, 61];
    let results = run(None, base_price, map_some(prices)).unwrap();
    assert_only(&results, Pattern::Decreasing);
}

#[test]
fn test_decreasing_partial() {
    let base_price = 100;
    let prices = vec![90, 87, 82, 78, 74, 69, 66];
    let results = run(None, base_price, map_some(prices)).unwrap();
    assert_eq!(
        results,
        vec![
            (Pattern::Decreasing, Rat { num: 112, den: 141 }),
            (Pattern::LargeSpike, Rat { num: 80, den: 423 }),
            (Pattern::SmallSpike, Rat { num: 7, den: 423 }),
        ]
    );
}

#[test]
fn test_random_full() {
    let base_price = 95;
    let prices = vec![102, 127, 112, 112, 97, 65, 59, 96, 121, 57, 53, 43];
    let results = run(None, base_price, map_some(prices)).unwrap();
    assert_only(&results, Pattern::Random);
}

#[test]
fn test_random_minimal() {
    let base_price = 95;
    let prices = vec![102, 127, 112];
    let results = run(None, base_price, map_some(prices)).unwrap();
    assert_only(&results, Pattern::Random);
}

#[test]
fn test_random_partial() {
    let base_price = 95;
    let prices = vec![102, 127];
    let results = run(None, base_price, map_some(prices)).unwrap();
    assert_eq!(
        results,
        vec![
            (Pattern::Random, Rat { num: 8, den: 9 }),
            (Pattern::SmallSpike, Rat { num: 1, den: 9 }),
        ]
    );
}

#[test]
fn test_small_spike_full() {
    let base_price = 90;
    let prices = vec![55, 52, 48, 43, 38, 90, 89, 135, 170, 165, 81, 77];
    let results = run(None, base_price, map_some(prices)).unwrap();
    assert_only(&results, Pattern::SmallSpike);
}

#[test]
fn test_small_spike_minimal() {
    let base_price = 90;
    let prices = vec![55, 52, 48, 43];
    let results = run(None, base_price, map_some(prices)).unwrap();
    assert_only(&results, Pattern::SmallSpike);
}

#[test]
fn test_small_spike_partial() {
    let base_price = 90;
    let prices = vec![55, 52, 48];
    let results = run(None, base_price, map_some(prices)).unwrap();
    assert_eq!(
        results,
        vec![
            (Pattern::SmallSpike, Rat { num: 640, den: 689 }),
            (Pattern::Random, Rat { num: 49, den: 689 }),
        ]
    );
}

#[test]
fn test_large_spike_full() {
    let base_price = 104;
    let prices = vec![90, 86, 128, 165, 455, 147, 143, 57, 53, 43, 94, 42];
    let results = run(None, base_price, map_some(prices)).unwrap();
    assert_only(&results, Pattern::LargeSpike);
}

#[test]
fn test_large_spike_minimal() {
    let base_price = 104;
    let prices = vec![90, 86, 128, 165];
    let results = run(None, base_price, map_some(prices)).unwrap();
    assert_only(&results, Pattern::LargeSpike);
}

#[test]
fn test_large_spike_partial() {
    let base_price = 104;
    let prices = vec![90, 86];
    let results = run(None, base_price, map_some(prices)).unwrap();
    assert_eq!(
        results,
        vec![
            (Pattern::LargeSpike, Rat { num: 80, den: 143 }),
            (Pattern::Decreasing, Rat { num: 56, den: 143 }),
            (Pattern::SmallSpike, Rat { num: 7, den: 143 }),
        ]
    );
}

#[test]
fn test_prev_patterns() {
    let base_price = 104;
    let prices: Vec<Option<u32>> = map_some(vec![90, 86]);
    let results_plain = run(None, base_price, prices.clone()).unwrap();
    let results_ls = run(Some(Pattern::LargeSpike), base_price, prices.clone()).unwrap();
    let results_d = run(Some(Pattern::Decreasing), base_price, prices).unwrap();
    assert!(rat_gt(
        prob_of(&results_d, Pattern::LargeSpike),
        prob_of(&results_plain, Pattern::LargeSpike)
    ));
    assert!(rat_gt(
        prob_of(&results_plain, Pattern::LargeSpike),
        prob_of(&results_ls, Pattern::LargeSpike)
    ));
}

#[test]
fn test_invalid() {
    // Weird zeroes.
    assert!(run(None, 100, map_some(vec![0])).unwrap().is_empty());
    assert!(run(None, 0, map_some(vec![100])).unwrap().is_empty());
    assert!(run(None, 0, map_some(vec![0])).unwrap().is_empty());
    // Bad patterns.
    assert!(run(None, 100, map_some(vec![200])).unwrap().is_empty());
    assert!(
        run(None, 100, map_some(vec![130, 126, 122, 118, 114, 110, 106, 102]))
            .unwrap()
            .is_empty()
    );
}

#[test]
fn test_missing_prices() {
    let base_price = 90;
    let prices = vec![None, None, Some(48), Some(43)];
    let results = run(None, base_price, prices).unwrap();
    assert_eq!(
        results,
        vec![
            (Pattern::SmallSpike, Rat { num: 1040, den: 1229 }),
            (Pattern::Random, Rat { num: 189, den: 1229 }),
        ]
    );
}

#[test]
fn test_probabilities_sum_to_one() {
    // The returned probabilities of a non-empty result sum exactly to one.
    for (base, prices) in [
        (100u32, vec![90u32, 87, 82, 78, 74, 69, 66]),
        (104, vec![90, 86]),
        (90, vec![55, 52, 48]),
    ] {
        let results = run(None, base, map_some(prices)).unwrap();
        assert!(!results.is_empty());
        let mut sum = Rat { num: results[0].1.num, den: results[0].1.den };
        for entry in results.iter().skip(1) {
            sum = sum.add(entry.1).unwrap();
        }
        assert_eq!(sum, Rat { num: 1, den: 1 });
    }
}

#[test]
fn test_boundary_base_prices() {
    // Both edges of the valid range are valid; one unit outside is not.
    let at_min = run(None, 90, Vec::new()).unwrap();
    let at_max = run(None, 110, Vec::new()).unwrap();
    let expected = vec![
        (Pattern::Random, Rat { num: 7, den: 20 }),
        (Pattern::SmallSpike, Rat { num: 1, den: 4 }),
        (Pattern::LargeSpike, Rat { num: 1, den: 4 }),
        (Pattern::Decreasing, Rat { num: 3, den: 20 }),
    ];
    assert_eq!(at_min, expected);
    assert_eq!(at_max, expected);
    assert!(run(None, 89, map_some(vec![100])).unwrap().is_empty());
    assert!(run(None, 111, map_some(vec![100])).unwrap().is_empty());
}

#[test]
fn test_all_unknown_returns_priors() {
    // An all-unknown sequence returns the renormalised prior distribution.
    let results = run(None, 100, vec![None; 12]).unwrap();
    assert_eq!(
        results,
        vec![
            (Pattern::Random, Rat { num: 7, den: 20 }),
            (Pattern::SmallSpike, Rat { num: 1, den: 4 }),
            (Pattern::LargeSpike, Rat { num: 1, den: 4 }),
            (Pattern::Decreasing, Rat { num: 3, den: 20 }),
        ]
    );
    // With a known previous pattern, the matching prior row comes back.
    let results = run(Some(Pattern::Decreasing), 104, Vec::new()).unwrap();
    assert_eq!(
        results,
        vec![
            (Pattern::LargeSpike, Rat { num: 9, den: 20 }),
            (Pattern::Random, Rat { num: 1, den: 4 }),
            (Pattern::SmallSpike, Rat { num: 1, den: 4 }),
            (Pattern::Decreasing, Rat { num: 1, den: 20 }),
        ]
    );
}

#[test]
fn test_sharp_rise_eliminates_decreasing_and_random() {
    // A price above the decreasing band at once, then a further rise:
    // only the small spike can explain it.
    let results = run(None, 100, map_some(vec![139, 139, 195])).unwrap();
    assert_only(&results, Pattern::SmallSpike);
    let results = run(None, 100, map_some(vec![139, 195])).unwrap();
    assert!(results.is_empty());
}

#[test]
fn test_missing_price_keeps_patterns() {
    // Replacing the last known price with unknown keeps every pattern
    // the full sequence kept.
    let full = run(None, 90, map_some(vec![55, 52, 48, 43])).unwrap();
    let blanked = run(None, 90, vec![Some(55), Some(52), Some(48), None]).unwrap();
    for (pattern, _) in &full {
        assert!(blanked.iter().any(|(p, _)| p == pattern));
    }
}
