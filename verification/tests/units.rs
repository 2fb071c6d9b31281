//! Tests of the library's pieces: rationals, priors, phase nodes and the
//! error variants.

use turnip_calc::remaining_length;
use turnip_calc::CalcError;
use turnip_calc::Node;
use turnip_calc::Pattern;
use turnip_calc::Rat;

#[test]
fn test_rat_new_reduces() {
    assert_eq!(Rat::new(4, 8), Some(Rat { num: 1, den: 2 }));
    assert_eq!(Rat::new(30, 12), Some(Rat { num: 5, den: 2 }));
    assert_eq!(Rat::new(7, 1), Some(Rat { num: 7, den: 1 }));
    assert_eq!(Rat::new(0, 5), None);
    assert_eq!(Rat::new(5, 0), None);
}

#[test]
fn test_rat_arithmetic() {
    let half = Rat::new(1, 2).unwrap();
    let third = Rat::new(1, 3).unwrap();
    assert_eq!(half.add(third), Some(Rat { num: 5, den: 6 }));
    assert_eq!(half.mul(third), Some(Rat { num: 1, den: 6 }));
    assert_eq!(half.div(third), Some(Rat { num: 3, den: 2 }));
    assert_eq!(third.lt(half), Some(true));
    assert_eq!(half.lt(third), Some(false));
    // A product that cannot fit in 128 bits is reported, not rounded.
    let huge = Rat { num: u128::MAX, den: 1 };
    let two = Rat { num: 2, den: 1 };
    assert_eq!(huge.mul(two), None);
}

#[test]
fn test_prior_rows() {
    // The prior table row for an unknown previous pattern.
    assert_eq!(Pattern::Decreasing.prior(None), Rat { num: 3, den: 20 });
    assert_eq!(Pattern::Random.prior(None), Rat { num: 7, den: 20 });
    assert_eq!(Pattern::SmallSpike.prior(None), Rat { num: 1, den: 4 });
    assert_eq!(Pattern::LargeSpike.prior(None), Rat { num: 1, den: 4 });
    // A conditioned row, and that it sums to one.
    let prev = Some(Pattern::LargeSpike);
    assert_eq!(Pattern::Decreasing.prior(prev), Rat { num: 1, den: 5 });
    assert_eq!(Pattern::Random.prior(prev), Rat { num: 1, den: 2 });
    let sum = Pattern::Decreasing
        .prior(prev)
        .add(Pattern::Random.prior(prev))
        .unwrap()
        .add(Pattern::SmallSpike.prior(prev))
        .unwrap()
        .add(Pattern::LargeSpike.prior(prev))
        .unwrap();
    assert_eq!(sum, Rat { num: 1, den: 1 });
}

#[test]
fn test_remaining_length() {
    assert_eq!(remaining_length(&vec![]), (12, 12));
    assert_eq!(remaining_length(&vec![1, 2, 3]), (6, 6));
    assert_eq!(remaining_length(&vec![0, 7, 5]), (0, 0));
}

#[test]
fn test_new_set_size() {
    assert_eq!(Node::new_set(90, None).len(), 6);
    assert_eq!(Node::new_set(110, Some(Pattern::Random)).len(), 6);
    assert_eq!(Node::new_set(89, None).len(), 0);
    assert_eq!(Node::new_set(111, None).len(), 0);
    assert_eq!(Node::new_set(0, None).len(), 0);
}

#[test]
fn test_children_prune_and_advance() {
    // A price far outside every root's band prunes the whole set.
    let nodes = Node::new_set(100, None);
    for node in nodes {
        assert!(node.children(Some(700)).unwrap().is_empty());
    }
    // An unknown price never prunes: the set only grows or stays.
    let nodes = Node::new_set(100, None);
    let mut count = 0;
    for node in nodes {
        let children = node.children(None).unwrap();
        assert!(!children.is_empty());
        count += children.len();
    }
    assert!(count >= 6);
}

#[test]
fn test_terminator_sentinel_is_internal_error() {
    // Walking past the end of a chain is an internal invariant
    // violation, reported as an error rather than a crash.
    let sentinel = Node {
        pattern: Pattern::Decreasing,
        base_price: 100,
        prob: Rat { num: 1, den: 1 },
        min_len: 0,
        max_len: 0,
        min_fac: 0,
        max_fac: 0,
        decrement: None,
        length: 0,
        lengths: Vec::new(),
        next_phase: None,
    };
    match sentinel.children(None) {
        Err(e) => assert_eq!(e, CalcError::Internal),
        Ok(_) => panic!("expected an internal error"),
    }
}

#[test]
fn test_capacity_error_surfaces() {
    // A path probability too wide for 128 bits is reported as a
    // capacity error.
    let node = Node {
        pattern: Pattern::Random,
        base_price: 100,
        prob: Rat { num: u128::MAX / 2, den: 1 },
        min_len: 5,
        max_len: 5,
        min_fac: 0,
        max_fac: 3,
        decrement: None,
        length: 1,
        lengths: Vec::new(),
        next_phase: None,
    };
    match node.children(Some(0)) {
        Err(e) => assert_eq!(e, CalcError::Capacity),
        Ok(_) => panic!("expected a capacity error"),
    }
}

#[test]
fn test_value_reports_pattern_and_probability() {
    let nodes = Node::new_set(100, None);
    let (pattern, prob) = nodes[0].value();
    assert_eq!(pattern, Pattern::Decreasing);
    assert_eq!(prob, Rat { num: 3, den: 20 });
}
