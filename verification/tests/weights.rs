use resampling::draws::UnitFrac;
use resampling::weights::Weights;

#[test]
fn try_new_accepts_a_normalized_vector() {
    // the weights 0.25, 0.25, 0.25, 0.25
    let weights = Weights::try_new(vec![25, 25, 25, 25], 100).unwrap();
    assert_eq!(weights.len(), 4);
    assert_eq!(weights.total(), 100);
    assert_eq!(weights.as_array(), &vec![25, 25, 25, 25]);
}

#[test]
fn try_new_rejects_an_unnormalized_vector() {
    // the weights 0.5, 0.5, 0.5, 0.5: they sum to 2, not 1
    assert!(Weights::try_new(vec![5, 5, 5, 5], 10).is_none());
}

#[test]
fn try_new_rejects_a_zero_total() {
    assert!(Weights::try_new(vec![], 0).is_none());
}

#[test]
fn normalize_divides_by_the_sum() {
    let weights = Weights::normalize(vec![3, 3, 1, 1]).unwrap();
    assert_eq!(weights.total(), 8);
    assert_eq!(weights.as_array(), &vec![3, 3, 1, 1]);
}

#[test]
fn normalize_rejects_all_zero_weights() {
    assert!(Weights::normalize(vec![0, 0, 0, 0]).is_none());
}

#[test]
fn normalize_rejects_an_empty_vector() {
    assert!(Weights::normalize(vec![]).is_none());
}

#[test]
fn cum_sum_is_monotone_and_ends_at_the_total() {
    let weights = Weights::try_new(vec![1, 2, 3, 4], 10).unwrap();
    let cumulative = weights.cum_sum();
    assert_eq!(cumulative, vec![1, 3, 6, 10]);
}

#[test]
fn unit_frac_rejects_values_outside_the_unit_interval() {
    assert!(UnitFrac::new(5, 4).is_none());
    assert!(UnitFrac::new(4, 4).is_none());
    assert!(UnitFrac::new(3, 0).is_none());
    let frac = UnitFrac::new(3, 4).unwrap();
    assert_eq!(frac.num, 3);
    assert_eq!(frac.den, 4);
}
