use rand::RngExt;
use rand::SeedableRng;
use rand_xoshiro::Xoroshiro128PlusPlus;
use resampling::draws::{RandomSource, UnitFrac};
use resampling::multinomial::MultinomialResampler;
use resampling::resampler::Resampler;
use resampling::residual::ResidualResampler;
use resampling::stratified::StratifiedResampler;
use resampling::systematic::SystematicResampler;
use resampling::weights::Weights;

/// Denominator of one exactly converted 24-bit standard-uniform `f32`.
const DEN24: u64 = 16_777_216;

/// Converts an `f32` in `[0, 1)` with 24-bit granularity to an exact fraction.
fn frac_of_f32(x: f32) -> UnitFrac {
    UnitFrac::new((x as f64 * DEN24 as f64) as u64, DEN24).unwrap()
}

/// Scripts `n` draws from a fixed-seed generator, so runs are repeatable.
fn scripted_from_rng(n: usize) -> RandomSource {
    let mut rng = Xoroshiro128PlusPlus::seed_from_u64(42);
    let mut vals: Vec<UnitFrac> = Vec::new();
    for _ in 0..n {
        let x: f32 = rng.sample(rand::distr::StandardUniform);
        vals.push(frac_of_f32(x));
    }
    RandomSource::new(vals)
}

/// Scripts the given exact fractions.
fn script(pairs: &[(u64, u64)]) -> RandomSource {
    let vals: Vec<UnitFrac> = pairs.iter().map(|&(n, d)| UnitFrac::new(n, d).unwrap()).collect();
    RandomSource::new(vals)
}

#[test]
fn multinomial_test_with_rng() {
    let weights = Weights::try_new(vec![1, 2, 3, 4], 10).unwrap();
    let mut src = scripted_from_rng(4);
    let output = MultinomialResampler::new().resample(&weights, &mut src);
    println!("{:?}", output);
}

#[test]
fn multinomial_test_with_faked_rng() {
    let weights = Weights::try_new(vec![1, 2, 3, 4], 10).unwrap();
    // the draws 0.05, 0.8, 0.2, 0.35
    let mut src = script(&[(1, 20), (4, 5), (1, 5), (7, 20)]);
    let output = MultinomialResampler::new().resample(&weights, &mut src);
    assert_eq!(output, [0, 3, 1, 2]);
}

#[test]
fn residual_test_with_rng() {
    let weights = Weights::try_new(vec![1, 2, 3, 4], 10).unwrap();
    let mut src = scripted_from_rng(4);
    let output = ResidualResampler::new(MultinomialResampler::new()).resample(&weights, &mut src);
    println!("{:?}", output);
}

#[test]
fn with_real_rng() {
    let weights = Weights::try_new(vec![1, 2, 3, 4], 10).unwrap();
    let mut src = scripted_from_rng(4);
    let output = StratifiedResampler::new().resample(&weights, &mut src);
    println!("{:?}", output);
}

#[test]
fn with_faked_rng() {
    let weights = Weights::normalize(vec![3, 3, 1, 1]).unwrap();
    // the draws 0, 0, 0, 0.75
    let mut src = script(&[(0, 1), (0, 1), (0, 1), (3, 4)]);
    let output = StratifiedResampler::new().resample(&weights, &mut src);
    assert_eq!(output, [0, 0, 1, 3]);
}

#[test]
fn systematic_test_with_rng() {
    let weights = Weights::try_new(vec![1, 2, 3, 4], 10).unwrap();
    let mut src = scripted_from_rng(1);
    let output = SystematicResampler::new().resample(&weights, &mut src);
    println!("{:?}", output);
}

#[test]
fn systematic_test_with_faked_rng() {
    let weights = Weights::normalize(vec![3, 1, 1, 3]).unwrap();
    // the draw 0.49
    let mut src = script(&[(49, 100)]);
    let output = SystematicResampler::new().resample(&weights, &mut src);
    assert_eq!(output, [0, 0, 2, 3]);
}

#[test]
fn multinomial_consumes_one_draw_per_particle() {
    let weights = Weights::try_new(vec![1, 2, 3, 4], 10).unwrap();
    let mut src = script(&[(1, 20), (4, 5), (1, 5), (7, 20), (1, 2), (1, 2)]);
    let output = MultinomialResampler::new().resample(&weights, &mut src);
    assert_eq!(output.len(), 4);
    assert_eq!(src.pos, 4);
}

#[test]
fn stratified_consumes_one_draw_per_stratum() {
    let weights = Weights::normalize(vec![3, 3, 1, 1]).unwrap();
    let mut src = script(&[(0, 1), (0, 1), (0, 1), (3, 4), (1, 2)]);
    let output = StratifiedResampler::new().resample(&weights, &mut src);
    assert_eq!(output.len(), 4);
    assert_eq!(src.pos, 4);
}

#[test]
fn systematic_consumes_a_single_draw() {
    let weights = Weights::normalize(vec![3, 1, 1, 3]).unwrap();
    let mut src = script(&[(49, 100), (1, 2), (1, 2)]);
    let output = SystematicResampler::new().resample(&weights, &mut src);
    assert_eq!(output.len(), 4);
    assert_eq!(src.pos, 1);
}

#[test]
fn outputs_are_in_range_for_all_algorithms() {
    let weights = Weights::normalize(vec![5, 0, 3, 2, 7]).unwrap();
    let pairs = [(1, 3), (2, 3), (1, 7), (6, 7), (1, 2)];
    let mut m_src = script(&pairs);
    let mut s_src = script(&pairs);
    let mut y_src = script(&pairs);
    let mut r_src = script(&pairs);
    let outputs = [
        MultinomialResampler::new().resample(&weights, &mut m_src),
        StratifiedResampler::new().resample(&weights, &mut s_src),
        SystematicResampler::new().resample(&weights, &mut y_src),
        ResidualResampler::new(MultinomialResampler::new()).resample(&weights, &mut r_src),
    ];
    for output in outputs.iter() {
        assert_eq!(output.len(), 5);
        for &index in output.iter() {
            assert!(index < 5);
        }
    }
}

#[test]
fn identical_scripts_reproduce_identical_outputs() {
    let weights = Weights::normalize(vec![2, 5, 1, 8]).unwrap();
    let pairs = [(3, 16), (9, 16), (1, 16), (15, 16)];
    let resampler = StratifiedResampler::new();
    let mut first_src = script(&pairs);
    let mut second_src = script(&pairs);
    let first = resampler.resample(&weights, &mut first_src);
    let second = resampler.resample(&weights, &mut second_src);
    assert_eq!(first, second);
    let residual = ResidualResampler::new(MultinomialResampler::new());
    let mut third_src = script(&pairs);
    let mut fourth_src = script(&pairs);
    let third = residual.resample(&weights, &mut third_src);
    let fourth = residual.resample(&weights, &mut fourth_src);
    assert_eq!(third, fourth);
}

#[test]
fn systematic_output_is_sorted() {
    let weights = Weights::normalize(vec![1, 9, 2, 5, 3]).unwrap();
    let mut src = script(&[(7, 9)]);
    let output = SystematicResampler::new().resample(&weights, &mut src);
    for pair in output.windows(2) {
        assert!(pair[0] <= pair[1]);
    }
}

#[test]
fn residual_emits_floor_copies_then_fractional_draws() {
    // weights 0.1, 0.2, 0.3, 0.4: expected counts 0.4, 0.8, 1.2, 1.6, so the
    // deterministic copies are [2, 3]; the fractional weights are
    // [4, 8, 2, 6] / 20, and the multinomial delegate still consumes all
    // four draws, of which the first two resolve to 0 and 3.
    let weights = Weights::try_new(vec![1, 2, 3, 4], 10).unwrap();
    let mut src = script(&[(1, 10), (9, 10), (1, 2), (1, 2)]);
    let output = ResidualResampler::new(MultinomialResampler::new()).resample(&weights, &mut src);
    assert_eq!(output, [2, 3, 0, 3]);
    assert_eq!(src.pos, 4);
}

#[test]
fn residual_with_exact_weights_needs_no_draws() {
    let weights = Weights::normalize(vec![1, 1, 1, 1]).unwrap();
    let mut src = script(&[(1, 2), (1, 2), (1, 2), (1, 2)]);
    let output = ResidualResampler::new(MultinomialResampler::new()).resample(&weights, &mut src);
    assert_eq!(output, [0, 1, 2, 3]);
    assert_eq!(src.pos, 0);
}

#[test]
fn residual_can_delegate_to_stratified() {
    let weights = Weights::try_new(vec![1, 2, 3, 4], 10).unwrap();
    let mut src = script(&[(0, 2), (0, 2), (0, 2), (1, 2)]);
    let output = ResidualResampler::new(StratifiedResampler::new()).resample(&weights, &mut src);
    // deterministic copies [2, 3]; stratified on [4, 8, 2, 6] / 20 with
    // targets 0, 1/4, 1/2, 7/8 gives [0, 1, 1, 3]; the first two fill the
    // remaining slots.
    assert_eq!(output, [2, 3, 0, 1]);
    assert_eq!(src.pos, 4);
}

#[test]
fn single_particle_population_always_resolves_to_zero() {
    let weights = Weights::normalize(vec![7]).unwrap();
    let mut m_src = script(&[(16_000_000, DEN24)]);
    assert_eq!(MultinomialResampler::new().resample(&weights, &mut m_src), [0]);
    let mut y_src = script(&[(0, 1)]);
    assert_eq!(SystematicResampler::new().resample(&weights, &mut y_src), [0]);
}
