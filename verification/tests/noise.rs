use alice_audio::noise::noise_words;

/// The sample a word stands for: `w / 2^31 - 1`.
fn sample(w: u32) -> f64 {
    f64::from(w) / 2_147_483_648.0 - 1.0
}

#[test]
fn noise_words_have_the_requested_length() {
    assert_eq!(noise_words(1000, 42).len(), 1000);
    assert!(noise_words(0, 42).is_empty());
}

#[test]
fn noise_words_follow_the_generator() {
    assert_eq!(noise_words(4, 42), vec![3586392987, 3764426595, 2590983113, 28236415]);
    assert_eq!(noise_words(4, 0), vec![1481765933, 3232861391, 3417699910, 3338875177]);
    assert_eq!(noise_words(4, 7), vec![3264192874, 2605627709, 416602246, 2787102050]);
}

#[test]
fn noise_words_wrap_the_seed() {
    // seed + 1 wraps to 0, after which the stream is that of seed 0 shifted by one
    assert_eq!(noise_words(4, u64::MAX), vec![0, 1481765933, 3232861391, 3417699910]);
}

#[test]
fn noise_samples_are_uniform_on_minus_one_to_one() {
    let words = noise_words(200_000, 42);
    let v: Vec<f64> = words.iter().map(|&w| sample(w)).collect();
    assert!(v.iter().all(|x| (-1.0..1.0).contains(x)), "noise range");
    let mean = v.iter().sum::<f64>() / v.len() as f64;
    let var = v.iter().map(|x| (x - mean) * (x - mean)).sum::<f64>() / v.len() as f64;
    assert!(mean.abs() < 0.01, "noise mean {mean}");
    assert!((var - 1.0 / 3.0).abs() < 0.01, "noise variance {var}");
    // both halves of the range are reached
    assert!(v.iter().any(|&x| x > 0.9) && v.iter().any(|&x| x < -0.9));
}

#[test]
fn noise_extreme_words_map_inside_the_range() {
    assert_eq!(sample(0), -1.0);
    assert!(sample(u32::MAX) < 1.0);
}

#[test]
fn noise_words_are_deterministic_and_seeded() {
    assert_eq!(noise_words(16, 7), noise_words(16, 7));
    assert_ne!(noise_words(16, 1), noise_words(16, 2));
    let a: Vec<f64> = noise_words(100, 1).into_iter().map(sample).collect();
    let b: Vec<f64> = noise_words(100, 2).into_iter().map(sample).collect();
    let diff: f64 = a.iter().zip(b.iter()).map(|(x, y)| (x - y).abs()).sum();
    assert!(diff > 1.0);
}

#[test]
fn noise_words_shorter_run_is_a_prefix() {
    let long = noise_words(50, 3);
    let short = noise_words(20, 3);
    assert_eq!(&long[..20], &short[..]);
}
