use alice_audio::envelope::{envelope_stage, EnvelopeStage};

#[test]
fn envelope_attack_segment() {
    assert_eq!(envelope_stage(10, 10, 10, 0, 100), EnvelopeStage::Attack { elapsed: 0, length: 10 });
    assert_eq!(envelope_stage(10, 10, 10, 5, 100), EnvelopeStage::Attack { elapsed: 5, length: 10 });
    assert_eq!(envelope_stage(10, 10, 10, 9, 100), EnvelopeStage::Attack { elapsed: 9, length: 10 });
}

#[test]
fn envelope_decay_segment() {
    assert_eq!(envelope_stage(10, 10, 10, 10, 100), EnvelopeStage::Decay { elapsed: 0, length: 10 });
    assert_eq!(envelope_stage(10, 10, 10, 19, 100), EnvelopeStage::Decay { elapsed: 9, length: 10 });
    assert_eq!(envelope_stage(10, 10, 10, 20, 100), EnvelopeStage::Sustain);
}

#[test]
fn envelope_sustain_segment() {
    assert_eq!(envelope_stage(10, 10, 10, 50, 100), EnvelopeStage::Sustain);
    assert_eq!(envelope_stage(10, 10, 10, 99, 100), EnvelopeStage::Sustain);
}

#[test]
fn envelope_release_segment_and_end() {
    assert_eq!(envelope_stage(10, 10, 20, 100, 100), EnvelopeStage::Release { elapsed: 0, length: 20 });
    assert_eq!(envelope_stage(10, 10, 20, 110, 100), EnvelopeStage::Release { elapsed: 10, length: 20 });
    assert_eq!(envelope_stage(10, 10, 20, 120, 100), EnvelopeStage::Off);
    assert_eq!(envelope_stage(10, 10, 20, 5000, 100), EnvelopeStage::Off);
}

#[test]
fn envelope_zero_attack_starts_in_decay() {
    assert_eq!(envelope_stage(0, 10, 10, 0, 100), EnvelopeStage::Decay { elapsed: 0, length: 10 });
    assert_eq!(envelope_stage(0, 0, 4, 0, 10), EnvelopeStage::Sustain);
}

#[test]
fn envelope_early_release_waits_for_decay() {
    // released at 5, but attack and decay take 30 samples
    assert_eq!(envelope_stage(10, 20, 40, 12, 5), EnvelopeStage::Decay { elapsed: 2, length: 20 });
    assert_eq!(envelope_stage(10, 20, 40, 30, 5), EnvelopeStage::Release { elapsed: 25, length: 40 });
    assert_eq!(envelope_stage(10, 20, 40, 45, 5), EnvelopeStage::Off);
}

#[test]
fn envelope_lengths_near_the_integer_limit() {
    let m = usize::MAX;
    assert_eq!(envelope_stage(m, m, m, m - 1, m), EnvelopeStage::Attack { elapsed: m - 1, length: m });
    assert_eq!(envelope_stage(1, m, 0, m, 0), EnvelopeStage::Decay { elapsed: m - 1, length: m });
}

#[test]
fn envelope_piecewise_counts_match_the_configuration() {
    let (attack, decay, release, hold) = (10, 20, 40, 100);
    let mut counts = [0usize; 5];
    for i in 0..(hold + release + 10) {
        let k = match envelope_stage(attack, decay, release, i, hold) {
            EnvelopeStage::Attack { .. } => 0,
            EnvelopeStage::Decay { .. } => 1,
            EnvelopeStage::Sustain => 2,
            EnvelopeStage::Release { .. } => 3,
            EnvelopeStage::Off => 4,
        };
        counts[k] += 1;
    }
    assert_eq!(counts, [10, 20, 70, 40, 10]);
}
