//! Segment logic of the ADSR envelope: which segment a sample index falls
//! in, and how far into its linear ramp it is.  Times are in samples.

use vstd::prelude::*;

verus! {

/// Where sample `i` of a note falls in an ADSR envelope.  A ramp's level
/// is set by `elapsed / length`: attack rises `elapsed / length` from 0 to
/// 1, decay falls from 1 to the sustain level, release falls from the
/// sustain level to 0.
#[derive(Debug, Clone, Copy, PartialEq, Eq, Structural)]
pub enum EnvelopeStage {
    Attack { elapsed: usize, length: usize },
    Decay { elapsed: usize, length: usize },
    Sustain,
    Release { elapsed: usize, length: usize },
    Off,
}

/// The segment of sample `i` for a note released at `hold`: attack for the
/// first `attack` samples, then decay for `decay` samples, then sustain up
/// to `hold`, then release for `release` samples, then silence.  When the
/// note is released before attack and decay are over, they run to their
/// end first.
pub open spec fn stage_at(attack: nat, decay: nat, release: nat, i: nat, hold: nat) -> EnvelopeStage {
    if i < attack {
        EnvelopeStage::Attack { elapsed: i as usize, length: attack as usize }
    } else if i < attack + decay {
        EnvelopeStage::Decay { elapsed: (i - attack) as usize, length: decay as usize }
    } else if i < hold {
        EnvelopeStage::Sustain
    } else if i < hold + release {
        EnvelopeStage::Release { elapsed: (i - hold) as usize, length: release as usize }
    } else {
        EnvelopeStage::Off
    }
}

/// The segment of sample `i` of a note released at `hold_samples`, with
/// the given segment lengths (the sums are taken without overflow).
pub fn envelope_stage(attack: usize, decay: usize, release: usize, i: usize, hold_samples: usize) -> (s:
    EnvelopeStage)
    ensures
        s == stage_at(attack as nat, decay as nat, release as nat, i as nat, hold_samples as nat),
{
    if i < attack {
        EnvelopeStage::Attack { elapsed: i, length: attack }
    } else if i - attack < decay {
        EnvelopeStage::Decay { elapsed: i - attack, length: decay }
    } else if i < hold_samples {
        EnvelopeStage::Sustain
    } else if i - hold_samples < release {
        EnvelopeStage::Release { elapsed: i - hold_samples, length: release }
    } else {
        EnvelopeStage::Off
    }
}

/// The segments in terms of the inputs alone.  Attack and decay always run
/// to their end, whatever the release point: the note-off only takes effect
/// at `max(hold, attack + decay)`; the release then lasts until
/// `hold + release`, and the envelope is off from
/// `max(hold + release, attack + decay)` on.
pub proof fn lemma_envelope_segments(attack: usize, decay: usize, release: usize, i: usize, hold: usize)
    ensures
        ({
            let s = stage_at(attack as nat, decay as nat, release as nat, i as nat, hold as nat);
            &&& i < attack ==> s == EnvelopeStage::Attack { elapsed: i, length: attack }
            &&& attack <= i < attack + decay ==> s == EnvelopeStage::Decay {
                elapsed: (i - attack) as usize,
                length: decay,
            }
            &&& attack + decay <= i < hold ==> s == EnvelopeStage::Sustain
            &&& (attack + decay <= i && hold <= i < hold + release) ==> s == EnvelopeStage::Release {
                elapsed: (i - hold) as usize,
                length: release,
            }
            &&& (attack + decay <= i && hold + release <= i) ==> s == EnvelopeStage::Off
        }),
{
}

/// Every ramp is strictly inside its segment: `elapsed < length`, so the
/// ramp fraction `elapsed / length` lies in `[0, 1)` and no length is zero.
pub proof fn lemma_ramps_in_range(attack: usize, decay: usize, release: usize, i: usize, hold: usize)
    ensures
        match stage_at(attack as nat, decay as nat, release as nat, i as nat, hold as nat) {
            EnvelopeStage::Attack { elapsed, length } => elapsed < length && length == attack,
            EnvelopeStage::Decay { elapsed, length } => elapsed < length && length == decay,
            EnvelopeStage::Release { elapsed, length } => elapsed < length && length == release,
            _ => true,
        },
{
}

/// Consecutive samples step through the ramps one sample at a time: the
/// segments follow attack, decay, sustain, release, off in this order, and
/// inside a ramp `elapsed` grows by one per sample.
pub proof fn lemma_stage_steps(attack: usize, decay: usize, release: usize, i: usize, hold: usize)
    requires
        i < usize::MAX,
    ensures
        ({
            let s = stage_at(attack as nat, decay as nat, release as nat, i as nat, hold as nat);
            let t = stage_at(attack as nat, decay as nat, release as nat, (i + 1) as nat, hold as nat);
            &&& s matches EnvelopeStage::Attack { elapsed, .. } ==> (t is Attack ==> t
                == EnvelopeStage::Attack { elapsed: (elapsed + 1) as usize, length: attack })
            &&& s matches EnvelopeStage::Decay { elapsed, .. } ==> (t is Decay ==> t
                == EnvelopeStage::Decay { elapsed: (elapsed + 1) as usize, length: decay })
            &&& s matches EnvelopeStage::Release { elapsed, .. } ==> (t is Release ==> t
                == EnvelopeStage::Release { elapsed: (elapsed + 1) as usize, length: release })
            &&& s is Decay ==> !(t is Attack)
            &&& s is Sustain ==> (t is Sustain || t is Release || t is Off)
            &&& s is Release ==> (t is Release || t is Off)
            &&& s is Off ==> t is Off
        }),
{
}

/// The note sounds for `hold + release` samples at most: past both the
/// release and the end of the decay, the envelope is off.
pub proof fn lemma_note_ends(attack: usize, decay: usize, release: usize, i: usize, hold: usize)
    requires
        i >= hold + release,
        i >= attack + decay,
    ensures
        stage_at(attack as nat, decay as nat, release as nat, i as nat, hold as nat) is Off,
{
}

} // verus!
