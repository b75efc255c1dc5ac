use vstd::prelude::*;

use crate::fp::{Fp, ONE_BITS, SIXTY_BITS, ZERO_BITS};
use crate::ugen::NumLit;

verus! {

/// A time signature: beats per bar and the note value of one beat.
#[derive(Clone, Copy, PartialEq, Eq, Structural, Debug)]
pub struct Measure {
    pub beat: u32,
    pub note: u32,
}

/// A musical position: bar, beat within the bar, and the fraction of the
/// current beat as the bit pattern of a double in `[0, 1)`.
#[derive(Clone, Copy, PartialEq, Eq, Structural, Debug)]
pub struct Pos {
    pub bar: u32,
    pub beat: u32,
    pub pos: u64,
}

/// The musical-time transport: sample rate, a monotonic tick counter,
/// tempo, time signature, and the derived musical position.
///
/// `tick` counts samples since the transport started.  `bpm` carries both
/// the bit pattern of the tempo and its decimal rendering, which the dump
/// emits verbatim.
pub struct Transport {
    pub sample_rate: u32,
    pub tick: u64,
    pub bpm: NumLit,
    pub measure: Measure,
    pub pos: Pos,
}

impl Transport {
    /// A transport at tick 0, bar 0, beat 0.
    pub fn new(sample_rate: u32, bpm: NumLit, measure: Measure) -> (t: Transport)
        ensures
            t.sample_rate == sample_rate,
            t.tick == 0,
            t.bpm == bpm,
            t.measure == measure,
            t.pos == (Pos { bar: 0, beat: 0, pos: ZERO_BITS }),
    {
        Transport {
            sample_rate,
            tick: 0,
            bpm,
            measure,
            pos: Pos { bar: 0, beat: 0, pos: ZERO_BITS },
        }
    }

    /// Advance the transport by one sample: the tick grows by exactly one
    /// and the musical position accumulates `bpm / (60 * sample_rate)`
    /// beats, carrying into the beat counter when the fraction reaches
    /// 1.0 and into the bar counter when the beat counter reaches the
    /// measure.  The sample rate, tempo and measure never change.
    pub fn inc<F: Fp>(&mut self, fp: &mut F)
        requires
            old(self).tick < u64::MAX,
        ensures
            final(self).tick == old(self).tick + 1,
            final(self).sample_rate == old(self).sample_rate,
            final(self).bpm == old(self).bpm,
            final(self).measure == old(self).measure,
            final(self).pos.bar >= old(self).pos.bar,
            ({
                ||| (final(self).pos.bar == old(self).pos.bar && final(self).pos.beat == old(
                    self,
                ).pos.beat)
                ||| (final(self).pos.bar == old(self).pos.bar && final(self).pos.beat == (if old(
                    self,
                ).pos.beat < u32::MAX {
                    (old(self).pos.beat + 1) as u32
                } else {
                    u32::MAX
                }) && final(self).pos.beat != old(self).measure.beat)
                ||| (final(self).pos.beat == 0 && (if old(self).pos.beat < u32::MAX {
                    (old(self).pos.beat + 1) as u32
                } else {
                    u32::MAX
                }) == old(self).measure.beat && final(self).pos.bar == (if old(self).pos.bar
                    < u32::MAX {
                    (old(self).pos.bar + 1) as u32
                } else {
                    u32::MAX
                }))
            }),
    {
        self.tick = self.tick + 1;
        let sr_bits: u64 = fp.of_int(self.sample_rate as u64);
        let denom: u64 = fp.mul(SIXTY_BITS, sr_bits);
        let beats_per_sample: u64 = fp.div(self.bpm.bits, denom);
        self.pos.pos = fp.add(self.pos.pos, beats_per_sample);
        if fp.ge(self.pos.pos, ONE_BITS) {
            self.pos.pos = fp.sub(self.pos.pos, ONE_BITS);
            let next_beat: u32 = if self.pos.beat < u32::MAX {
                self.pos.beat + 1
            } else {
                u32::MAX
            };
            if next_beat == self.measure.beat {
                self.pos.beat = 0;
                self.pos.bar = if self.pos.bar < u32::MAX {
                    self.pos.bar + 1
                } else {
                    u32::MAX
                };
            } else {
                self.pos.beat = next_beat;
            }
        }
    }

    /// `floor(sample_rate * sec)` as an integer number of samples, where
    /// `sec_bits` is the bit pattern of a duration in seconds.
    pub fn sec_to_samples<F: Fp>(&self, sec_bits: u64, fp: &mut F) -> u64 {
        let sr_bits: u64 = fp.of_int(self.sample_rate as u64);
        let prod: u64 = fp.mul(sr_bits, sec_bits);
        fp.to_int(prod)
    }
}

} // verus!
