use vstd::prelude::*;

verus! {

/// Decoded audio: frame rate, frame count, channel count, bits per sample and the raw samples.
#[derive(Clone, Debug)]
pub struct Audio {
    pub frame_rate: u32,
    pub frame_count: u32,
    pub channel_count: u16,
    pub bits_per_sample: u16,
    pub samples: Vec<u8>,
}

impl Audio {
    /// Empty audio: every count zero and no samples.
    pub fn new() -> (r: Audio)
        ensures
            r.frame_rate == 0,
            r.frame_count == 0,
            r.channel_count == 0,
            r.bits_per_sample == 0,
            r.samples@.len() == 0,
    {
        Audio { frame_rate: 0, frame_count: 0, channel_count: 0, bits_per_sample: 0, samples: Vec::new() }
    }
}

} // verus!
