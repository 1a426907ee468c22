use vstd::prelude::*;

verus! {

/// The only channel count the transcriber accepts.
pub const REQUIRED_CHANNELS: u16 = 1;

/// The only sample rate, in Hz, the transcriber accepts.
pub const REQUIRED_SAMPLE_RATE: u32 = 16000;

/// What a WAV header says of the audio that follows it.
#[derive(Clone, Copy, Debug, PartialEq, Eq, Structural)]
pub struct AudioFormat {
    pub channels: u16,
    pub sample_rate: u32,
}

impl AudioFormat {
    /// Mono audio sampled at 16 kHz.
    pub open spec fn supported(&self) -> bool {
        self.channels == REQUIRED_CHANNELS && self.sample_rate == REQUIRED_SAMPLE_RATE
    }

    /// Whether the audio is mono and sampled at 16 kHz.
    pub fn is_supported(&self) -> (r: bool)
        ensures
            r == self.supported(),
    {
        self.channels == REQUIRED_CHANNELS && self.sample_rate == REQUIRED_SAMPLE_RATE
    }
}

/// Gathers decoded 16-bit samples in order. The first sample that failed to
/// decode fails the whole load: its index is returned.
pub fn collect_samples<E>(decoded: &Vec<Result<i16, E>>) -> (r: Result<Vec<i16>, usize>)
    ensures
        match r {
            Ok(v) => {
                &&& v@.len() == decoded@.len()
                &&& forall|i: int| 0 <= i < v@.len() ==> #[trigger] decoded@[i] == Ok::<i16, E>(v@[i])
            },
            Err(k) => {
                &&& k < decoded@.len()
                &&& decoded@[k as int] is Err
                &&& forall|i: int| 0 <= i < k ==> #[trigger] decoded@[i] is Ok
            },
        },
{
    let mut out: Vec<i16> = Vec::new();
    let mut i: usize = 0;
    while i < decoded.len()
        invariant
            i <= decoded@.len(),
            out@.len() == i,
            forall|j: int| 0 <= j < i ==> #[trigger] decoded@[j] == Ok::<i16, E>(out@[j]),
        decreases decoded.len() - i,
    {
        match &decoded[i] {
            Ok(s) => out.push(*s),
            Err(_) => {
                assert forall|j: int| 0 <= j < i implies #[trigger] decoded@[j] is Ok by {
                    assert(decoded@[j] == Ok::<i16, E>(out@[j]));
                }
                return Err(i);
            },
        }
        i = i + 1;
    }
    Ok(out)
}

} // verus!
