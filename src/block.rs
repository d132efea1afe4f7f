use vstd::prelude::*;

verus! {

/// Channel count stamped on every output buffer.
pub const OUTPUT_CHANNELS: u16 = 2;

/// Sample rate stamped on every output buffer.
pub const OUTPUT_SAMPLE_RATE: u32 = 44100;

/// Why a block refused to produce an output buffer.
#[derive(Clone, Copy, Debug, PartialEq, Eq, Structural)]
pub enum BlockError {
    /// A parameter makes the effect meaningless: a factor of zero with no
    /// variation, or a range whose start lies above its end.
    InvalidParameters,
    /// A stutter was requested on a source that holds no sample.
    EmptySource,
    /// A drawn stutter duration does not fit inside the source.
    SourceTooShort,
}

/// The finished result of a signal block: samples in order, stamped with a
/// channel count and a sample rate.
pub struct OutputBuffer<S> {
    pub channels: u16,
    pub sample_rate: u32,
    pub samples: Vec<S>,
}

impl<S> OutputBuffer<S> {
    /// Wraps `samples`, stamping them with the fixed output channel count and rate.
    pub fn restamped(samples: Vec<S>) -> (r: OutputBuffer<S>)
        ensures
            r.channels == OUTPUT_CHANNELS,
            r.sample_rate == OUTPUT_SAMPLE_RATE,
            r.samples@ == samples@,
    {
        OutputBuffer { channels: OUTPUT_CHANNELS, sample_rate: OUTPUT_SAMPLE_RATE, samples }
    }

    pub fn channels(&self) -> (r: u16)
        ensures
            r == self.channels,
    {
        self.channels
    }

    pub fn sample_rate(&self) -> (r: u32)
        ensures
            r == self.sample_rate,
    {
        self.sample_rate
    }

    pub fn len(&self) -> (r: usize)
        ensures
            r == self.samples@.len(),
    {
        self.samples.len()
    }

    /// Gives up the buffer, handing back its samples.
    pub fn into_samples(self) -> (r: Vec<S>)
        ensures
            r@ == self.samples@,
    {
        self.samples
    }
}

/// True when `b` carries the fixed output stamp.
pub open spec fn is_restamped<S>(b: OutputBuffer<S>) -> bool {
    b.channels == OUTPUT_CHANNELS && b.sample_rate == OUTPUT_SAMPLE_RATE
}

/// A signal block: consumes a sequence of samples taken at `sample_rate`
/// samples per second and produces a transformed buffer.
pub trait SignalBlock {
    fn process<S: Copy>(&self, samples: Vec<S>, sample_rate: u32, rng: &mut rand::rngs::StdRng) -> (r: Result<
        OutputBuffer<S>,
        BlockError,
    >)
        ensures
            r matches Ok(b) ==> is_restamped(b),
    ;
}

} // verus!
