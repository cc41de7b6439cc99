use vstd::prelude::*;

verus! {

/// A run of 16-bit little-endian PCM samples, read one sample at a time.
#[derive(Debug)]
pub struct PcmSource {
    data: Vec<u8>,
    position: usize,
    sample_rate: u32,
    channels: u16,
}

/// The signed 16-bit sample whose little-endian bytes are `lo`, `hi`.
pub open spec fn le_sample(lo: u8, hi: u8) -> i16 {
    let u = lo + 256 * hi;
    if u < 32768 {
        u as i16
    } else {
        (u - 65536) as i16
    }
}

impl PcmSource {
    /// No more bytes are read than there are.
    #[verifier::type_invariant]
    spec fn read_within_bytes(&self) -> bool {
        self.position <= self.data@.len()
    }

    /// The bytes of the samples.
    pub closed spec fn bytes(&self) -> Seq<u8> {
        self.data@
    }

    /// How many bytes have been read.
    pub closed spec fn read_pos(&self) -> int {
        self.position as int
    }

    pub closed spec fn spec_sample_rate(&self) -> u32 {
        self.sample_rate
    }

    pub closed spec fn spec_channels(&self) -> u16 {
        self.channels
    }

    /// A source over `data`, read from its first byte.
    pub fn new(data: Vec<u8>, sample_rate: u32, channels: u16) -> (r: PcmSource)
        ensures
            r.bytes() == data@,
            r.read_pos() == 0,
            r.spec_sample_rate() == sample_rate,
            r.spec_channels() == channels,
            r.read_pos() <= r.bytes().len(),
    {
        PcmSource { data, position: 0, sample_rate, channels }
    }

    /// The number of interleaved channels.
    pub fn channels(&self) -> (r: u16)
        ensures
            r == self.spec_channels(),
    {
        self.channels
    }

    /// Samples per second.
    pub fn sample_rate(&self) -> (r: u32)
        ensures
            r == self.spec_sample_rate(),
    {
        self.sample_rate
    }

    /// Samples per channel in the whole source: the bytes, two to a sample,
    /// shared out over the channels.
    pub fn total_samples(&self) -> (r: usize)
        requires
            self.spec_channels() > 0,
        ensures
            r == self.bytes().len() / 2 / (self.spec_channels() as nat),
    {
        self.data.len() / 2 / (self.channels as usize)
    }

    /// The next sample: the next two bytes, low byte first, where two are
    /// left; otherwise nothing, and nothing from then on.
    pub fn next_sample(&mut self) -> (r: Option<i16>)
        ensures
            final(self).bytes() == old(self).bytes(),
            final(self).spec_sample_rate() == old(self).spec_sample_rate(),
            final(self).spec_channels() == old(self).spec_channels(),
            final(self).read_pos() <= final(self).bytes().len(),
            ({
                let p = old(self).read_pos();
                let b = old(self).bytes();
                if p + 2 <= b.len() {
                    r == Some(le_sample(b[p], b[p + 1])) && final(self).read_pos() == p + 2
                } else {
                    r is None && final(self).read_pos() == b.len()
                }
            }),
    {
        proof {
            use_type_invariant(&*self);
        }
        let len = self.data.len();
        if self.position < len && len - self.position >= 2 {
            let lo = self.data[self.position];
            let hi = self.data[self.position + 1];
            self.position = self.position + 2;
            let u: u32 = lo as u32 + 256 * (hi as u32);
            let s: i16 = if u < 32768 {
                u as i16
            } else {
                (u as i32 - 65536) as i16
            };
            Some(s)
        } else {
            self.position = len;
            None
        }
    }
}

} // verus!
