//! The image data a cache entry holds: frames with pixel buffers and delays.

use vstd::prelude::*;

verus! {

/// One decoded frame: a pixel buffer and the delay, in milliseconds, before
/// the next frame of an animated image is shown.
#[derive(Clone)]
pub struct Image {
    pub buffer: Vec<u8>,
    pub delay_ms: u64,
}

/// The mathematical content of a frame.
#[verifier::ext_equal]
pub ghost struct ImageView {
    pub buffer: Seq<u8>,
    pub delay_ms: u64,
}

impl View for Image {
    type V = ImageView;

    open spec fn view(&self) -> ImageView {
        ImageView { buffer: self.buffer@, delay_ms: self.delay_ms }
    }
}

impl Image {
    /// A static frame: no delay.
    pub fn new(buffer: Vec<u8>) -> (r: Image)
        ensures
            r@.buffer == buffer@,
            r@.delay_ms == 0,
    {
        Image { buffer, delay_ms: 0 }
    }

    /// A frame of an animated image, shown for `delay_ms` milliseconds.
    pub fn with_delay(buffer: Vec<u8>, delay_ms: u64) -> (r: Image)
        ensures
            r@.buffer == buffer@,
            r@.delay_ms == delay_ms,
    {
        Image { buffer, delay_ms }
    }

    /// The frame's pixel buffer.
    pub fn buffer(&self) -> (r: &Vec<u8>)
        ensures
            r@ == self@.buffer,
    {
        &self.buffer
    }

    /// Mutable access to the frame's pixel buffer.
    pub fn buffer_mut(&mut self) -> (r: &mut Vec<u8>)
        ensures
            r@ == old(self)@.buffer,
            final(self)@.buffer == final(r)@,
            final(self)@.delay_ms == old(self)@.delay_ms,
    {
        &mut self.buffer
    }
}

/// A cache entry: the ordered frames of a decoded image, one frame for a
/// static image, many for an animated one.
#[derive(Clone)]
pub struct ImageData {
    pub frames: Vec<Image>,
}

impl View for ImageData {
    type V = Seq<ImageView>;

    open spec fn view(&self) -> Seq<ImageView> {
        self.frames@.map(|i: int, f: Image| f@)
    }
}

/// The byte size of one frame: the length of its pixel buffer.
pub open spec fn frame_size(f: ImageView) -> nat {
    f.buffer.len()
}

/// The byte size of an entry: the sum of the byte lengths of all its frames'
/// pixel buffers.
pub open spec fn entry_size(frames: Seq<ImageView>) -> nat
    decreases frames.len(),
{
    if frames.len() == 0 {
        0
    } else {
        entry_size(frames.drop_last()) + frame_size(frames.last())
    }
}

/// What measuring an entry yields: its byte size, capped at what a machine
/// word can count.
pub open spec fn measured_size(frames: Seq<ImageView>) -> nat {
    if entry_size(frames) <= usize::MAX {
        entry_size(frames)
    } else {
        usize::MAX as nat
    }
}

proof fn lemma_entry_size_take_step(frames: Seq<ImageView>, i: int)
    requires
        0 <= i < frames.len(),
    ensures
        entry_size(frames.take(i + 1)) == entry_size(frames.take(i)) + frame_size(frames[i]),
{
    assert(frames.take(i + 1).drop_last() =~= frames.take(i));
    assert(frames.take(i + 1).last() == frames[i]);
}

impl ImageData {
    /// An entry made of the given frames.
    pub fn new(frames: Vec<Image>) -> (r: ImageData)
        ensures
            r@ == frames@.map(|i: int, f: Image| f@),
    {
        ImageData { frames }
    }

    /// Measures the entry: the sum of the byte lengths of all frame pixel
    /// buffers, capped at `usize::MAX` so the count cannot wrap.
    pub fn size(&self) -> (r: usize)
        ensures
            r as nat == measured_size(self@),
    {
        let mut total: usize = 0;
        let mut i: usize = 0;
        while i < self.frames.len()
            invariant
                i <= self.frames.len(),
                self@.len() == self.frames.len(),
                total as nat == measured_size(self@.take(i as int)),
            decreases self.frames.len() - i,
        {
            let len: usize = self.frames[i].buffer.len();
            proof {
                lemma_entry_size_take_step(self@, i as int);
                assert(self@[i as int] == self.frames@[i as int]@);
            }
            if total > usize::MAX - len {
                total = usize::MAX;
            } else {
                total = total + len;
            }
            i = i + 1;
        }
        proof {
            assert(self@.take(self.frames.len() as int) =~= self@);
        }
        total
    }
}

/// The delay of one animation frame in whole milliseconds, from the ratio of
/// milliseconds a decoder reports: the numerator divided by the denominator,
/// rounded toward zero.
pub fn frame_delay_millis(numer: u32, denom: u32) -> (r: u64)
    requires
        denom != 0,
    ensures
        r == numer as u64 / denom as u64,
{
    (numer / denom) as u64
}

} // verus!
