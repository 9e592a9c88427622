//! Frames: immutable image bytes with a per-source sequence number.

use vstd::prelude::*;

verus! {

/// One ingested image.
#[derive(Debug, PartialEq, Eq)]
pub struct Frame {
    /// The image bytes, exactly as ingested.
    pub bytes: Vec<u8>,
    /// Position of this frame among the frames of its source, from 0.
    pub seq: u64,
    /// Tick at which the frame was ingested.
    pub ingested_at: u64,
}

/// What a frame is: its bytes, its sequence number and its ingestion tick.
pub struct FrameView {
    pub bytes: Seq<u8>,
    pub seq: u64,
    pub ingested_at: u64,
}

impl View for Frame {
    type V = FrameView;

    open spec fn view(&self) -> FrameView {
        FrameView { bytes: self.bytes@, seq: self.seq, ingested_at: self.ingested_at }
    }
}

/// The views of a list of frames, in order.
pub open spec fn frame_views(frames: Seq<Frame>) -> Seq<FrameView> {
    Seq::new(frames.len(), |i: int| frames[i]@)
}

/// A fresh vector holding the same bytes.
pub fn copy_bytes(bytes: &Vec<u8>) -> (r: Vec<u8>)
    ensures
        r@ == bytes@,
{
    let mut r: Vec<u8> = Vec::new();
    let mut i: usize = 0;
    while i < bytes.len()
        invariant
            i <= bytes@.len(),
            r@ == bytes@.subrange(0, i as int),
        decreases bytes@.len() - i,
    {
        r.push(bytes[i]);
        i += 1;
        assert(r@ =~= bytes@.subrange(0, i as int));
    }
    assert(bytes@.subrange(0, bytes@.len() as int) =~= bytes@);
    r
}

impl Frame {
    /// An independent snapshot of this frame: same bytes, same numbers,
    /// sharing no buffer with this one.
    pub fn duplicate(&self) -> (r: Frame)
        ensures
            r@ == self@,
    {
        Frame { bytes: copy_bytes(&self.bytes), seq: self.seq, ingested_at: self.ingested_at }
    }
}

} // verus!
