use vstd::prelude::*;

verus! {

/// One decoded frame as received from the bus: the raw identifier word
/// (including any addressing-mode flag bits), the payload length, the
/// payload bytes, and the framing flags.
pub struct FrameRecord {
    pub identifier: u32,
    pub length: usize,
    pub payload: Vec<u8>,
    pub extended: bool,
    pub is_error_frame: bool,
}

impl FrameRecord {
    /// The frame-identity key: two frames with the same raw identifier word
    /// and the same length are occurrences of the same logical signal.
    pub open spec fn spec_key(self) -> (u32, usize) {
        (self.identifier, self.length)
    }

    pub fn key(&self) -> (k: (u32, usize))
        ensures
            k == self.spec_key(),
    {
        (self.identifier, self.length)
    }
}

} // verus!
