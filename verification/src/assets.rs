//! Animation timing data.
//!
//! A `Frame` names one frame of an animated texture and how long it shows.
//! The core only computes frame tables; loading and drawing textures is an
//! interface concern.

use vstd::prelude::*;

verus! {

/// One animation frame: which frame image, and for how many milliseconds.
#[derive(Clone, Copy, Debug, PartialEq, Eq, Structural)]
pub struct Frame {
    pub id: u8,
    pub length: u64,
}

impl Frame {
    pub fn new(id: u8, length: u64) -> (r: Self)
        ensures
            r == (Frame { id, length }),
    {
        Frame { id, length }
    }

    /// A run of `num_frames` equally long frames, numbered from zero.
    pub fn multiple(length_per_frame: u64, num_frames: u8) -> (r: Vec<Frame>)
        ensures
            r@.len() == num_frames,
            forall|i: int| 0 <= i < num_frames ==> r@[i] == (Frame {
                id: i as u8,
                length: length_per_frame,
            }),
    {
        let mut vec: Vec<Frame> = Vec::new();
        let mut i: u8 = 0;
        while i < num_frames
            invariant
                i <= num_frames,
                vec@.len() == i,
                forall|j: int| 0 <= j < i ==> vec@[j] == (Frame {
                    id: j as u8,
                    length: length_per_frame,
                }),
            decreases num_frames - i,
        {
            vec.push(Frame { id: i, length: length_per_frame });
            i = i + 1;
        }
        vec
    }
}

} // verus!
