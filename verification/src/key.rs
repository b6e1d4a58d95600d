use vstd::prelude::*;

verus! {

/// A 2D integer coordinate identifying one chunk of the world.
#[derive(Clone, Copy, PartialEq, Eq, Structural, Debug, Hash)]
pub struct ChunkKey {
    pub x: i32,
    pub y: i32,
}

impl ChunkKey {
    pub fn new(x: i32, y: i32) -> (r: ChunkKey)
        ensures
            r == (ChunkKey { x, y }),
    {
        ChunkKey { x, y }
    }
}

} // verus!
