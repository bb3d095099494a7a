use vstd::prelude::*;

verus! {

/// Quarter-turn orientation that the solver chose for a cell's model.
#[derive(Clone, Copy, Debug, PartialEq, Eq, Structural)]
pub enum Rotation {
    Rot0,
    Rot90,
    Rot180,
    Rot270,
}

/// The solver's choice for one cell. The engine never interprets it; it only
/// copies it between neighbouring chunks and hands it to the spawner.
#[derive(Clone, Copy, Debug, PartialEq, Eq, Structural)]
pub struct ModelAssignment {
    pub model_index: usize,
    pub rotation: Rotation,
}

/// Bit set of the six faces of a cell, one bit per face direction.
pub const ALL_FACES: u8 = 0x3f;

/// Number of face directions of a cell.
pub const FACE_COUNT: u8 = 6;

/// A cell pinned before solving, with the faces whose compatibility is
/// imposed from outside the chunk (bit `d` of `faces` stands for direction `d`).
#[derive(Clone, Copy, Debug, PartialEq, Eq, Structural)]
pub struct SeedEntry {
    pub x: u32,
    pub y: u32,
    pub z: u32,
    pub model: ModelAssignment,
    pub faces: u8,
}

/// One solved chunk: its coordinate, its grid (one assignment per cell,
/// row-major), the corner radius it needed (0 when it was solved with every
/// seam seed), and the world offset of its lower-left corner in half tiles,
/// chosen so that the stitched world is centred on the origin.
#[derive(Clone, Debug)]
pub struct ChunkResult {
    pub cx: u32,
    pub cy: u32,
    pub radius: u32,
    pub cells: Vec<ModelAssignment>,
    pub offset_x: i64,
    pub offset_y: i64,
}

} // verus!
