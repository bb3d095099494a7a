//! Chunked world generation: seam seeding between chunks, the relaxation
//! ladder for chunks seeded from two sides, the sequential generation job,
//! the assembly of solved chunks into positioned cell records, the poll
//! state of a background run, and the integrity checks of save files.

pub mod shape;
pub mod model;
pub mod seam;
pub mod relax;
pub mod ladder;
pub mod adapter;
pub mod job;
pub mod assemble;
pub mod phase;
pub mod save;
