//! A molecular-structure composition engine.
//!
//! Structures are built by stacking immutable edit operations ("layers")
//! over a base molecule and re-materializing the result on demand. The
//! library holds the sparse structure model and its layer algebra, the
//! layer store with stack materialization, and the workflow bookkeeping
//! that drives step-by-step construction. File handling, process control
//! and floating-point geometry stay outside the library; coordinates are
//! carried through it as opaque 64-bit words.

#![verifier::loop_isolation(false)]

pub mod chemistry;
pub mod group_name;
pub mod layer;
pub mod output;
pub mod workspace;
pub mod sparse_molecule;
pub mod substituent;
pub mod text;
pub mod workflow_data;
