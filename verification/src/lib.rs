//! Template matching for screen automation: locate a small reference image
//! inside a captured frame, score the placement, and decide how a polling wait
//! proceeds. All arithmetic is exact integer arithmetic.

pub mod adb_commands;
pub mod correlate;
pub mod cv;
pub mod inputer;
pub mod luma;
pub mod normalize;
pub mod region;
pub mod score;
pub mod screenshoter;
pub mod structs;
pub mod wide;
