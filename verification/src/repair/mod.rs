//! What is done to a merged landmass before it is written out.

pub mod cleaning;
pub mod debugging;
pub mod seam_detection;
