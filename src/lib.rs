pub mod bitmap;
pub mod digit;
pub mod grid;
pub mod range;
pub mod solution;
pub mod variants;
