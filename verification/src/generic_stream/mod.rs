pub mod chain;
pub mod advance;
pub mod segments;
pub mod loader;
pub mod parameter;
pub mod segment_iter;
pub mod stream;
