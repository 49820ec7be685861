pub mod color;
pub mod cue;
pub mod rewrite;
pub mod correction;
pub mod sampler;
pub mod pipeline;
