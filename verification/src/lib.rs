//! Morph orchestration: derives the deterministic sequence of image-transform
//! invocations (prompt, denoising strength, output path) that cross-fades one
//! prompt preset into the next over a single evolving source image.

pub mod client;
pub mod paths;
pub mod plan;
pub mod prompts;
