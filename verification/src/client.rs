//! Plain data carried to and from the image-transform service. The HTTP
//! transport itself is I/O plumbing and lives outside the library; these
//! types hold everything one invocation needs.
//!
//! Denoising strengths are integer thousandths of the service's unit scale:
//! the sweep advances in exact thousandth increments, so the integer form
//! loses nothing.

use vstd::prelude::*;

verus! {

/// One text-to-image invocation.
pub struct Txt2ImgRequest {
    pub prompt: String,
    pub negative_prompt: String,
    pub width: u32,
    pub height: u32,
    pub seed: Option<u32>,
}

/// One image-to-image invocation: transform `init_images[0]` under `prompt`,
/// altering it by `denoising_strength` thousandths.
pub struct Img2ImgRequest {
    pub init_images: Vec<String>,
    pub prompt: String,
    pub negative_prompt: String,
    pub denoising_strength: u32,
    pub width: u32,
    pub height: u32,
    pub seed: Option<u32>,
}

/// Where and how to reach the transform service; the access-control values
/// are opaque pass-through data.
#[derive(Clone)]
pub struct SdwebClientInfo {
    pub basepath: String,
    pub cf_access_client_id: Option<String>,
    pub cf_access_client_secret: Option<String>,
    pub host: String,
}

/// What the service answers: one or more encoded images; a run always takes
/// the first.
pub struct ImagesResponse {
    pub images: Vec<String>,
}

} // verus!
