//! The painter's error taxonomy.
//!
//! Every error is non-retryable within the frame that raised it: each one
//! signals either a genuine backend limitation or a protocol desync between
//! the GUI engine's delta stream and the painter's cache.

use vstd::prelude::*;

use crate::texture::TextureId;

verus! {

/// Why a paint call, or one cache operation, failed.
#[derive(Clone, Debug)]
pub enum PainterError {
    /// The bound renderer cannot draw textured indexed triangles at all.
    GeometryUnsupported,
    /// An opaque renderer-level failure while issuing a draw or scissor call.
    BackendError(String),
    /// The renderer, or the cache itself, rejected a texture region write;
    /// the underlying cause is attached.
    TextureUpdateFailed(String),
    /// The renderer failed to allocate a new texture; the cause is attached.
    TextureCreateFailed(String),
    /// A free-delta entry named an identifier not present in the cache.
    FreeUnknownTexture(TextureId),
    /// A mesh primitive named an identifier not present in the cache.
    DrawUnknownTexture(TextureId),
    /// The renderer rejected the custom blend composition.
    BlendModeUnsupported,
}

/// The cause attached when an update's region does not lie within the
/// texture it addresses.
pub open spec fn region_out_of_bounds_msg() -> Seq<char> {
    "texture update region out of bounds"@
}

} // verus!
