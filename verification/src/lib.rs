//! A verified frame painter for an immediate-mode GUI.
//!
//! Each frame the GUI engine hands the painter a texture delta (texture
//! creations, partial updates and frees) and an ordered list of clipped
//! primitives.  The painter maintains a cache of texture contents and turns
//! the frame into an ordered list of render commands for a retained-mode
//! 2D renderer: uploads first, then one draw per primitive in list order,
//! then the frees.  Frees are deferred to the end of the frame because a
//! primitive earlier in the same frame may still reference a texture that
//! is slated for deletion.
//!
//! Everything the painter decides — which textures are created, where a
//! partial update lands, which primitive aborts the frame — is verified
//! here.  The host side (an accelerated renderer and the GUI engine's own
//! types) executes the command list.

pub mod blend;
pub mod error;
pub mod paint;
pub mod texture;

pub use blend::BlendFactor;
pub use blend::BlendMode;
pub use blend::BlendOperation;
pub use blend::compose_blend_mode;
pub use error::PainterError;
pub use paint::ClippedPrimitive;
pub use paint::FrameDelta;
pub use paint::Painter;
pub use paint::PrimitiveKind;
pub use paint::RenderCommand;
pub use paint::ScissorRect;
pub use texture::ImageDelta;
pub use texture::Texture;
pub use texture::TextureCache;
pub use texture::TextureId;
