//! The custom alpha-compositing blend configuration.
//!
//! The GUI engine's tessellator emits premultiplied-alpha pixels and expects
//! the "over" law `dst.rgb = src.rgb + dst.rgb * (1 - src.a)` and
//! `dst.a = src.a + dst.a * (1 - src.a)`.  No common built-in blend preset
//! expresses this (presets assume a non-premultiplied source), so the mode
//! is composed from the renderer's blend-factor and blend-operation
//! primitives as a value-level descriptor.  The host maps the descriptor to
//! the renderer's constants when it creates a texture.

use vstd::prelude::*;

verus! {

/// A multiplier applied to the source or destination term of a blend.
#[derive(Clone, Copy, Debug, PartialEq, Eq, Structural)]
pub enum BlendFactor {
    Zero,
    One,
    SrcColor,
    OneMinusSrcColor,
    SrcAlpha,
    OneMinusSrcAlpha,
    DstColor,
    OneMinusDstColor,
    DstAlpha,
    OneMinusDstAlpha,
}

/// How the weighted source and destination terms are combined.
#[derive(Clone, Copy, Debug, PartialEq, Eq, Structural)]
pub enum BlendOperation {
    Add,
    Subtract,
    RevSubtract,
    Minimum,
    Maximum,
}

/// A custom blend-mode descriptor: factors and operation, separately for the
/// color channels and the alpha channel.
#[derive(Clone, Copy, Debug, PartialEq, Eq, Structural)]
pub struct BlendMode {
    pub src_color_factor: BlendFactor,
    pub dst_color_factor: BlendFactor,
    pub color_operation: BlendOperation,
    pub src_alpha_factor: BlendFactor,
    pub dst_alpha_factor: BlendFactor,
    pub alpha_operation: BlendOperation,
}

/// The one blend mode the painter ever uses: straight "over" composition of
/// a premultiplied-alpha source, `dst.c = src.c * 1 + dst.c * (1 - src.a)`
/// on color and alpha alike.
pub open spec fn premultiplied_over() -> BlendMode {
    BlendMode {
        src_color_factor: BlendFactor::One,
        dst_color_factor: BlendFactor::OneMinusSrcAlpha,
        color_operation: BlendOperation::Add,
        src_alpha_factor: BlendFactor::One,
        dst_alpha_factor: BlendFactor::OneMinusSrcAlpha,
        alpha_operation: BlendOperation::Add,
    }
}

/// Build the premultiplied-alpha "over" blend descriptor.
pub fn compose_blend_mode() -> (m: BlendMode)
    ensures
        m == premultiplied_over(),
{
    BlendMode {
        src_color_factor: BlendFactor::One,
        dst_color_factor: BlendFactor::OneMinusSrcAlpha,
        color_operation: BlendOperation::Add,
        src_alpha_factor: BlendFactor::One,
        dst_alpha_factor: BlendFactor::OneMinusSrcAlpha,
        alpha_operation: BlendOperation::Add,
    }
}

/// The blend composition is canonical: any two composed descriptors are
/// equal, so every texture the painter creates carries the same blend mode.
pub proof fn lemma_blend_mode_canonical(a: BlendMode, b: BlendMode)
    requires
        a == premultiplied_over(),
        b == premultiplied_over(),
    ensures
        a == b,
{
}

} // verus!
