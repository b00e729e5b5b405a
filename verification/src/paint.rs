//! The painter and its per-frame primitive dispatch.
//!
//! `Painter::paint_and_update_textures` consumes one frame — an ordered list
//! of clipped primitives and a texture delta — updates the texture cache,
//! and returns the ordered list of render commands the host must issue
//! against its renderer: texture creations and region uploads first, then
//! one scissored draw or callback invocation per primitive in list order,
//! then the frees.  When the frame fails (a delta region out of bounds, a
//! mesh or a free naming an unknown texture) the returned commands are
//! exactly those up to the failure, so the host's render target is left
//! partially drawn just as the protocol prescribes, and the error names the
//! cause.

use vstd::prelude::*;

use crate::error::PainterError;
use crate::texture::ImageDelta;
use crate::texture::Texture;
use crate::texture::TextureCache;
use crate::texture::TextureId;
use crate::texture::TextureView;
use crate::texture::upsert_fits;
use crate::texture::upsert_map;

verus! {

/// An integer scissor rectangle in render-target pixel coordinates:
/// top-left corner and extent.
#[derive(Clone, Copy, Debug, PartialEq, Eq, Structural)]
pub struct ScissorRect {
    pub x: i32,
    pub y: i32,
    pub width: u32,
    pub height: u32,
}

/// What one clipped primitive draws: an indexed triangle mesh textured by
/// `Mesh`'s identifier, or an opaque host callback.  The mesh's vertex and
/// index buffers, and the callback's payload, stay with the host; the
/// painter decides only dispatch order, scissoring and texture lookup, and
/// names the primitive by its position in the frame's list.
#[derive(Clone, Copy, Debug, PartialEq, Eq, Structural)]
pub enum PrimitiveKind {
    Mesh(TextureId),
    Callback,
}

/// One drawable unit paired with its scissor rectangle.
#[derive(Clone, Copy, Debug, PartialEq, Eq, Structural)]
pub struct ClippedPrimitive {
    pub clip_rect: ScissorRect,
    pub kind: PrimitiveKind,
}

/// The per-frame texture delta: identifiers with image deltas to apply
/// before drawing, and identifiers to free after drawing.
#[derive(Clone, Debug)]
pub struct FrameDelta {
    pub set: Vec<(TextureId, ImageDelta)>,
    pub free: Vec<TextureId>,
}

impl FrameDelta {
    pub open spec fn wf(self) -> bool {
        forall|i: int| 0 <= i < self.set@.len() ==> (#[trigger] self.set@[i]).1.wf()
    }
}

/// One renderer call the host must issue, in list order.  `set_index` and
/// `prim_index` name the delta entry and the primitive the command came
/// from, so the host can fetch the pixel bytes, the vertex buffers or the
/// callback payload it kept.
#[derive(Clone, Copy, Debug, PartialEq, Eq, Structural)]
pub enum RenderCommand {
    /// Allocate a texture of the given size with the painter's blend mode.
    CreateTexture { id: TextureId, width: u32, height: u32 },
    /// Upload the pixel rows of set entry `set_index` into the given region.
    UploadTexture { id: TextureId, set_index: usize, x: u32, y: u32, width: u32, height: u32 },
    /// Scissor to `clip`, then draw primitive `prim_index`'s mesh with the
    /// named texture bound.
    DrawMesh { prim_index: usize, texture_id: TextureId, clip: ScissorRect },
    /// Scissor to `clip`, then invoke primitive `prim_index`'s callback.
    RunCallback { prim_index: usize, clip: ScissorRect },
    /// Destroy the renderer-side texture.
    FreeTexture { id: TextureId },
}

/// The delta's offset, origin when absent.
pub open spec fn delta_pos(d: ImageDelta) -> (u32, u32) {
    match d.pos {
        Some(p) => p,
        None => (0u32, 0u32),
    }
}

/// Applying the delta's set entries in order, starting at entry index `k`:
/// the cache afterwards, the creation and upload commands issued, and the
/// identifier whose delta region did not fit, if any — entries after it are
/// not applied.
pub open spec fn set_phase(
    m: Map<TextureId, TextureView>,
    sets: Seq<(TextureId, ImageDelta)>,
    k: int,
) -> (Map<TextureId, TextureView>, Seq<RenderCommand>, Option<TextureId>)
    decreases sets.len(),
{
    if sets.len() == 0 {
        (m, Seq::<RenderCommand>::empty(), None::<TextureId>)
    } else {
        let id = sets[0].0;
        let d = sets[0].1;
        let create_cmds: Seq<RenderCommand> = if m.contains_key(id) {
            Seq::empty()
        } else {
            seq![RenderCommand::CreateTexture { id, width: d.width, height: d.height }]
        };
        let m1 = upsert_map(m, id, d);
        if upsert_fits(m, id, d) {
            let cmds = create_cmds.push(
                RenderCommand::UploadTexture {
                    id,
                    set_index: k as usize,
                    x: delta_pos(d).0,
                    y: delta_pos(d).1,
                    width: d.width,
                    height: d.height,
                },
            );
            let rest = set_phase(m1, sets.drop_first(), k + 1);
            (rest.0, cmds + rest.1, rest.2)
        } else {
            (m1, create_cmds, Some(id))
        }
    }
}

/// Dispatching the primitives in list order, starting at primitive index
/// `j`, against the fixed cache `m`: the draw and callback commands issued,
/// and the texture identifier the first mesh with an unknown texture named,
/// if any — primitives after it are not dispatched.
pub open spec fn draw_phase(
    m: Map<TextureId, TextureView>,
    prims: Seq<ClippedPrimitive>,
    j: int,
) -> (Seq<RenderCommand>, Option<TextureId>)
    decreases prims.len(),
{
    if prims.len() == 0 {
        (Seq::<RenderCommand>::empty(), None::<TextureId>)
    } else {
        let p = prims[0];
        match p.kind {
            PrimitiveKind::Mesh(tid) => {
                if m.contains_key(tid) {
                    let rest = draw_phase(m, prims.drop_first(), j + 1);
                    (
                        seq![
                            RenderCommand::DrawMesh {
                                prim_index: j as usize,
                                texture_id: tid,
                                clip: p.clip_rect,
                            },
                        ] + rest.0,
                        rest.1,
                    )
                } else {
                    (Seq::<RenderCommand>::empty(), Some(tid))
                }
            },
            PrimitiveKind::Callback => {
                let rest = draw_phase(m, prims.drop_first(), j + 1);
                (
                    seq![
                        RenderCommand::RunCallback { prim_index: j as usize, clip: p.clip_rect },
                    ] + rest.0,
                    rest.1,
                )
            },
        }
    }
}

/// Applying the delta's free entries in order: the cache afterwards, the
/// free commands issued, and the first identifier not present, if any —
/// entries after it are not applied.
pub open spec fn free_phase(m: Map<TextureId, TextureView>, frees: Seq<TextureId>) -> (
    Map<TextureId, TextureView>,
    Seq<RenderCommand>,
    Option<TextureId>,
)
    decreases frees.len(),
{
    if frees.len() == 0 {
        (m, Seq::<RenderCommand>::empty(), None::<TextureId>)
    } else {
        let id = frees[0];
        if m.contains_key(id) {
            let rest = free_phase(m.remove(id), frees.drop_first());
            (rest.0, seq![RenderCommand::FreeTexture { id }] + rest.1, rest.2)
        } else {
            (m, Seq::<RenderCommand>::empty(), Some(id))
        }
    }
}

/// Whether the cache can resolve the primitive: a mesh needs its texture
/// present, a callback needs nothing.
pub open spec fn prim_resolvable(m: Map<TextureId, TextureView>, p: ClippedPrimitive) -> bool {
    match p.kind {
        PrimitiveKind::Mesh(tid) => m.contains_key(tid),
        PrimitiveKind::Callback => true,
    }
}

/// Deferred-free determinism, first half: dispatch runs against the cache
/// as it stands after the set phase and before any free, so every primitive
/// whose texture is in that cache draws — one command per primitive, in
/// list order — even when the same frame's delta frees that texture.
pub proof fn lemma_draws_unaffected_by_frees(
    m: Map<TextureId, TextureView>,
    prims: Seq<ClippedPrimitive>,
    j: int,
)
    requires
        forall|i: int| 0 <= i < prims.len() ==> prim_resolvable(m, #[trigger] prims[i]),
    ensures
        draw_phase(m, prims, j).1 == None::<TextureId>,
        draw_phase(m, prims, j).0.len() == prims.len(),
    decreases prims.len(),
{
    if prims.len() > 0 {
        assert forall|i: int| 0 <= i < prims.drop_first().len() implies prim_resolvable(
            m,
            #[trigger] prims.drop_first()[i],
        ) by {
            assert(prims.drop_first()[i] == prims[i + 1]);
        }
        lemma_draws_unaffected_by_frees(m, prims.drop_first(), j + 1);
    }
}

/// The free phase never adds a texture: whatever it leaves in the cache was
/// already there before the frees.
pub proof fn lemma_free_phase_shrinks(m: Map<TextureId, TextureView>, frees: Seq<TextureId>)
    ensures
        forall|k: TextureId| #[trigger]
            free_phase(m, frees).0.contains_key(k) ==> m.contains_key(k) && free_phase(
                m,
                frees,
            ).0[k] == m[k],
    decreases frees.len(),
{
    if frees.len() > 0 {
        let id = frees[0];
        if m.contains_key(id) {
            let m1 = m.remove(id);
            lemma_free_phase_shrinks(m1, frees.drop_first());
            assert(free_phase(m, frees).0 == free_phase(m1, frees.drop_first()).0);
            assert forall|k: TextureId| #[trigger]
                free_phase(m, frees).0.contains_key(k) implies m.contains_key(k) && free_phase(
                m,
                frees,
            ).0[k] == m[k] by {
                assert(free_phase(m1, frees.drop_first()).0.contains_key(k));
                assert(m1.contains_key(k) && free_phase(m1, frees.drop_first()).0[k] == m1[k]);
            }
        }
    }
}

/// Deferred-free determinism, second half: once a successful free phase has
/// run, every identifier it freed is absent from the cache — only after the
/// draws, which the first half shows all happened.
pub proof fn lemma_free_phase_removes_all(m: Map<TextureId, TextureView>, frees: Seq<TextureId>)
    requires
        free_phase(m, frees).2 == None::<TextureId>,
    ensures
        forall|i: int| 0 <= i < frees.len() ==> !free_phase(m, frees).0.contains_key(
            #[trigger] frees[i],
        ),
    decreases frees.len(),
{
    if frees.len() > 0 {
        let id = frees[0];
        assert(m.contains_key(id));
        let m1 = m.remove(id);
        lemma_free_phase_removes_all(m1, frees.drop_first());
        lemma_free_phase_shrinks(m1, frees.drop_first());
        assert forall|i: int| 0 <= i < frees.len() implies !free_phase(m, frees).0.contains_key(
            #[trigger] frees[i],
        ) by {
            if i == 0 {
                assert(!m1.contains_key(id));
            } else {
                assert(frees.drop_first()[i - 1] == frees[i]);
            }
        }
    }
}

/// The painter: it owns the texture cache and replays each frame of the GUI
/// engine's output as render commands.  Abstractly it is the cache's map
/// from texture identifier to texture contents.
pub struct Painter {
    cache: TextureCache,
}

impl View for Painter {
    type V = Map<TextureId, TextureView>;

    closed spec fn view(&self) -> Map<TextureId, TextureView> {
        self.cache@
    }
}

impl Painter {
    pub closed spec fn wf(self) -> bool {
        self.cache.wf()
    }

    /// Every texture the painter retains is well formed.
    pub proof fn lemma_textures_wf(self, id: TextureId)
        requires
            self.wf(),
            self@.contains_key(id),
        ensures
            self@[id].wf(),
    {
        self.cache.lemma_textures_wf(id);
    }

    /// A painter with an empty texture cache.
    pub fn new() -> (p: Painter)
        ensures
            p.wf(),
            p@ == Map::<TextureId, TextureView>::empty(),
    {
        Painter { cache: TextureCache::new() }
    }

    /// Apply one set-delta entry: create on first write, update the region
    /// in place afterwards.
    pub fn update_or_create_texture(&mut self, id: TextureId, delta: &ImageDelta) -> (r: Result<
        bool,
        PainterError,
    >)
        requires
            old(self).wf(),
            delta.wf(),
        ensures
            final(self).wf(),
            final(self)@ == upsert_map(old(self)@, id, *delta),
            r is Ok <==> upsert_fits(old(self)@, id, *delta),
            r matches Ok(created) ==> created == !old(self)@.contains_key(id),
            r matches Err(e) ==> e matches PainterError::TextureUpdateFailed(msg) && msg@
                == crate::error::region_out_of_bounds_msg(),
    {
        self.cache.upsert(id, delta)
    }

    /// Drop the texture for `id`; report whether it was present.
    pub fn free_texture(&mut self, id: TextureId) -> (r: bool)
        requires
            old(self).wf(),
        ensures
            final(self).wf(),
            r == old(self)@.contains_key(id),
            final(self)@ == old(self)@.remove(id),
            !r ==> final(self)@ == old(self)@,
    {
        self.cache.remove(id)
    }

    /// Replay one frame.  Applies the delta's set entries in order, then
    /// dispatches every primitive in list order against the updated cache,
    /// then applies the frees — deferred to the end so that a texture freed
    /// in this frame can still be drawn one last time by its primitives.
    ///
    /// Returns the render commands the host must issue, in order, and the
    /// error that aborted the frame, if any.  On an abort the commands are
    /// exactly those up to the failure: the host's render target is left
    /// with the earlier primitives drawn, as the protocol prescribes.
    #[verifier::rlimit(100)]
    pub fn paint_and_update_textures(
        &mut self,
        clipped_primitives: &Vec<ClippedPrimitive>,
        textures_delta: &FrameDelta,
    ) -> (r: (Vec<RenderCommand>, Option<PainterError>))
        requires
            old(self).wf(),
            textures_delta.wf(),
        ensures
            final(self).wf(),
            ({
                let sp = set_phase(old(self)@, textures_delta.set@, 0);
                match sp.2 {
                    Some(_) => final(self)@ == sp.0 && r.0@ == sp.1 && (r.1 matches Some(
                        PainterError::TextureUpdateFailed(msg),
                    ) && msg@ == crate::error::region_out_of_bounds_msg()),
                    None => {
                        let dp = draw_phase(sp.0, clipped_primitives@, 0);
                        match dp.1 {
                            Some(tid) => final(self)@ == sp.0 && r.0@ == sp.1 + dp.0 && r.1
                                == Some(PainterError::DrawUnknownTexture(tid)),
                            None => {
                                let fp = free_phase(sp.0, textures_delta.free@);
                                final(self)@ == fp.0 && r.0@ == sp.1 + dp.0 + fp.1 && r.1 == (
                                match fp.2 {
                                    Some(fid) => Some(PainterError::FreeUnknownTexture(fid)),
                                    None => None::<PainterError>,
                                })
                            },
                        }
                    },
                }
            }),
    {
        let mut cmds: Vec<RenderCommand> = Vec::new();
        proof {
            assert(textures_delta.set@.skip(0) =~= textures_delta.set@);
            let rest = set_phase(self@, textures_delta.set@, 0);
            assert(Seq::<RenderCommand>::empty() + rest.1 =~= rest.1);
        }
        let mut i: usize = 0;
        while i < textures_delta.set.len()
            invariant
                self.wf(),
                textures_delta.wf(),
                i <= textures_delta.set@.len(),
                ({
                    let full = set_phase(old(self)@, textures_delta.set@, 0);
                    let rest = set_phase(self@, textures_delta.set@.skip(i as int), i as int);
                    full.0 == rest.0 && full.1 == cmds@ + rest.1 && full.2 == rest.2
                }),
            decreases textures_delta.set@.len() - i,
        {
            let ghost sets = textures_delta.set@;
            let ghost pre_m = self@;
            let ghost pre_cmds = cmds@;
            let entry = &textures_delta.set[i];
            let id = entry.0;
            proof {
                assert(sets.skip(i as int)[0] == sets[i as int]);
                assert(sets.skip(i as int).drop_first() =~= sets.skip(i as int + 1));
                assert(sets[i as int].1.wf());
            }
            let ghost create_cmds: Seq<RenderCommand> = if pre_m.contains_key(id) {
                Seq::empty()
            } else {
                seq![RenderCommand::CreateTexture { id, width: entry.1.width, height: entry.1.height }]
            };
            if !self.cache.contains(id) {
                cmds.push(
                    RenderCommand::CreateTexture {
                        id,
                        width: entry.1.width,
                        height: entry.1.height,
                    },
                );
            }
            match self.cache.upsert(id, &entry.1) {
                Ok(_) => {
                    let (px, py) = match entry.1.pos {
                        Some(p) => p,
                        None => (0u32, 0u32),
                    };
                    let upload = RenderCommand::UploadTexture {
                        id,
                        set_index: i,
                        x: px,
                        y: py,
                        width: entry.1.width,
                        height: entry.1.height,
                    };
                    cmds.push(upload);
                    proof {
                        let rest_old = set_phase(pre_m, sets.skip(i as int), i as int);
                        let rest_new = set_phase(self@, sets.skip(i as int + 1), i as int + 1);
                        assert(cmds@ =~= pre_cmds + create_cmds.push(upload));
                        assert(rest_old.1 == create_cmds.push(upload) + rest_new.1);
                        assert(pre_cmds + (create_cmds.push(upload) + rest_new.1) =~= (pre_cmds
                            + create_cmds.push(upload)) + rest_new.1);
                    }
                    i += 1;
                },
                Err(e) => {
                    proof {
                        let rest_old = set_phase(pre_m, sets.skip(i as int), i as int);
                        assert(cmds@ =~= pre_cmds + create_cmds);
                        assert(rest_old.1 == create_cmds);
                        assert(rest_old.2 == Some(id));
                    }
                    return (cmds, Some(e));
                },
            }
        }
        proof {
            assert(textures_delta.set@.skip(textures_delta.set@.len() as int) =~= Seq::<
                (TextureId, ImageDelta),
            >::empty());
            let full = set_phase(old(self)@, textures_delta.set@, 0);
            assert(cmds@ + Seq::<RenderCommand>::empty() =~= cmds@);
            assert(full.0 == self@ && full.1 == cmds@ && full.2 == None::<TextureId>);
        }

        let ghost m1 = self@;
        let mut dcmds: Vec<RenderCommand> = Vec::new();
        proof {
            assert(clipped_primitives@.skip(0) =~= clipped_primitives@);
            let rest = draw_phase(m1, clipped_primitives@, 0);
            assert(Seq::<RenderCommand>::empty() + rest.0 =~= rest.0);
        }
        let mut j: usize = 0;
        while j < clipped_primitives.len()
            invariant
                self.wf(),
                self@ == m1,
                j <= clipped_primitives@.len(),
                ({
                    let sp = set_phase(old(self)@, textures_delta.set@, 0);
                    sp.0 == m1 && sp.1 == cmds@ && sp.2 == None::<TextureId>
                }),
                ({
                    let full = draw_phase(m1, clipped_primitives@, 0);
                    let rest = draw_phase(m1, clipped_primitives@.skip(j as int), j as int);
                    full.0 == dcmds@ + rest.0 && full.1 == rest.1
                }),
            decreases clipped_primitives@.len() - j,
        {
            let ghost prims = clipped_primitives@;
            let ghost pre_dcmds = dcmds@;
            let p = clipped_primitives[j];
            proof {
                assert(prims.skip(j as int)[0] == prims[j as int]);
                assert(prims.skip(j as int).drop_first() =~= prims.skip(j as int + 1));
            }
            match p.kind {
                PrimitiveKind::Mesh(tid) => {
                    if self.cache.contains(tid) {
                        let draw = RenderCommand::DrawMesh {
                            prim_index: j,
                            texture_id: tid,
                            clip: p.clip_rect,
                        };
                        dcmds.push(draw);
                        proof {
                            let rest_new = draw_phase(m1, prims.skip(j as int + 1), j as int + 1);
                            assert(dcmds@ =~= pre_dcmds + seq![draw]);
                            assert(pre_dcmds + (seq![draw] + rest_new.0) =~= (pre_dcmds
                                + seq![draw]) + rest_new.0);
                        }
                    } else {
                        proof {
                            let rest = draw_phase(m1, prims.skip(j as int), j as int);
                            assert(rest.0 =~= Seq::<RenderCommand>::empty());
                            assert(dcmds@ + rest.0 =~= dcmds@);
                        }
                        let mut all = cmds;
                        all.append(&mut dcmds);
                        return (all, Some(PainterError::DrawUnknownTexture(tid)));
                    }
                },
                PrimitiveKind::Callback => {
                    let run = RenderCommand::RunCallback { prim_index: j, clip: p.clip_rect };
                    dcmds.push(run);
                    proof {
                        let rest_new = draw_phase(m1, prims.skip(j as int + 1), j as int + 1);
                        assert(dcmds@ =~= pre_dcmds + seq![run]);
                        assert(pre_dcmds + (seq![run] + rest_new.0) =~= (pre_dcmds + seq![run])
                            + rest_new.0);
                    }
                },
            }
            j += 1;
        }
        proof {
            assert(clipped_primitives@.skip(clipped_primitives@.len() as int) =~= Seq::<
                ClippedPrimitive,
            >::empty());
            let full = draw_phase(m1, clipped_primitives@, 0);
            assert(dcmds@ + Seq::<RenderCommand>::empty() =~= dcmds@);
            assert(full.0 == dcmds@ && full.1 == None::<TextureId>);
        }

        let mut fcmds: Vec<RenderCommand> = Vec::new();
        proof {
            assert(textures_delta.free@.skip(0) =~= textures_delta.free@);
            let rest = free_phase(self@, textures_delta.free@);
            assert(Seq::<RenderCommand>::empty() + rest.1 =~= rest.1);
        }
        let mut k: usize = 0;
        while k < textures_delta.free.len()
            invariant
                self.wf(),
                k <= textures_delta.free@.len(),
                ({
                    let sp = set_phase(old(self)@, textures_delta.set@, 0);
                    let dp = draw_phase(sp.0, clipped_primitives@, 0);
                    sp.0 == m1 && sp.1 == cmds@ && sp.2 == None::<TextureId> && dp.0 == dcmds@
                        && dp.1 == None::<TextureId>
                }),
                ({
                    let full = free_phase(m1, textures_delta.free@);
                    let rest = free_phase(self@, textures_delta.free@.skip(k as int));
                    full.0 == rest.0 && full.1 == fcmds@ + rest.1 && full.2 == rest.2
                }),
            decreases textures_delta.free@.len() - k,
        {
            let ghost frees = textures_delta.free@;
            let ghost pre_m = self@;
            let ghost pre_fcmds = fcmds@;
            let id = textures_delta.free[k];
            proof {
                assert(frees.skip(k as int)[0] == frees[k as int]);
                assert(frees.skip(k as int).drop_first() =~= frees.skip(k as int + 1));
            }
            if self.cache.remove(id) {
                let freed = RenderCommand::FreeTexture { id };
                fcmds.push(freed);
                proof {
                    let rest_new = free_phase(self@, frees.skip(k as int + 1));
                    assert(fcmds@ =~= pre_fcmds + seq![freed]);
                    assert(pre_fcmds + (seq![freed] + rest_new.1) =~= (pre_fcmds + seq![freed])
                        + rest_new.1);
                }
                k += 1;
            } else {
                proof {
                    let rest = free_phase(pre_m, frees.skip(k as int));
                    assert(rest.1 =~= Seq::<RenderCommand>::empty());
                    assert(fcmds@ + rest.1 =~= fcmds@);
                }
                let mut all = cmds;
                all.append(&mut dcmds);
                all.append(&mut fcmds);
                return (all, Some(PainterError::FreeUnknownTexture(id)));
            }
        }
        proof {
            assert(textures_delta.free@.skip(textures_delta.free@.len() as int) =~= Seq::<
                TextureId,
            >::empty());
        }
        let mut all = cmds;
        all.append(&mut dcmds);
        all.append(&mut fcmds);
        (all, None)
    }

    /// Read-only lookup into the texture table, for the dispatcher and for
    /// host callbacks.
    pub fn get_texture(&self, id: TextureId) -> (r: Option<&Texture>)
        requires
            self.wf(),
        ensures
            match r {
                Some(t) => self@.contains_key(id) && t@ == self@[id] && t.wf(),
                None => !self@.contains_key(id),
            },
    {
        self.cache.get(id)
    }
}

} // verus!

