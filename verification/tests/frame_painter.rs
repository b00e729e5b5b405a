use egui_sdl2_renderer::BlendFactor;
use egui_sdl2_renderer::BlendOperation;
use egui_sdl2_renderer::ClippedPrimitive;
use egui_sdl2_renderer::FrameDelta;
use egui_sdl2_renderer::ImageDelta;
use egui_sdl2_renderer::Painter;
use egui_sdl2_renderer::PainterError;
use egui_sdl2_renderer::PrimitiveKind;
use egui_sdl2_renderer::RenderCommand;
use egui_sdl2_renderer::ScissorRect;
use egui_sdl2_renderer::TextureId;
use egui_sdl2_renderer::compose_blend_mode;

const RED: u32 = 0xff00_00ff;

fn uniform_delta(pos: Option<(u32, u32)>, width: u32, height: u32, pixel: u32) -> ImageDelta {
    let pixels = vec![vec![pixel; width as usize]; height as usize];
    ImageDelta { pos, width, height, pixels }
}

fn clip(width: u32, height: u32) -> ScissorRect {
    ScissorRect { x: 0, y: 0, width, height }
}

fn mesh(id: TextureId, width: u32, height: u32) -> ClippedPrimitive {
    ClippedPrimitive { clip_rect: clip(width, height), kind: PrimitiveKind::Mesh(id) }
}

#[test]
fn blend_mode_equal_across_calls() {
    let a = compose_blend_mode();
    let b = compose_blend_mode();
    assert_eq!(a, b);
    assert_eq!(a.src_color_factor, BlendFactor::One);
    assert_eq!(a.dst_color_factor, BlendFactor::OneMinusSrcAlpha);
    assert_eq!(a.color_operation, BlendOperation::Add);
    assert_eq!(a.src_alpha_factor, BlendFactor::One);
    assert_eq!(a.dst_alpha_factor, BlendFactor::OneMinusSrcAlpha);
    assert_eq!(a.alpha_operation, BlendOperation::Add);
}

#[test]
fn create_sets_size_and_contents() {
    let mut p = Painter::new();
    let id = TextureId::Managed(7);
    let created = p.update_or_create_texture(id, &uniform_delta(None, 2, 3, RED)).unwrap();
    assert!(created);
    let t = p.get_texture(id).unwrap();
    assert_eq!(t.width, 2);
    assert_eq!(t.height, 3);
    for row in &t.pixels {
        assert_eq!(row, &vec![RED, RED]);
    }
}

#[test]
fn update_keeps_size() {
    let mut p = Painter::new();
    let id = TextureId::User(1);
    p.update_or_create_texture(id, &uniform_delta(None, 2, 2, RED)).unwrap();
    let created = p
        .update_or_create_texture(id, &uniform_delta(Some((1, 1)), 1, 1, 0x42))
        .unwrap();
    assert!(!created);
    let t = p.get_texture(id).unwrap();
    assert_eq!(t.width, 2);
    assert_eq!(t.height, 2);
}

#[test]
fn partial_update_overlays_only_its_region() {
    let mut p = Painter::new();
    let id = TextureId::Managed(3);
    let base = ImageDelta {
        pos: None,
        width: 2,
        height: 2,
        pixels: vec![vec![10, 11], vec![12, 13]],
    };
    p.update_or_create_texture(id, &base).unwrap();
    let column = ImageDelta {
        pos: Some((1, 0)),
        width: 1,
        height: 2,
        pixels: vec![vec![20], vec![21]],
    };
    p.update_or_create_texture(id, &column).unwrap();
    let t = p.get_texture(id).unwrap();
    assert_eq!(t.pixels, vec![vec![10, 20], vec![12, 21]]);
}

#[test]
fn freed_texture_stays_absent() {
    let mut p = Painter::new();
    let id = TextureId::Managed(4);
    p.update_or_create_texture(id, &uniform_delta(None, 1, 1, RED)).unwrap();
    assert!(p.free_texture(id));
    assert!(p.get_texture(id).is_none());
    assert!(p.get_texture(id).is_none());
}

#[test]
fn free_unknown_fails_and_leaves_cache() {
    let mut p = Painter::new();
    let kept = TextureId::Managed(5);
    p.update_or_create_texture(kept, &uniform_delta(None, 1, 1, RED)).unwrap();
    let frame = FrameDelta { set: vec![], free: vec![TextureId::User(9)] };
    let (cmds, err) = p.paint_and_update_textures(&vec![], &frame);
    assert!(matches!(err, Some(PainterError::FreeUnknownTexture(TextureId::User(9)))));
    assert!(cmds.is_empty());
    assert!(p.get_texture(kept).is_some());
}

#[test]
fn out_of_bounds_update_fails_and_keeps_contents() {
    let mut p = Painter::new();
    let id = TextureId::Managed(6);
    p.update_or_create_texture(id, &uniform_delta(None, 2, 2, RED)).unwrap();
    let err = p
        .update_or_create_texture(id, &uniform_delta(Some((1, 1)), 2, 2, 0x99))
        .unwrap_err();
    assert!(matches!(err, PainterError::TextureUpdateFailed(_)));
    let t = p.get_texture(id).unwrap();
    assert_eq!(t.width, 2);
    assert_eq!(t.height, 2);
    assert_eq!(t.pixels, vec![vec![RED, RED], vec![RED, RED]]);
}

#[test]
fn fresh_texture_with_offset_region_fails_but_is_created_blank() {
    let mut p = Painter::new();
    let id = TextureId::User(8);
    let err = p
        .update_or_create_texture(id, &uniform_delta(Some((1, 0)), 2, 2, RED))
        .unwrap_err();
    assert!(matches!(err, PainterError::TextureUpdateFailed(_)));
    let t = p.get_texture(id).unwrap();
    assert_eq!(t.width, 2);
    assert_eq!(t.height, 2);
    assert_eq!(t.pixels, vec![vec![0, 0], vec![0, 0]]);
}

#[test]
fn scenario_red_quad_frame() {
    let mut p = Painter::new();
    let id = TextureId::Managed(7);
    let frame = FrameDelta {
        set: vec![(id, uniform_delta(None, 2, 2, RED))],
        free: vec![],
    };
    let prims = vec![mesh(id, 2, 2), mesh(id, 640, 480)];
    let (cmds, err) = p.paint_and_update_textures(&prims, &frame);
    assert!(err.is_none());
    assert_eq!(
        cmds,
        vec![
            RenderCommand::CreateTexture { id, width: 2, height: 2 },
            RenderCommand::UploadTexture { id, set_index: 0, x: 0, y: 0, width: 2, height: 2 },
            RenderCommand::DrawMesh { prim_index: 0, texture_id: id, clip: clip(2, 2) },
            RenderCommand::DrawMesh { prim_index: 1, texture_id: id, clip: clip(640, 480) },
        ],
    );
    let t = p.get_texture(id).unwrap();
    assert_eq!(t.width, 2);
    assert_eq!(t.height, 2);
    assert_eq!(t.pixels, vec![vec![RED, RED], vec![RED, RED]]);
}

#[test]
fn scenario_unknown_texture_aborts_frame() {
    let mut p = Painter::new();
    let missing = TextureId::Managed(99);
    let frame = FrameDelta { set: vec![], free: vec![] };
    let prims = vec![mesh(missing, 10, 10), mesh(missing, 20, 20)];
    let (cmds, err) = p.paint_and_update_textures(&prims, &frame);
    assert!(matches!(err, Some(PainterError::DrawUnknownTexture(TextureId::Managed(99)))));
    assert!(cmds.is_empty());
}

#[test]
fn draw_failure_does_not_mutate_cache() {
    let mut p = Painter::new();
    let id = TextureId::Managed(1);
    let frame = FrameDelta {
        set: vec![(id, uniform_delta(None, 1, 1, RED))],
        free: vec![TextureId::Managed(1)],
    };
    let prims = vec![mesh(TextureId::User(77), 4, 4)];
    let (cmds, err) = p.paint_and_update_textures(&prims, &frame);
    assert!(matches!(err, Some(PainterError::DrawUnknownTexture(TextureId::User(77)))));
    // The set phase ran; the draws aborted before any free was applied.
    assert_eq!(
        cmds,
        vec![
            RenderCommand::CreateTexture { id, width: 1, height: 1 },
            RenderCommand::UploadTexture { id, set_index: 0, x: 0, y: 0, width: 1, height: 1 },
        ],
    );
    assert!(p.get_texture(id).is_some());
}

#[test]
fn same_frame_free_draws_first() {
    let mut p = Painter::new();
    let t1 = TextureId::Managed(11);
    p.update_or_create_texture(t1, &uniform_delta(None, 1, 1, RED)).unwrap();
    let frame = FrameDelta { set: vec![], free: vec![t1] };
    let prims = vec![mesh(t1, 5, 5), mesh(t1, 6, 6)];
    let (cmds, err) = p.paint_and_update_textures(&prims, &frame);
    assert!(err.is_none());
    assert_eq!(
        cmds,
        vec![
            RenderCommand::DrawMesh { prim_index: 0, texture_id: t1, clip: clip(5, 5) },
            RenderCommand::DrawMesh { prim_index: 1, texture_id: t1, clip: clip(6, 6) },
            RenderCommand::FreeTexture { id: t1 },
        ],
    );
    assert!(p.get_texture(t1).is_none());
}

#[test]
fn callbacks_dispatch_in_list_order() {
    let mut p = Painter::new();
    let id = TextureId::User(2);
    p.update_or_create_texture(id, &uniform_delta(None, 1, 1, RED)).unwrap();
    let frame = FrameDelta { set: vec![], free: vec![] };
    let prims = vec![
        ClippedPrimitive { clip_rect: clip(3, 3), kind: PrimitiveKind::Callback },
        mesh(id, 4, 4),
        ClippedPrimitive { clip_rect: clip(5, 5), kind: PrimitiveKind::Callback },
    ];
    let (cmds, err) = p.paint_and_update_textures(&prims, &frame);
    assert!(err.is_none());
    assert_eq!(
        cmds,
        vec![
            RenderCommand::RunCallback { prim_index: 0, clip: clip(3, 3) },
            RenderCommand::DrawMesh { prim_index: 1, texture_id: id, clip: clip(4, 4) },
            RenderCommand::RunCallback { prim_index: 2, clip: clip(5, 5) },
        ],
    );
}

#[test]
fn second_delta_for_existing_texture_uploads_without_create() {
    let mut p = Painter::new();
    let a = TextureId::Managed(20);
    let b = TextureId::Managed(21);
    p.update_or_create_texture(a, &uniform_delta(None, 2, 2, RED)).unwrap();
    let frame = FrameDelta {
        set: vec![
            (a, uniform_delta(Some((0, 1)), 2, 1, 0x7)),
            (b, uniform_delta(None, 1, 1, 0x8)),
        ],
        free: vec![],
    };
    let (cmds, err) = p.paint_and_update_textures(&vec![], &frame);
    assert!(err.is_none());
    assert_eq!(
        cmds,
        vec![
            RenderCommand::UploadTexture { id: a, set_index: 0, x: 0, y: 1, width: 2, height: 1 },
            RenderCommand::CreateTexture { id: b, width: 1, height: 1 },
            RenderCommand::UploadTexture { id: b, set_index: 1, x: 0, y: 0, width: 1, height: 1 },
        ],
    );
    let t = p.get_texture(a).unwrap();
    assert_eq!(t.pixels, vec![vec![RED, RED], vec![0x7, 0x7]]);
}

#[test]
fn failed_set_entry_aborts_before_primitives() {
    let mut p = Painter::new();
    let id = TextureId::Managed(30);
    let frame = FrameDelta {
        set: vec![(id, uniform_delta(Some((3, 3)), 2, 2, RED))],
        free: vec![],
    };
    let prims = vec![mesh(id, 1, 1)];
    let (cmds, err) = p.paint_and_update_textures(&prims, &frame);
    assert!(matches!(err, Some(PainterError::TextureUpdateFailed(_))));
    // The creation was issued, the upload was not, and nothing was drawn.
    assert_eq!(cmds, vec![RenderCommand::CreateTexture { id, width: 2, height: 2 }]);
}
