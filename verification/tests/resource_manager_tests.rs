use frame_submit::errors::RenderError;
use frame_submit::resources::{
    FboDef, FboObject, ImageDef, ImageObject, ImageSize, SamplerDef, SamplerObject, ShaderDef,
    ShaderHandle, ShaderObject, Vec2i,
};
use frame_submit::resource_manager::ResourceManager;

fn plain_shader(name: u32) -> ShaderObject {
    ShaderObject { name, blocks: vec![], image_bindings: vec![], workgroup_size: None }
}

#[test]
fn shader_loads_deduplicate_by_definition() {
    let mut store = ResourceManager::new(Vec2i { x: 800, y: 600 });
    let def = ShaderDef::vertex("shaders/test.vert.glsl".to_string());
    let first = store.load_shader(def.clone(), plain_shader(10));
    let again = store.load_shader(def, plain_shader(11));
    assert_eq!(first, again);
    assert_eq!(store.shader_objects.len(), 1);
    // the cached object is the one loaded first
    assert_eq!(store.resolve_shader(first).unwrap().name, 10);

    let other = store.load_shader(
        ShaderDef::fragment("shaders/test.frag.glsl".to_string()),
        plain_shader(12),
    );
    assert_eq!(other, ShaderHandle(1));
    assert!(store.resolve_shader(ShaderHandle(5)).is_none());
}

#[test]
fn image_loads_deduplicate_by_definition() {
    let mut store = ResourceManager::new(Vec2i { x: 8, y: 8 });
    let def = ImageDef::render_target(0x8058);
    let object = ImageObject { name: 3, size: ImageSize::Backbuffer, format: 0x8058 };
    let first = store.load_image(def.clone(), object);
    let again = store.load_image(def, ImageObject { name: 4, size: ImageSize::Backbuffer, format: 0x8058 });
    assert_eq!(first, again);
    assert_eq!(store.image_objects.len(), 1);
    assert_eq!(store.resolve_image(first).unwrap().name, 3);
}

#[test]
fn backbuffer_resize_updates_the_default_framebuffer() {
    let mut store = ResourceManager::new(Vec2i { x: 640, y: 480 });
    assert_eq!(store.default_fbo.viewport_size, Vec2i { x: 640, y: 480 });
    store.notify_size_changed(Vec2i { x: 1920, y: 1080 });
    assert_eq!(store.backbuffer_size(), Vec2i { x: 1920, y: 1080 });
    assert_eq!(store.default_fbo.viewport_size, Vec2i { x: 1920, y: 1080 });
    assert_eq!(store.default_fbo.name, 0);
}

#[test]
fn backbuffer_resize_drops_stale_framebuffers() {
    let mut store = ResourceManager::new(Vec2i { x: 640, y: 480 });
    let image = store.load_image(
        ImageDef::render_target(1),
        ImageObject { name: 4, size: ImageSize::Backbuffer, format: 1 },
    );
    let def = FboDef { color_attachment_0: Some(image), ..FboDef::default() };
    store.insert_fbo(def, FboObject { name: 6, viewport_size: Vec2i { x: 640, y: 480 } });
    store.notify_size_changed(Vec2i { x: 800, y: 600 });
    // the cached object held the old viewport, so it is gone and the
    // application re-creates it against the resized attachments
    assert!(store.lookup_fbo(&def).is_none());
    assert_eq!(store.fbo_viewport_size(&def), Ok(Vec2i { x: 800, y: 600 }));
}

#[test]
fn the_empty_render_target_definition_is_the_default_framebuffer() {
    let store = ResourceManager::new(Vec2i { x: 100, y: 50 });
    let fbo = store.lookup_fbo(&FboDef::default()).unwrap();
    assert_eq!(fbo, store.default_fbo);
}

#[test]
fn framebuffer_cache_round_trip() {
    let mut store = ResourceManager::new(Vec2i { x: 100, y: 50 });
    let image = store.load_image(
        ImageDef::render_target(1),
        ImageObject { name: 8, size: ImageSize::Backbuffer, format: 1 },
    );
    let def = FboDef { color_attachment_0: Some(image), ..FboDef::default() };
    assert!(store.lookup_fbo(&def).is_none());
    let object = FboObject { name: 5, viewport_size: Vec2i { x: 100, y: 50 } };
    store.insert_fbo(def, object);
    assert_eq!(store.lookup_fbo(&def), Some(object));
}

#[test]
fn sampler_cache_round_trip() {
    let mut store = ResourceManager::new(Vec2i { x: 1, y: 1 });
    let def = SamplerDef::nearest_clamped();
    assert!(store.lookup_sampler(&def).is_none());
    store.insert_sampler(def, SamplerObject { name: 77 });
    assert_eq!(store.lookup_sampler(&def), Some(SamplerObject { name: 77 }));
    assert!(store.lookup_sampler(&SamplerDef::linear_clamped()).is_none());
}

#[test]
fn agreeing_attachments_resolve_to_the_backbuffer_viewport() {
    let mut store = ResourceManager::new(Vec2i { x: 320, y: 200 });
    let color = store.load_image(
        ImageDef::render_target(1),
        ImageObject { name: 1, size: ImageSize::Backbuffer, format: 1 },
    );
    let depth = store.load_image(
        ImageDef::depth_stencil(),
        ImageObject { name: 2, size: ImageSize::Backbuffer, format: 2 },
    );
    let def = FboDef {
        color_attachment_0: Some(color),
        depth_stencil_attachment: Some(depth),
        ..FboDef::default()
    };
    assert_eq!(store.fbo_viewport_size(&def), Ok(Vec2i { x: 320, y: 200 }));
}

#[test]
fn mismatched_attachment_sizes_are_a_fatal_error() {
    let mut store = ResourceManager::new(Vec2i { x: 320, y: 200 });
    let fixed = store.load_image(
        ImageDef::new("images/small.png".to_string()),
        ImageObject { name: 1, size: ImageSize::Fixed(Vec2i { x: 16, y: 16 }), format: 1 },
    );
    let grown = store.load_image(
        ImageDef::render_target(1),
        ImageObject { name: 2, size: ImageSize::Backbuffer, format: 1 },
    );
    let def = FboDef {
        color_attachment_0: Some(fixed),
        color_attachment_1: Some(grown),
        ..FboDef::default()
    };
    assert_eq!(store.fbo_viewport_size(&def), Err(RenderError::MismatchedAttachmentSizes));
}

#[test]
fn an_unknown_attachment_handle_is_a_fatal_error() {
    let store = ResourceManager::new(Vec2i { x: 320, y: 200 });
    let def = FboDef {
        color_attachment_0: Some(frame_submit::resources::ImageHandle(9)),
        ..FboDef::default()
    };
    assert_eq!(store.fbo_viewport_size(&def), Err(RenderError::MissingImage));
}

#[test]
fn no_attachments_resolve_to_an_empty_viewport() {
    let store = ResourceManager::new(Vec2i { x: 320, y: 200 });
    assert_eq!(store.fbo_viewport_size(&FboDef::default()), Ok(Vec2i { x: 0, y: 0 }));
}
