use frame_submit::commands::{
    BlockBinding, DispatchCmdBuilder, DrawCmdBuilder, FrameState, ImageBindingLocation,
    PassBuilder,
};
use frame_submit::errors::RenderError;
use frame_submit::pipeline::{create_pipeline, PipelineDef};
use frame_submit::resources::{
    BlockBindingLocation, BlockDescription, ImageDef, ImageObject, ImageSize, SamplerDef,
    SamplerObject, ShaderDef, ShaderObject, Vec2i,
};
use frame_submit::resource_manager::ResourceManager;
use frame_submit::submit::{ExecutePlan, Context, ImageBindKind};
use frame_submit::upload_heap::UploadHeap;

fn context() -> Context {
    Context::new(UploadHeap::new(1, 4096), 256)
}

fn ssbo_block(index: u32, read_write: bool) -> BlockDescription {
    BlockDescription {
        binding_location: BlockBindingLocation::Ssbo(index),
        total_size: 12,
        is_read_write: read_write,
    }
}

/// A store with two compute pipelines sharing the "ArgsBuffer" block:
/// one writes it, the other only reads it.
fn compute_store() -> (ResourceManager, frame_submit::resources::ShaderHandle, frame_submit::resources::ShaderHandle) {
    let mut store = ResourceManager::new(Vec2i { x: 64, y: 64 });
    let writer_object = ShaderObject {
        name: 100,
        blocks: vec![("ArgsBuffer".to_string(), ssbo_block(0, true))],
        image_bindings: vec![],
        workgroup_size: Some((8, 8, 1)),
    };
    let reader_object = ShaderObject {
        name: 101,
        blocks: vec![("ArgsBuffer".to_string(), ssbo_block(0, false))],
        image_bindings: vec![],
        workgroup_size: Some((8, 8, 1)),
    };
    let writer = store.load_shader(
        ShaderDef::compute("shaders/gen_args.cs.glsl".to_string()),
        writer_object.clone(),
    );
    let reader = store.load_shader(
        ShaderDef::compute("shaders/use_args.cs.glsl".to_string()),
        reader_object.clone(),
    );
    let writer_po = create_pipeline(31, &vec![writer_object]).unwrap();
    store.insert_pipeline(
        PipelineDef { vertex: None, fragment: None, compute: Some(writer) },
        writer_po,
    );
    let reader_po = create_pipeline(32, &vec![reader_object]).unwrap();
    store.insert_pipeline(
        PipelineDef { vertex: None, fragment: None, compute: Some(reader) },
        reader_po,
    );
    (store, writer, reader)
}

#[test]
fn one_barrier_between_a_write_and_its_readers() {
    let (store, writer, reader) = compute_store();
    let mut engine = context();
    let mut frame = FrameState::new();

    let args = frame.reserve_buffer(12);
    let pass = frame.pass("compute".to_string());
    frame.push_cmd(
        pass,
        DispatchCmdBuilder::new(writer)
            .groups(1, 1, 1)
            .buffer(BlockBinding::Named("ArgsBuffer".to_string()), args)
            .build(),
    );
    for _ in 0..2 {
        frame.push_cmd(
            pass,
            DispatchCmdBuilder::new(reader)
                .groups(4, 4, 1)
                .buffer(BlockBinding::Named("ArgsBuffer".to_string()), args)
                .build(),
        );
    }

    engine.start_frame();
    let plan = engine.end_frame(&mut frame, &store).unwrap();
    assert_eq!(plan.passes.len(), 1);
    let commands = &plan.passes[0].commands;
    assert_eq!(commands.len(), 3);

    // the writer needs no barrier, the first reader exactly one, the
    // second reader none
    assert!(commands[0].buffer_binds[0].barrier.is_none());
    let barrier = commands[1].buffer_binds[0].barrier.unwrap();
    assert_eq!(barrier.bits, frame_submit::barrier::SHADER_STORAGE_BARRIER_BIT);
    assert!(barrier.by_region);
    assert!(commands[2].buffer_binds[0].barrier.is_none());

    // the named binding resolved to the reflected storage slot
    assert_eq!(commands[1].buffer_binds[0].location, BlockBindingLocation::Ssbo(0));
    assert_eq!(commands[0].pipeline_name, 31);
    assert_eq!(commands[1].pipeline_name, 32);
    assert!(matches!(commands[0].execute, ExecutePlan::DispatchDirect { x: 1, y: 1, z: 1 }));

    engine.finish_frame(&mut frame, 77);
    assert_eq!(frame.passes.len(), 0);
    assert_eq!(engine.upload_heap.locked_ranges.last().unwrap().fence, 77);
}

#[test]
fn an_unknown_named_binding_fails_resolution() {
    let (store, writer, _) = compute_store();
    let mut engine = context();
    let mut frame = FrameState::new();
    let args = frame.reserve_buffer(12);
    let pass = frame.pass("compute".to_string());
    frame.push_cmd(
        pass,
        DispatchCmdBuilder::new(writer)
            .buffer(BlockBinding::Named("Bogus".to_string()), args)
            .build(),
    );
    engine.start_frame();
    let out = engine.end_frame(&mut frame, &store);
    assert_eq!(out.unwrap_err(), RenderError::UnknownBlockBinding("Bogus".to_string()));
}

#[test]
fn a_command_without_a_registered_pipeline_fails_resolution() {
    let mut store = ResourceManager::new(Vec2i { x: 64, y: 64 });
    let orphan = store.load_shader(
        ShaderDef::compute("shaders/orphan.cs.glsl".to_string()),
        ShaderObject { name: 1, blocks: vec![], image_bindings: vec![], workgroup_size: None },
    );
    let mut engine = context();
    let mut frame = FrameState::new();
    let pass = frame.pass("compute".to_string());
    frame.push_cmd(pass, DispatchCmdBuilder::new(orphan).build());
    engine.start_frame();
    assert_eq!(engine.end_frame(&mut frame, &store).unwrap_err(), RenderError::MissingPipeline);
}

#[test]
fn a_full_draw_is_laid_out_with_aligned_uniforms() {
    let mut store = ResourceManager::new(Vec2i { x: 640, y: 480 });
    let camera = BlockDescription {
        binding_location: BlockBindingLocation::Ubo(0),
        total_size: 64,
        is_read_write: false,
    };
    let vertex_object = ShaderObject {
        name: 40,
        blocks: vec![("Camera".to_string(), camera)],
        image_bindings: vec![],
        workgroup_size: None,
    };
    let fragment_object = ShaderObject {
        name: 41,
        blocks: vec![],
        image_bindings: vec![("u_texture".to_string(), 2)],
        workgroup_size: None,
    };
    let vs = store.load_shader(
        ShaderDef::vertex("shaders/sprite.vert.glsl".to_string()),
        vertex_object.clone(),
    );
    let fs = store.load_shader(
        ShaderDef::fragment("shaders/textured.frag.glsl".to_string()),
        fragment_object.clone(),
    );
    let po = create_pipeline(50, &vec![vertex_object, fragment_object]).unwrap();
    store.insert_pipeline(PipelineDef { vertex: Some(vs), fragment: Some(fs), compute: None }, po);
    let coolcat = store.load_image(
        ImageDef::new("images/coolcat.png".to_string()),
        ImageObject { name: 9, size: ImageSize::Fixed(Vec2i { x: 32, y: 32 }), format: 1 },
    );
    store.insert_sampler(SamplerDef::nearest_clamped(), SamplerObject { name: 13 });

    let mut engine = context();
    let mut frame = FrameState::new();
    let camera_data = frame.stream_buffer(&vec![0u8; 64]);
    let indices = frame.stream_buffer(&vec![0u8, 0, 0, 0, 1, 0, 0, 0, 2, 0, 0, 0]);
    let pass = frame.add_pass(PassBuilder::new("draw".to_string()).time());
    frame.push_cmd(
        pass,
        DrawCmdBuilder::new(vs, fs)
            .elements(3)
            .instances(2)
            .indexed(indices)
            .ubo(0, camera_data)
            .texture(
                ImageBindingLocation::Named("u_texture".to_string()),
                coolcat,
                SamplerDef::nearest_clamped(),
            )
            .build(),
    );

    engine.start_frame();
    let plan = engine.end_frame(&mut frame, &store).unwrap();
    let pass_plan = &plan.passes[0];
    assert!(pass_plan.wants_timer_query);
    assert_eq!(pass_plan.fbo.name, 0);
    let command = &pass_plan.commands[0];
    assert_eq!(command.pipeline_name, 50);

    // uniform data was placed at the device's uniform-buffer alignment
    assert_eq!(command.buffer_binds[0].allocation.offset % 256, 0);
    assert_eq!(command.buffer_binds[0].allocation.size, 64);

    // the texture resolved to its reflected unit, image and sampler
    assert_eq!(command.image_binds[0].unit, 2);
    assert_eq!(command.image_binds[0].image.name, 9);
    assert!(matches!(
        command.image_binds[0].kind,
        ImageBindKind::Texture { sampler: SamplerObject { name: 13 } }
    ));

    match command.execute {
        ExecutePlan::DrawElements { elements, instances, index_allocation, .. } => {
            assert_eq!(elements, 3);
            assert_eq!(instances, 2);
            assert_eq!(index_allocation.size, 12);
            // index data keeps its natural four-byte alignment
            assert_eq!(index_allocation.offset % 4, 0);
        },
        _ => panic!("expected an indexed draw"),
    }
}

#[test]
fn incompatible_stage_tables_fail_before_any_draw_resolves() {
    // two draws share the "Camera" binding, but the two stages of
    // their pipeline declare it with incompatible layouts: building
    // that pipeline fails naming the block, so resolution can never
    // silently pick one of the layouts
    let vertex_object = ShaderObject {
        name: 60,
        blocks: vec![(
            "Camera".to_string(),
            BlockDescription {
                binding_location: BlockBindingLocation::Ubo(0),
                total_size: 64,
                is_read_write: false,
            },
        )],
        image_bindings: vec![],
        workgroup_size: None,
    };
    let fragment_object = ShaderObject {
        name: 61,
        blocks: vec![(
            "Camera".to_string(),
            BlockDescription {
                binding_location: BlockBindingLocation::Ubo(1),
                total_size: 128,
                is_read_write: false,
            },
        )],
        image_bindings: vec![],
        workgroup_size: None,
    };
    let out = create_pipeline(70, &vec![vertex_object, fragment_object]);
    assert_eq!(out.unwrap_err(), RenderError::IncompatibleBlock("Camera".to_string()));
}

#[test]
fn error_descriptions_name_the_failure_class() {
    let e = RenderError::MissingPipeline;
    assert_eq!(e.describe(), "no pipeline registered for the command's shader set");
    let u = RenderError::UnknownBlockBinding("Camera".to_string());
    assert_eq!(u.describe(), "named block binding not found in the pipeline");
}

#[test]
fn an_unreflected_explicit_binding_fails_layout() {
    let (store, writer, _) = compute_store();
    let mut engine = context();
    let mut frame = FrameState::new();
    let extra = frame.reserve_buffer(16);
    let pass = frame.pass("compute".to_string());
    // slot 3 occurs in no reflected table of the writer's pipeline
    frame.push_cmd(
        pass,
        DispatchCmdBuilder::new(writer).ubo(3, extra).build(),
    );
    engine.start_frame();
    assert_eq!(
        engine.end_frame(&mut frame, &store).unwrap_err(),
        RenderError::UnreflectedBlockBinding
    );
}

#[test]
fn an_unknown_named_image_binding_fails_resolution() {
    let (store, writer, _) = compute_store();
    let mut engine = context();
    let mut frame = FrameState::new();
    let pass = frame.pass("compute".to_string());
    frame.push_cmd(
        pass,
        DispatchCmdBuilder::new(writer)
            .image(ImageBindingLocation::Named("u_bogus".to_string()), frame_submit::resources::ImageHandle(0))
            .build(),
    );
    engine.start_frame();
    assert_eq!(
        engine.end_frame(&mut frame, &store).unwrap_err(),
        RenderError::UnknownImageBinding("u_bogus".to_string())
    );
}

#[test]
fn a_missing_sampler_fails_layout() {
    let (mut store, writer, _) = compute_store();
    let image = store.load_image(
        ImageDef::render_target(1),
        ImageObject { name: 5, size: ImageSize::Backbuffer, format: 1 },
    );
    let mut engine = context();
    let mut frame = FrameState::new();
    let pass = frame.pass("compute".to_string());
    frame.push_cmd(
        pass,
        DispatchCmdBuilder::new(writer)
            .texture(ImageBindingLocation::Explicit(0), image, SamplerDef::linear_clamped())
            .build(),
    );
    engine.start_frame();
    assert_eq!(
        engine.end_frame(&mut frame, &store).unwrap_err(),
        RenderError::MissingSampler
    );
}

#[test]
fn a_missing_framebuffer_fails_layout() {
    let (mut store, writer, _) = compute_store();
    let target = store.load_image(
        ImageDef::render_target(1),
        ImageObject { name: 5, size: ImageSize::Backbuffer, format: 1 },
    );
    let mut engine = context();
    let mut frame = FrameState::new();
    let pass = frame.add_pass(
        PassBuilder::new("offscreen".to_string()).color_attachment(0, target),
    );
    frame.push_cmd(pass, DispatchCmdBuilder::new(writer).build());
    engine.start_frame();
    assert_eq!(
        engine.end_frame(&mut frame, &store).unwrap_err(),
        RenderError::MissingFramebuffer
    );
}

#[test]
fn shared_named_binding_with_incompatible_pipelines_fails_at_resolution() {
    // two dispatches share the named "Camera" block, but their two
    // pipelines reflect it with incompatible layouts: the frame must
    // fail at resolution time naming the binding, never silently
    // picking one of the layouts
    let mut store = ResourceManager::new(Vec2i { x: 64, y: 64 });
    let first_object = ShaderObject {
        name: 110,
        blocks: vec![(
            "Camera".to_string(),
            BlockDescription {
                binding_location: BlockBindingLocation::Ubo(0),
                total_size: 64,
                is_read_write: false,
            },
        )],
        image_bindings: vec![],
        workgroup_size: None,
    };
    let second_object = ShaderObject {
        name: 111,
        blocks: vec![(
            "Camera".to_string(),
            BlockDescription {
                binding_location: BlockBindingLocation::Ubo(1),
                total_size: 128,
                is_read_write: false,
            },
        )],
        image_bindings: vec![],
        workgroup_size: None,
    };
    let first = store.load_shader(
        ShaderDef::compute("shaders/first.cs.glsl".to_string()),
        first_object.clone(),
    );
    let second = store.load_shader(
        ShaderDef::compute("shaders/second.cs.glsl".to_string()),
        second_object.clone(),
    );
    store.insert_pipeline(
        PipelineDef { vertex: None, fragment: None, compute: Some(first) },
        create_pipeline(41, &vec![first_object]).unwrap(),
    );
    store.insert_pipeline(
        PipelineDef { vertex: None, fragment: None, compute: Some(second) },
        create_pipeline(42, &vec![second_object]).unwrap(),
    );

    let mut engine = context();
    let mut frame = FrameState::new();
    let camera = frame.reserve_buffer(64);
    let pass = frame.pass("draws".to_string());
    frame.push_cmd(
        pass,
        DispatchCmdBuilder::new(first)
            .buffer(BlockBinding::Named("Camera".to_string()), camera)
            .build(),
    );
    frame.push_cmd(
        pass,
        DispatchCmdBuilder::new(second)
            .buffer(BlockBinding::Named("Camera".to_string()), camera)
            .build(),
    );
    engine.start_frame();
    assert_eq!(
        engine.end_frame(&mut frame, &store).unwrap_err(),
        RenderError::IncompatibleBlock("Camera".to_string())
    );
}

#[test]
fn shared_named_binding_may_differ_in_access_but_not_layout() {
    // the writer/reader pattern — the same block written by one
    // pipeline and read by another — is the normal case and passes the
    // layout check, since the access qualifier is not part of the layout
    let (store, writer, reader) = compute_store();
    let mut engine = context();
    let mut frame = FrameState::new();
    let args = frame.reserve_buffer(12);
    let pass = frame.pass("compute".to_string());
    frame.push_cmd(
        pass,
        DispatchCmdBuilder::new(writer)
            .buffer(BlockBinding::Named("ArgsBuffer".to_string()), args)
            .build(),
    );
    frame.push_cmd(
        pass,
        DispatchCmdBuilder::new(reader)
            .buffer(BlockBinding::Named("ArgsBuffer".to_string()), args)
            .build(),
    );
    engine.start_frame();
    assert!(engine.end_frame(&mut frame, &store).is_ok());
}
