use frame_submit::errors::RenderError;
use frame_submit::pipeline::{create_pipeline, PipelineDef};
use frame_submit::resources::{
    BlockBindingLocation, BlockDescription, ShaderHandle, ShaderObject,
};

fn stage(name: u32, blocks: Vec<(&str, BlockDescription)>, images: Vec<(&str, u32)>)
    -> ShaderObject {
    ShaderObject {
        name,
        blocks: blocks.into_iter().map(|(n, d)| (n.to_string(), d)).collect(),
        image_bindings: images.into_iter().map(|(n, u)| (n.to_string(), u)).collect(),
        workgroup_size: None,
    }
}

fn ubo_block(index: u32, total_size: u32) -> BlockDescription {
    BlockDescription {
        binding_location: BlockBindingLocation::Ubo(index),
        total_size,
        is_read_write: false,
    }
}

#[test]
fn agreeing_stages_merge_into_one_table() {
    let camera = ubo_block(0, 64);
    let vertex = stage(1, vec![("Camera", camera)], vec![]);
    let fragment = stage(2, vec![("Camera", camera), ("Lights", ubo_block(1, 256))], vec![
        ("u_texture", 3),
    ]);
    let po = create_pipeline(7, &vec![vertex, fragment]).unwrap();
    assert_eq!(po.name, 7);
    assert_eq!(po.composite_blocks.len(), 2);
    let found = po.block_by_name(&"Camera".to_string()).unwrap();
    assert_eq!(*found, camera);
    assert_eq!(po.image_binding_by_name(&"u_texture".to_string()), Some(3));
    assert_eq!(po.image_binding_by_name(&"u_missing".to_string()), None);
}

#[test]
fn incompatible_block_layouts_fail_at_pipeline_creation() {
    // two stages declare the shared "Camera" block with different
    // layouts; building the pipeline must fail naming the block, not
    // silently pick one of the two
    let vertex = stage(1, vec![("Camera", ubo_block(0, 64))], vec![]);
    let fragment = stage(2, vec![("Camera", ubo_block(1, 128))], vec![]);
    let out = create_pipeline(7, &vec![vertex, fragment]);
    assert_eq!(out.unwrap_err(), RenderError::IncompatibleBlock("Camera".to_string()));
}

#[test]
fn incompatible_image_units_fail_at_pipeline_creation() {
    let vertex = stage(1, vec![], vec![("u_texture", 0)]);
    let fragment = stage(2, vec![], vec![("u_texture", 1)]);
    let out = create_pipeline(7, &vec![vertex, fragment]);
    assert_eq!(out.unwrap_err(), RenderError::IncompatibleImageBinding("u_texture".to_string()));
}

#[test]
fn lookup_by_binding_location_finds_the_block() {
    let data = BlockDescription {
        binding_location: BlockBindingLocation::Ssbo(2),
        total_size: 1024,
        is_read_write: true,
    };
    let compute = stage(3, vec![("Data", data)], vec![]);
    let po = create_pipeline(9, &vec![compute]).unwrap();
    let found = po.block_by_binding_location(BlockBindingLocation::Ssbo(2)).unwrap();
    assert_eq!(*found, data);
    assert!(po.block_by_binding_location(BlockBindingLocation::Ubo(2)).is_none());
}

#[test]
fn empty_pipeline_definition_is_default() {
    let def = PipelineDef::default();
    assert_eq!(def.vertex, None);
    assert_eq!(def.fragment, None);
    assert_eq!(def.compute, None);
    let with_stage = PipelineDef { vertex: Some(ShaderHandle(1)), ..PipelineDef::default() };
    assert_ne!(with_stage, def);
}
