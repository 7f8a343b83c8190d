//! Definitions and reflected objects for GPU resources.
//!
//! Definitions (`ShaderDef`, `ImageDef`, `SamplerDef`, `FboDef`,
//! `PipelineDef`) describe a resource structurally and act as cache
//! keys; objects carry the identifier of the created GPU resource plus
//! whatever the library's logic reads back from it (binding tables,
//! sizes).  Creating the actual GPU objects is the surrounding
//! application's business.

use vstd::prelude::*;

verus! {

/// GPU image format identifier for a packed depth-stencil render target.
pub const DEPTH24_STENCIL8_FORMAT: u32 = 0x88F0;

/// A two-dimensional integer extent.
#[derive(Copy, Clone, Debug, Hash, PartialEq, Eq, Structural)]
pub struct Vec2i {
    pub x: i32,
    pub y: i32,
}

/// Identifies a loaded shader; handles are handed out in load order.
#[derive(Copy, Clone, Debug, Hash, PartialEq, Eq, Structural)]
pub struct ShaderHandle(pub u32);

/// Identifies a loaded image; handles are handed out in load order.
#[derive(Copy, Clone, Debug, Hash, PartialEq, Eq, Structural)]
pub struct ImageHandle(pub u32);

/// How texture coordinates outside the unit range are treated.
#[derive(Copy, Clone, Debug, Hash, PartialEq, Eq, Structural)]
pub enum AddressingMode {
    Repeat,
    ClampToEdge,
}

/// How a sampled texture is filtered.
#[derive(Copy, Clone, Debug, Hash, PartialEq, Eq, Structural)]
pub enum FilterMode {
    Nearest,
    Linear,
}

/// Structural description of a sampler, also its cache key.
#[derive(Copy, Clone, Debug, Hash, PartialEq, Eq, Structural)]
pub struct SamplerDef {
    pub addressing_mode: AddressingMode,
    pub minify_filter: FilterMode,
    pub magnify_filter: FilterMode,
}

impl SamplerDef {
    /// Linear filtering, coordinates clamped to the edge.
    pub fn linear_clamped() -> (d: SamplerDef)
        ensures
            d == (SamplerDef {
                addressing_mode: AddressingMode::ClampToEdge,
                minify_filter: FilterMode::Linear,
                magnify_filter: FilterMode::Linear,
            }),
    {
        SamplerDef {
            addressing_mode: AddressingMode::ClampToEdge,
            minify_filter: FilterMode::Linear,
            magnify_filter: FilterMode::Linear,
        }
    }

    /// Nearest filtering, coordinates clamped to the edge.
    pub fn nearest_clamped() -> (d: SamplerDef)
        ensures
            d == (SamplerDef {
                addressing_mode: AddressingMode::ClampToEdge,
                minify_filter: FilterMode::Nearest,
                magnify_filter: FilterMode::Nearest,
            }),
    {
        SamplerDef {
            addressing_mode: AddressingMode::ClampToEdge,
            minify_filter: FilterMode::Nearest,
            magnify_filter: FilterMode::Nearest,
        }
    }
}

/// The created GPU sampler.
#[derive(Copy, Clone, Debug, PartialEq, Eq, Structural)]
pub struct SamplerObject {
    pub name: u32,
}

/// Size of an image: fixed, or following the backbuffer.
#[derive(Copy, Clone, Debug, Hash, PartialEq, Eq, Structural)]
pub enum ImageSize {
    Fixed(Vec2i),
    Backbuffer,
}

impl ImageSize {
    /// The concrete extent, given the current backbuffer extent.
    pub fn resolve(self, backbuffer_size: Vec2i) -> (out: Vec2i)
        ensures
            out == match self {
                ImageSize::Fixed(size) => size,
                ImageSize::Backbuffer => backbuffer_size,
            },
    {
        match self {
            ImageSize::Fixed(size) => size,
            ImageSize::Backbuffer => backbuffer_size,
        }
    }
}

/// Structural description of an image, also its cache key.
#[derive(Clone, Debug, Hash, PartialEq, Eq)]
pub enum ImageDef {
    Path(String),
    Runtime { format: u32, size: ImageSize },
}

impl ImageDef {
    /// A backbuffer-sized render target of the given format.
    pub fn render_target(format: u32) -> (d: ImageDef)
        ensures
            d == (ImageDef::Runtime { format, size: ImageSize::Backbuffer }),
    {
        ImageDef::Runtime { format, size: ImageSize::Backbuffer }
    }

    /// A backbuffer-sized packed depth-stencil target.
    pub fn depth_stencil() -> (d: ImageDef)
        ensures
            d == (ImageDef::Runtime {
                format: DEPTH24_STENCIL8_FORMAT,
                size: ImageSize::Backbuffer,
            }),
    {
        ImageDef::render_target(DEPTH24_STENCIL8_FORMAT)
    }

    /// An image loaded from the given resource path.
    pub fn new(path: String) -> (d: ImageDef)
        ensures
            d == ImageDef::Path(path),
    {
        ImageDef::Path(path)
    }
}

/// The created GPU image and what the library knows about it.
#[derive(Copy, Clone, Debug, PartialEq, Eq, Structural)]
pub struct ImageObject {
    pub name: u32,
    pub size: ImageSize,
    pub format: u32,
}

/// Render-target definition of a pass: up to four color attachments and
/// a depth-stencil attachment, each an image owned by the resource
/// tables.  Also the cache key of the created framebuffer object.
#[derive(Copy, Clone, Debug, Hash, PartialEq, Eq, Structural)]
pub struct FboDef {
    pub color_attachment_0: Option<ImageHandle>,
    pub color_attachment_1: Option<ImageHandle>,
    pub color_attachment_2: Option<ImageHandle>,
    pub color_attachment_3: Option<ImageHandle>,
    pub depth_stencil_attachment: Option<ImageHandle>,
}

impl FboDef {
    /// The empty definition, standing for the default framebuffer.
    pub open spec fn spec_empty() -> FboDef {
        FboDef {
            color_attachment_0: None,
            color_attachment_1: None,
            color_attachment_2: None,
            color_attachment_3: None,
            depth_stencil_attachment: None,
        }
    }
}

impl Default for FboDef {
    /// The empty definition, standing for the default framebuffer.
    fn default() -> (d: FboDef)
        ensures
            d == FboDef::spec_empty(),
    {
        FboDef {
            color_attachment_0: None,
            color_attachment_1: None,
            color_attachment_2: None,
            color_attachment_3: None,
            depth_stencil_attachment: None,
        }
    }
}

/// The created framebuffer object and its resolved viewport.
#[derive(Copy, Clone, Debug, PartialEq, Eq, Structural)]
pub struct FboObject {
    pub name: u32,
    pub viewport_size: Vec2i,
}

/// The pipeline stage a shader runs in.
#[derive(Copy, Clone, Debug, Hash, PartialEq, Eq, Structural)]
pub enum ShaderType {
    Vertex,
    Fragment,
    Compute,
}

/// Structural description of a shader, also its cache key.
#[derive(Clone, Debug, Hash, PartialEq, Eq)]
pub struct ShaderDef {
    pub path: String,
    pub shader_type: ShaderType,
}

impl ShaderDef {
    pub fn vertex(path: String) -> (d: ShaderDef)
        ensures
            d.path == path,
            d.shader_type == ShaderType::Vertex,
    {
        ShaderDef { path, shader_type: ShaderType::Vertex }
    }

    pub fn fragment(path: String) -> (d: ShaderDef)
        ensures
            d.path == path,
            d.shader_type == ShaderType::Fragment,
    {
        ShaderDef { path, shader_type: ShaderType::Fragment }
    }

    pub fn compute(path: String) -> (d: ShaderDef)
        ensures
            d.path == path,
            d.shader_type == ShaderType::Compute,
    {
        ShaderDef { path, shader_type: ShaderType::Compute }
    }
}

/// Where an interface block binds: a uniform-buffer slot or a
/// storage-buffer slot.
#[derive(Copy, Clone, Debug, Hash, PartialEq, Eq, Structural)]
pub enum BlockBindingLocation {
    Ubo(u32),
    Ssbo(u32),
}

/// A shader interface block as reflected from the compiled shader.
#[derive(Copy, Clone, Debug, PartialEq, Eq, Structural)]
pub struct BlockDescription {
    pub binding_location: BlockBindingLocation,
    pub total_size: u32,
    pub is_read_write: bool,
}

/// A compiled shader: its GPU program identifier and the binding
/// tables reflected from it.
#[derive(Clone, Debug)]
pub struct ShaderObject {
    pub name: u32,
    pub blocks: Vec<(String, BlockDescription)>,
    pub image_bindings: Vec<(String, u32)>,
    pub workgroup_size: Option<(u32, u32, u32)>,
}

/// First value recorded under a name in an association list.
pub open spec fn assoc_find<T>(entries: Seq<(String, T)>, name: Seq<char>) -> Option<T>
    decreases entries.len(),
{
    if entries.len() == 0 {
        None
    } else if entries.first().0@ == name {
        Some(entries.first().1)
    } else {
        assoc_find(entries.drop_first(), name)
    }
}

/// Look a name up in an association list of block descriptions.
pub fn find_block<'a>(entries: &'a Vec<(String, BlockDescription)>, name: &String) -> (out:
    Option<&'a BlockDescription>)
    ensures
        match out {
            Some(b) => assoc_find(entries@, name@) == Some(*b),
            None => assoc_find(entries@, name@) is None,
        },
{
    let mut i: usize = 0;
    proof {
        assert(entries@.skip(0) =~= entries@);
    }
    #[verifier::loop_isolation(false)]
    while i < entries.len()
        invariant
            i <= entries@.len(),
            assoc_find(entries@, name@) == assoc_find(entries@.skip(i as int), name@),
        decreases entries@.len() - i,
    {
        proof {
            assert(entries@.skip(i as int).first() == entries@[i as int]);
            assert(entries@.skip(i as int).drop_first() =~= entries@.skip(i as int + 1));
        }
        if entries[i].0 == *name {
            return Some(&entries[i].1);
        }
        i += 1;
    }
    proof {
        assert(entries@.skip(entries@.len() as int) =~= Seq::<(String, BlockDescription)>::empty());
    }
    None
}

/// Look a name up in an association list of image binding units.
pub fn find_image_binding(entries: &Vec<(String, u32)>, name: &String) -> (out: Option<u32>)
    ensures
        out == assoc_find(entries@, name@),
{
    let mut i: usize = 0;
    proof {
        assert(entries@.skip(0) =~= entries@);
    }
    #[verifier::loop_isolation(false)]
    while i < entries.len()
        invariant
            i <= entries@.len(),
            assoc_find(entries@, name@) == assoc_find(entries@.skip(i as int), name@),
        decreases entries@.len() - i,
    {
        proof {
            assert(entries@.skip(i as int).first() == entries@[i as int]);
            assert(entries@.skip(i as int).drop_first() =~= entries@.skip(i as int + 1));
        }
        if entries[i].0 == *name {
            return Some(entries[i].1);
        }
        i += 1;
    }
    proof {
        assert(entries@.skip(entries@.len() as int) =~= Seq::<(String, u32)>::empty());
    }
    None
}

} // verus!
