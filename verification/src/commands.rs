//! The per-frame pass and command model.
//!
//! A frame is an ordered list of passes; each pass holds an ordered
//! list of draw and dispatch commands with named or explicit bindings.
//! Named bindings are resolved against the pipeline's reflected tables
//! before submission.  Commands are assembled with by-value builders
//! and recorded with `FrameState::push_cmd`.

use vstd::prelude::*;
use crate::frame::{BufferHandle, ReservedBuffer, StreamedBuffer, TransientAllocator};
use crate::pipeline::PipelineDef;
use crate::resources::{BlockBindingLocation, FboDef, ImageHandle, SamplerDef, ShaderHandle};

verus! {

/// A buffer block binding slot: already explicit, or still a
/// shader-reflected name to be resolved before submission.
#[derive(Clone, Debug, PartialEq, Eq)]
pub enum BlockBinding {
    Explicit(BlockBindingLocation),
    Named(String),
}

/// A texture or image unit: explicit, or a name to be resolved.
#[derive(Clone, Debug, PartialEq, Eq)]
pub enum ImageBindingLocation {
    Explicit(u32),
    Named(String),
}

/// An image bound for sampling (with a sampler) or for direct load and
/// store access (optionally writable).
#[derive(Clone, Debug, PartialEq, Eq)]
pub enum ImageBinding {
    Texture { handle: ImageHandle, sampler: SamplerDef, location: ImageBindingLocation },
    Image { handle: ImageHandle, location: ImageBindingLocation, read_write: bool },
}

impl ImageBinding {
    pub fn texture(handle: ImageHandle, sampler: SamplerDef, location: ImageBindingLocation) -> (b:
        ImageBinding)
        ensures
            b == (ImageBinding::Texture { handle, sampler, location }),
    {
        ImageBinding::Texture { handle, sampler, location }
    }

    pub fn image(handle: ImageHandle, location: ImageBindingLocation) -> (b: ImageBinding)
        ensures
            b == (ImageBinding::Image { handle, location, read_write: false }),
    {
        ImageBinding::Image { handle, location, read_write: false }
    }

    pub fn image_rw(handle: ImageHandle, location: ImageBindingLocation) -> (b: ImageBinding)
        ensures
            b == (ImageBinding::Image { handle, location, read_write: true }),
    {
        ImageBinding::Image { handle, location, read_write: true }
    }

    pub fn image_handle(&self) -> (h: ImageHandle)
        ensures
            h == self.spec_image_handle(),
    {
        match self {
            ImageBinding::Texture { handle, .. } => *handle,
            ImageBinding::Image { handle, .. } => *handle,
        }
    }

    pub open spec fn spec_image_handle(&self) -> ImageHandle {
        match self {
            ImageBinding::Texture { handle, .. } => *handle,
            ImageBinding::Image { handle, .. } => *handle,
        }
    }

    pub fn location(&self) -> (l: &ImageBindingLocation)
        ensures
            l == self.spec_location(),
    {
        match self {
            ImageBinding::Texture { location, .. } => location,
            ImageBinding::Image { location, .. } => location,
        }
    }

    pub open spec fn spec_location(&self) -> ImageBindingLocation {
        match self {
            ImageBinding::Texture { location, .. } => *location,
            ImageBinding::Image { location, .. } => *location,
        }
    }

    /// The sampler a texture binding samples through.
    pub open spec fn spec_sampler(&self) -> SamplerDef {
        match self {
            ImageBinding::Texture { sampler, .. } => *sampler,
            ImageBinding::Image { .. } => SamplerDef {
                addressing_mode: crate::resources::AddressingMode::Repeat,
                minify_filter: crate::resources::FilterMode::Nearest,
                magnify_filter: crate::resources::FilterMode::Nearest,
            },
        }
    }

    /// Whether the binding declares write access.
    pub open spec fn spec_writes(&self) -> bool {
        match self {
            ImageBinding::Texture { .. } => false,
            ImageBinding::Image { read_write, .. } => *read_write,
        }
    }

    pub fn set_location(&mut self, new_location: ImageBindingLocation)
        ensures
            *final(self) == (match *old(self) {
                ImageBinding::Texture { handle, sampler, location: _ } => ImageBinding::Texture {
                    handle,
                    sampler,
                    location: new_location,
                },
                ImageBinding::Image { handle, location: _, read_write } => ImageBinding::Image {
                    handle,
                    location: new_location,
                    read_write,
                },
            }),
    {
        match self {
            ImageBinding::Texture { location, .. } => {
                *location = new_location;
            },
            ImageBinding::Image { location, .. } => {
                *location = new_location;
            },
        }
    }
}

/// How a triangle-list draw interprets its vertices.
#[derive(Copy, Clone, Debug, PartialEq, Eq, Structural)]
pub enum PrimitiveType {
    Points,
    Lines,
    Triangles,
}

/// A recorded draw.
#[derive(Clone, Debug, PartialEq, Eq)]
pub struct DrawCmd {
    pub vertex_shader: ShaderHandle,
    pub fragment_shader: Option<ShaderHandle>,
    pub primitive_type: PrimitiveType,
    pub num_elements: u32,
    pub num_instances: u32,
    /// When set, the draw is indexed with this buffer.
    pub index_buffer: Option<BufferHandle>,
    pub block_bindings: Vec<(BlockBinding, BufferHandle)>,
    pub image_bindings: Vec<ImageBinding>,
}

/// Where a dispatch takes its workgroup counts from.
#[derive(Clone, Debug, PartialEq, Eq)]
pub enum DispatchSizeSource {
    Explicit(u32, u32, u32),
    Indirect(BufferHandle),
}

/// A recorded compute dispatch.
#[derive(Clone, Debug, PartialEq, Eq)]
pub struct DispatchCmd {
    pub compute_shader: ShaderHandle,
    pub num_groups: DispatchSizeSource,
    pub block_bindings: Vec<(BlockBinding, BufferHandle)>,
    pub image_bindings: Vec<ImageBinding>,
}

/// One recorded unit of GPU work.
#[derive(Clone, Debug, PartialEq, Eq)]
pub enum Command {
    Draw(DrawCmd),
    Dispatch(DispatchCmd),
}

impl Command {
    pub fn block_bindings(&self) -> (out: Option<&Vec<(BlockBinding, BufferHandle)>>)
        ensures
            out == Some(&self.spec_block_bindings()),
    {
        match self {
            Command::Draw(DrawCmd { block_bindings, .. }) => Some(block_bindings),
            Command::Dispatch(DispatchCmd { block_bindings, .. }) => Some(block_bindings),
        }
    }

    pub open spec fn spec_block_bindings(&self) -> Vec<(BlockBinding, BufferHandle)> {
        match self {
            Command::Draw(DrawCmd { block_bindings, .. }) => *block_bindings,
            Command::Dispatch(DispatchCmd { block_bindings, .. }) => *block_bindings,
        }
    }

    pub fn image_bindings(&self) -> (out: Option<&Vec<ImageBinding>>)
        ensures
            out == Some(&self.spec_image_bindings()),
    {
        match self {
            Command::Draw(DrawCmd { image_bindings, .. }) => Some(image_bindings),
            Command::Dispatch(DispatchCmd { image_bindings, .. }) => Some(image_bindings),
        }
    }

    pub open spec fn spec_image_bindings(&self) -> Vec<ImageBinding> {
        match self {
            Command::Draw(DrawCmd { image_bindings, .. }) => *image_bindings,
            Command::Dispatch(DispatchCmd { image_bindings, .. }) => *image_bindings,
        }
    }

    /// The pipeline this command runs on, derived from its shader set.
    pub fn pipeline_def(&self) -> (out: Option<PipelineDef>)
        ensures
            out == Some(self.spec_pipeline_def()),
    {
        match self {
            Command::Draw(cmd) => Some(
                PipelineDef {
                    vertex: Some(cmd.vertex_shader),
                    fragment: cmd.fragment_shader,
                    compute: None,
                },
            ),
            Command::Dispatch(cmd) => Some(
                PipelineDef { vertex: None, fragment: None, compute: Some(cmd.compute_shader) },
            ),
        }
    }

    pub open spec fn spec_pipeline_def(&self) -> PipelineDef {
        match self {
            Command::Draw(cmd) => PipelineDef {
                vertex: Some(cmd.vertex_shader),
                fragment: cmd.fragment_shader,
                compute: None,
            },
            Command::Dispatch(cmd) => PipelineDef {
                vertex: None,
                fragment: None,
                compute: Some(cmd.compute_shader),
            },
        }
    }
}

/// Assembles a draw command by value; finish with `build` and record
/// the result with `FrameState::push_cmd`.
#[derive(Clone, Debug)]
pub struct DrawCmdBuilder {
    pub cmd: DrawCmd,
}

impl DrawCmdBuilder {
    /// A draw of one default triangle with the given shaders.
    pub fn new(vertex_shader: ShaderHandle, fragment_shader: ShaderHandle) -> (b: DrawCmdBuilder)
        ensures
            b.cmd.vertex_shader == vertex_shader,
            b.cmd.fragment_shader == Some(fragment_shader),
            b.cmd.primitive_type == PrimitiveType::Triangles,
            b.cmd.num_elements == 3u32,
            b.cmd.num_instances == 1u32,
            b.cmd.index_buffer is None,
            b.cmd.block_bindings@ == Seq::<(BlockBinding, BufferHandle)>::empty(),
            b.cmd.image_bindings@ == Seq::<ImageBinding>::empty(),
    {
        DrawCmdBuilder {
            cmd: DrawCmd {
                vertex_shader,
                fragment_shader: Some(fragment_shader),
                primitive_type: PrimitiveType::Triangles,
                num_elements: 3,
                num_instances: 1,
                index_buffer: None,
                block_bindings: Vec::new(),
                image_bindings: Vec::new(),
            },
        }
    }

    pub fn elements(self, num_elements: u32) -> (out: DrawCmdBuilder)
        ensures
            out.cmd == (DrawCmd { num_elements, ..self.cmd }),
    {
        let DrawCmdBuilder { mut cmd } = self;
        cmd.num_elements = num_elements;
        DrawCmdBuilder { cmd }
    }

    pub fn instances(self, num_instances: u32) -> (out: DrawCmdBuilder)
        ensures
            out.cmd == (DrawCmd { num_instances, ..self.cmd }),
    {
        let DrawCmdBuilder { mut cmd } = self;
        cmd.num_instances = num_instances;
        DrawCmdBuilder { cmd }
    }

    pub fn primitive(self, ty: PrimitiveType) -> (out: DrawCmdBuilder)
        ensures
            out.cmd == (DrawCmd { primitive_type: ty, ..self.cmd }),
    {
        let DrawCmdBuilder { mut cmd } = self;
        cmd.primitive_type = ty;
        DrawCmdBuilder { cmd }
    }

    /// Use indexed rendering with the given index buffer.
    pub fn indexed(self, buffer: BufferHandle) -> (out: DrawCmdBuilder)
        ensures
            out.cmd == (DrawCmd { index_buffer: Some(buffer), ..self.cmd }),
    {
        let DrawCmdBuilder { mut cmd } = self;
        cmd.index_buffer = Some(buffer);
        DrawCmdBuilder { cmd }
    }

    pub fn buffer(self, binding: BlockBinding, buffer: BufferHandle) -> (out: DrawCmdBuilder)
        ensures
            out.cmd.block_bindings@ == self.cmd.block_bindings@.push((binding, buffer)),
            out.cmd.image_bindings == self.cmd.image_bindings,
            out.cmd.vertex_shader == self.cmd.vertex_shader,
            out.cmd.fragment_shader == self.cmd.fragment_shader,
            out.cmd.primitive_type == self.cmd.primitive_type,
            out.cmd.num_elements == self.cmd.num_elements,
            out.cmd.num_instances == self.cmd.num_instances,
            out.cmd.index_buffer == self.cmd.index_buffer,
    {
        let DrawCmdBuilder { mut cmd } = self;
        cmd.block_bindings.push((binding, buffer));
        DrawCmdBuilder { cmd }
    }

    pub fn ubo(self, index: u32, buffer: BufferHandle) -> (out: DrawCmdBuilder)
        ensures
            out.cmd.block_bindings@ == self.cmd.block_bindings@.push(
                (BlockBinding::Explicit(BlockBindingLocation::Ubo(index)), buffer),
            ),
            out.cmd.image_bindings == self.cmd.image_bindings,
            out.cmd.vertex_shader == self.cmd.vertex_shader,
            out.cmd.fragment_shader == self.cmd.fragment_shader,
            out.cmd.primitive_type == self.cmd.primitive_type,
            out.cmd.num_elements == self.cmd.num_elements,
            out.cmd.num_instances == self.cmd.num_instances,
            out.cmd.index_buffer == self.cmd.index_buffer,
    {
        self.buffer(BlockBinding::Explicit(BlockBindingLocation::Ubo(index)), buffer)
    }

    pub fn ssbo(self, index: u32, buffer: BufferHandle) -> (out: DrawCmdBuilder)
        ensures
            out.cmd.block_bindings@ == self.cmd.block_bindings@.push(
                (BlockBinding::Explicit(BlockBindingLocation::Ssbo(index)), buffer),
            ),
            out.cmd.image_bindings == self.cmd.image_bindings,
            out.cmd.vertex_shader == self.cmd.vertex_shader,
            out.cmd.fragment_shader == self.cmd.fragment_shader,
            out.cmd.primitive_type == self.cmd.primitive_type,
            out.cmd.num_elements == self.cmd.num_elements,
            out.cmd.num_instances == self.cmd.num_instances,
            out.cmd.index_buffer == self.cmd.index_buffer,
    {
        self.buffer(BlockBinding::Explicit(BlockBindingLocation::Ssbo(index)), buffer)
    }

    pub fn texture(self, location: ImageBindingLocation, image: ImageHandle, sampler: SamplerDef)
        -> (out: DrawCmdBuilder)
        ensures
            out.cmd.image_bindings@ == self.cmd.image_bindings@.push(
                ImageBinding::Texture { handle: image, sampler, location },
            ),
            out.cmd.block_bindings == self.cmd.block_bindings,
            out.cmd.vertex_shader == self.cmd.vertex_shader,
            out.cmd.fragment_shader == self.cmd.fragment_shader,
            out.cmd.primitive_type == self.cmd.primitive_type,
            out.cmd.num_elements == self.cmd.num_elements,
            out.cmd.num_instances == self.cmd.num_instances,
            out.cmd.index_buffer == self.cmd.index_buffer,
    {
        let DrawCmdBuilder { mut cmd } = self;
        cmd.image_bindings.push(ImageBinding::texture(image, sampler, location));
        DrawCmdBuilder { cmd }
    }

    pub fn image(self, location: ImageBindingLocation, image: ImageHandle) -> (out:
        DrawCmdBuilder)
        ensures
            out.cmd.image_bindings@ == self.cmd.image_bindings@.push(
                ImageBinding::Image { handle: image, location, read_write: false },
            ),
            out.cmd.block_bindings == self.cmd.block_bindings,
            out.cmd.vertex_shader == self.cmd.vertex_shader,
            out.cmd.fragment_shader == self.cmd.fragment_shader,
            out.cmd.primitive_type == self.cmd.primitive_type,
            out.cmd.num_elements == self.cmd.num_elements,
            out.cmd.num_instances == self.cmd.num_instances,
            out.cmd.index_buffer == self.cmd.index_buffer,
    {
        let DrawCmdBuilder { mut cmd } = self;
        cmd.image_bindings.push(ImageBinding::image(image, location));
        DrawCmdBuilder { cmd }
    }

    pub fn image_rw(self, location: ImageBindingLocation, image: ImageHandle) -> (out:
        DrawCmdBuilder)
        ensures
            out.cmd.image_bindings@ == self.cmd.image_bindings@.push(
                ImageBinding::Image { handle: image, location, read_write: true },
            ),
            out.cmd.block_bindings == self.cmd.block_bindings,
            out.cmd.vertex_shader == self.cmd.vertex_shader,
            out.cmd.fragment_shader == self.cmd.fragment_shader,
            out.cmd.primitive_type == self.cmd.primitive_type,
            out.cmd.num_elements == self.cmd.num_elements,
            out.cmd.num_instances == self.cmd.num_instances,
            out.cmd.index_buffer == self.cmd.index_buffer,
    {
        let DrawCmdBuilder { mut cmd } = self;
        cmd.image_bindings.push(ImageBinding::image_rw(image, location));
        DrawCmdBuilder { cmd }
    }

    pub fn build(self) -> (c: Command)
        ensures
            c == Command::Draw(self.cmd),
    {
        Command::Draw(self.cmd)
    }
}

/// Assembles a dispatch command by value; finish with `build` and
/// record the result with `FrameState::push_cmd`.
#[derive(Clone, Debug)]
pub struct DispatchCmdBuilder {
    pub cmd: DispatchCmd,
}

impl DispatchCmdBuilder {
    /// A dispatch of one workgroup with the given compute shader.
    pub fn new(compute_shader: ShaderHandle) -> (b: DispatchCmdBuilder)
        ensures
            b.cmd.compute_shader == compute_shader,
            b.cmd.num_groups == DispatchSizeSource::Explicit(1u32, 1u32, 1u32),
            b.cmd.block_bindings@ == Seq::<(BlockBinding, BufferHandle)>::empty(),
            b.cmd.image_bindings@ == Seq::<ImageBinding>::empty(),
    {
        DispatchCmdBuilder {
            cmd: DispatchCmd {
                compute_shader,
                num_groups: DispatchSizeSource::Explicit(1, 1, 1),
                block_bindings: Vec::new(),
                image_bindings: Vec::new(),
            },
        }
    }

    /// Take the workgroup counts from a resolved indirect buffer.
    pub fn indirect(self, buffer: BufferHandle) -> (out: DispatchCmdBuilder)
        ensures
            out.cmd == (DispatchCmd {
                num_groups: DispatchSizeSource::Indirect(buffer),
                ..self.cmd
            }),
    {
        let DispatchCmdBuilder { mut cmd } = self;
        cmd.num_groups = DispatchSizeSource::Indirect(buffer);
        DispatchCmdBuilder { cmd }
    }

    /// Dispatch exactly the given workgroup counts.
    pub fn groups(self, x: u32, y: u32, z: u32) -> (out: DispatchCmdBuilder)
        ensures
            out.cmd == (DispatchCmd {
                num_groups: DispatchSizeSource::Explicit(x, y, z),
                ..self.cmd
            }),
    {
        let DispatchCmdBuilder { mut cmd } = self;
        cmd.num_groups = DispatchSizeSource::Explicit(x, y, z);
        DispatchCmdBuilder { cmd }
    }

    pub fn buffer(self, binding: BlockBinding, buffer: BufferHandle) -> (out: DispatchCmdBuilder)
        ensures
            out.cmd.block_bindings@ == self.cmd.block_bindings@.push((binding, buffer)),
            out.cmd.image_bindings == self.cmd.image_bindings,
            out.cmd.compute_shader == self.cmd.compute_shader,
            out.cmd.num_groups == self.cmd.num_groups,
    {
        let DispatchCmdBuilder { mut cmd } = self;
        cmd.block_bindings.push((binding, buffer));
        DispatchCmdBuilder { cmd }
    }

    pub fn ubo(self, index: u32, buffer: BufferHandle) -> (out: DispatchCmdBuilder)
        ensures
            out.cmd.block_bindings@ == self.cmd.block_bindings@.push(
                (BlockBinding::Explicit(BlockBindingLocation::Ubo(index)), buffer),
            ),
            out.cmd.image_bindings == self.cmd.image_bindings,
            out.cmd.compute_shader == self.cmd.compute_shader,
            out.cmd.num_groups == self.cmd.num_groups,
    {
        self.buffer(BlockBinding::Explicit(BlockBindingLocation::Ubo(index)), buffer)
    }

    pub fn ssbo(self, index: u32, buffer: BufferHandle) -> (out: DispatchCmdBuilder)
        ensures
            out.cmd.block_bindings@ == self.cmd.block_bindings@.push(
                (BlockBinding::Explicit(BlockBindingLocation::Ssbo(index)), buffer),
            ),
            out.cmd.image_bindings == self.cmd.image_bindings,
            out.cmd.compute_shader == self.cmd.compute_shader,
            out.cmd.num_groups == self.cmd.num_groups,
    {
        self.buffer(BlockBinding::Explicit(BlockBindingLocation::Ssbo(index)), buffer)
    }

    pub fn texture(self, location: ImageBindingLocation, image: ImageHandle, sampler: SamplerDef)
        -> (out: DispatchCmdBuilder)
        ensures
            out.cmd.image_bindings@ == self.cmd.image_bindings@.push(
                ImageBinding::Texture { handle: image, sampler, location },
            ),
            out.cmd.block_bindings == self.cmd.block_bindings,
            out.cmd.compute_shader == self.cmd.compute_shader,
            out.cmd.num_groups == self.cmd.num_groups,
    {
        let DispatchCmdBuilder { mut cmd } = self;
        cmd.image_bindings.push(ImageBinding::texture(image, sampler, location));
        DispatchCmdBuilder { cmd }
    }

    pub fn image(self, location: ImageBindingLocation, image: ImageHandle) -> (out:
        DispatchCmdBuilder)
        ensures
            out.cmd.image_bindings@ == self.cmd.image_bindings@.push(
                ImageBinding::Image { handle: image, location, read_write: false },
            ),
            out.cmd.block_bindings == self.cmd.block_bindings,
            out.cmd.compute_shader == self.cmd.compute_shader,
            out.cmd.num_groups == self.cmd.num_groups,
    {
        let DispatchCmdBuilder { mut cmd } = self;
        cmd.image_bindings.push(ImageBinding::image(image, location));
        DispatchCmdBuilder { cmd }
    }

    pub fn image_rw(self, location: ImageBindingLocation, image: ImageHandle) -> (out:
        DispatchCmdBuilder)
        ensures
            out.cmd.image_bindings@ == self.cmd.image_bindings@.push(
                ImageBinding::Image { handle: image, location, read_write: true },
            ),
            out.cmd.block_bindings == self.cmd.block_bindings,
            out.cmd.compute_shader == self.cmd.compute_shader,
            out.cmd.num_groups == self.cmd.num_groups,
    {
        let DispatchCmdBuilder { mut cmd } = self;
        cmd.image_bindings.push(ImageBinding::image_rw(image, location));
        DispatchCmdBuilder { cmd }
    }

    pub fn build(self) -> (c: Command)
        ensures
            c == Command::Dispatch(self.cmd),
    {
        Command::Dispatch(self.cmd)
    }
}

/// Names a pass of the current frame.
#[derive(Copy, Clone, Debug, Hash, PartialEq, Eq, Structural)]
pub struct PassHandle(pub usize);

/// An ordered group of commands sharing one render-target definition.
#[derive(Clone, Debug)]
pub struct Pass {
    pub name: String,
    pub commands: Vec<Command>,
    pub fbo_def: FboDef,
    pub wants_timer_query: bool,
}

/// Assembles a pass definition by value; `FrameState::add_pass` records
/// it and hands back its handle.
#[derive(Clone, Debug)]
pub struct PassBuilder {
    pub pass: Pass,
}

impl PassBuilder {
    pub fn new(name: String) -> (b: PassBuilder)
        ensures
            b.pass.name == name,
            b.pass.commands@ == Seq::<Command>::empty(),
            b.pass.fbo_def == FboDef::spec_empty(),
            !b.pass.wants_timer_query,
    {
        PassBuilder {
            pass: Pass {
                name,
                commands: Vec::new(),
                fbo_def: FboDef::default(),
                wants_timer_query: false,
            },
        }
    }

    /// Attach an image to one of the four color attachment points.
    pub fn color_attachment(self, attachment_point: u32, image: ImageHandle) -> (out: PassBuilder)
        requires
            attachment_point < 4,
        ensures
            out.pass.name == self.pass.name,
            out.pass.commands == self.pass.commands,
            out.pass.wants_timer_query == self.pass.wants_timer_query,
            out.pass.fbo_def == (match attachment_point {
                0u32 => FboDef { color_attachment_0: Some(image), ..self.pass.fbo_def },
                1u32 => FboDef { color_attachment_1: Some(image), ..self.pass.fbo_def },
                2u32 => FboDef { color_attachment_2: Some(image), ..self.pass.fbo_def },
                _ => FboDef { color_attachment_3: Some(image), ..self.pass.fbo_def },
            }),
    {
        let PassBuilder { mut pass } = self;
        if attachment_point == 0 {
            pass.fbo_def.color_attachment_0 = Some(image);
        } else if attachment_point == 1 {
            pass.fbo_def.color_attachment_1 = Some(image);
        } else if attachment_point == 2 {
            pass.fbo_def.color_attachment_2 = Some(image);
        } else {
            pass.fbo_def.color_attachment_3 = Some(image);
        }
        PassBuilder { pass }
    }

    pub fn depth_stencil_attachment(self, image: ImageHandle) -> (out: PassBuilder)
        ensures
            out.pass.name == self.pass.name,
            out.pass.commands == self.pass.commands,
            out.pass.wants_timer_query == self.pass.wants_timer_query,
            out.pass.fbo_def == (FboDef {
                depth_stencil_attachment: Some(image),
                ..self.pass.fbo_def
            }),
    {
        let PassBuilder { mut pass } = self;
        pass.fbo_def.depth_stencil_attachment = Some(image);
        PassBuilder { pass }
    }

    /// Ask for a GPU timer query around the pass.
    pub fn time(self) -> (out: PassBuilder)
        ensures
            out.pass.name == self.pass.name,
            out.pass.commands == self.pass.commands,
            out.pass.fbo_def == self.pass.fbo_def,
            out.pass.wants_timer_query,
    {
        let PassBuilder { mut pass } = self;
        pass.wants_timer_query = true;
        PassBuilder { pass }
    }
}

/// Everything recorded for one frame: the passes and the transient
/// allocator the frame's buffers live in.
pub struct FrameState {
    pub passes: Vec<Pass>,
    pub allocator: TransientAllocator,
}

impl FrameState {
    pub open spec fn inv(&self) -> bool {
        self.allocator.inv()
    }

    /// A frame with nothing recorded and an empty arena.
    pub open spec fn is_reset(&self) -> bool {
        &&& self.passes@.len() == 0
        &&& self.allocator.transient_data@.len() == 0
        &&& self.allocator.reserved_buffers@.len() == 0
        &&& self.allocator.streamed_buffers@.len() == 0
    }

    pub fn new() -> (out: FrameState)
        ensures
            out.inv(),
            out.is_reset(),
    {
        FrameState { passes: Vec::new(), allocator: TransientAllocator::new() }
    }

    /// Destroy all per-frame entities in bulk: command lists, pending
    /// buffers and the arena, which is reclaimed as a whole rather than
    /// entry by entry.
    pub fn reset(&mut self)
        ensures
            final(self).inv(),
            final(self).is_reset(),
            final(self).passes@ == Seq::<Pass>::empty(),
            final(self).allocator.transient_data@ == Seq::<u8>::empty(),
            final(self).allocator.reserved_buffers@ == Seq::<ReservedBuffer>::empty(),
            final(self).allocator.streamed_buffers@ == Seq::<StreamedBuffer>::empty(),
    {
        self.passes.clear();
        self.allocator.reserved_buffers.clear();
        self.allocator.streamed_buffers.clear();
        self.allocator.transient_data.clear();
    }

    /// Record a command into the given pass.
    pub fn push_cmd(&mut self, pass: PassHandle, cmd: Command)
        requires
            old(self).inv(),
            pass.0 < old(self).passes@.len(),
        ensures
            final(self).inv(),
            final(self).allocator == old(self).allocator,
            final(self).passes@.len() == old(self).passes@.len(),
            forall|k: int|
                0 <= k < old(self).passes@.len() && k != pass.0 ==> final(self).passes@[k] == old(self).passes@[k],
            final(self).passes@[pass.0 as int].name == old(self).passes@[pass.0 as int].name,
            final(self).passes@[pass.0 as int].fbo_def == old(self).passes@[pass.0 as int].fbo_def,
            final(self).passes@[pass.0 as int].wants_timer_query == old(self).passes@[pass.0 as int].wants_timer_query,
            final(self).passes@[pass.0 as int].commands@ == old(self).passes@[pass.0 as int].commands@.push(cmd),
    {
        self.passes[pass.0].commands.push(cmd);
    }

    /// Record an empty pass rendering to the default framebuffer.
    pub fn pass(&mut self, name: String) -> (h: PassHandle)
        requires
            old(self).inv(),
        ensures
            final(self).inv(),
            final(self).allocator == old(self).allocator,
            h.0 == old(self).passes@.len(),
            final(self).passes@.len() == old(self).passes@.len() + 1,
            forall|k: int|
                0 <= k < old(self).passes@.len() ==> final(self).passes@[k] == old(self).passes@[k],
            final(self).passes@.last().name == name,
            final(self).passes@.last().commands@ == Seq::<Command>::empty(),
            final(self).passes@.last().fbo_def == FboDef::spec_empty(),
            !final(self).passes@.last().wants_timer_query,
    {
        self.add_pass(PassBuilder::new(name))
    }

    /// Record a built pass definition and hand back its handle.
    pub fn add_pass(&mut self, builder: PassBuilder) -> (h: PassHandle)
        requires
            old(self).inv(),
        ensures
            final(self).inv(),
            final(self).allocator == old(self).allocator,
            h.0 == old(self).passes@.len(),
            final(self).passes@.len() == old(self).passes@.len() + 1,
            forall|k: int|
                0 <= k < old(self).passes@.len() ==> final(self).passes@[k] == old(self).passes@[k],
            final(self).passes@.last() == builder.pass,
    {
        let index = self.passes.len();
        self.passes.push(builder.pass);
        PassHandle(index)
    }

    /// Copy caller bytes into the frame arena as a streamed buffer.
    pub fn stream_buffer(&mut self, data: &Vec<u8>) -> (h: BufferHandle)
        requires
            old(self).inv(),
        ensures
            final(self).inv(),
            final(self).passes == old(self).passes,
            h == BufferHandle::Streamed(old(self).allocator.streamed_buffers@.len() as usize),
            final(self).allocator.streamed_buffers@.len() == old(self).allocator.streamed_buffers@.len() + 1,
            final(self).allocator.reserved_buffers == old(self).allocator.reserved_buffers,
            final(self).allocator.streamed_bytes(
                old(self).allocator.streamed_buffers@.len() as int,
            ) == data@,
            forall|k: int|
                0 <= k < old(self).allocator.streamed_buffers@.len() ==> final(self).allocator.streamed_buffers@[k] == old(self).allocator.streamed_buffers@[k],
            final(self).allocator.streamed_buffers@.last() == (StreamedBuffer::Pending {
                data_start: old(self).allocator.transient_data@.len() as usize,
                size: data@.len() as usize,
                alignment: crate::frame::DEFAULT_BUFFER_ALIGNMENT,
            }),
    {
        self.allocator.stream_buffer(data)
    }

    /// Record a reserved buffer of the given size; the GPU supplies the
    /// contents later.
    pub fn reserve_buffer(&mut self, size: usize) -> (h: BufferHandle)
        requires
            old(self).inv(),
        ensures
            final(self).inv(),
            final(self).passes == old(self).passes,
            h == BufferHandle::Reserved(old(self).allocator.reserved_buffers@.len() as usize),
            final(self).allocator.reserved_buffers@ == old(self).allocator.reserved_buffers@.push(
                ReservedBuffer::Pending {
                    size,
                    alignment: crate::frame::DEFAULT_BUFFER_ALIGNMENT,
                },
            ),
            final(self).allocator.streamed_buffers == old(self).allocator.streamed_buffers,
            final(self).allocator.transient_data == old(self).allocator.transient_data,
    {
        self.allocator.reserve_buffer(size)
    }
}

/// Any two fully reset frames carry the same recorded state, so calling
/// `reset` on a frame that was just reset changes nothing it records:
/// resetting is idempotent.
pub proof fn lemma_reset_idempotent(a: FrameState, b: FrameState)
    requires
        a.is_reset(),
        b.is_reset(),
    ensures
        a.passes@ == b.passes@,
        a.allocator.transient_data@ == b.allocator.transient_data@,
        a.allocator.reserved_buffers@ == b.allocator.reserved_buffers@,
        a.allocator.streamed_buffers@ == b.allocator.streamed_buffers@,
{
    assert(a.passes@ =~= b.passes@);
    assert(a.allocator.transient_data@ =~= b.allocator.transient_data@);
    assert(a.allocator.reserved_buffers@ =~= b.allocator.reserved_buffers@);
    assert(a.allocator.streamed_buffers@ =~= b.allocator.streamed_buffers@);
}

} // verus!
