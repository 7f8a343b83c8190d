//! The per-frame pipeline: bind resolution, alignment propagation,
//! upload, and ordered submission planning with barrier insertion.
//!
//! `Context::end_frame` drives the phases in order and produces a
//! `FramePlan`: plain data describing, pass by pass and command by
//! command, exactly what the surrounding application must hand to the
//! GPU driver.  The application executes the plan, fences it, and
//! reports the fence back through `finish_frame`.

use vstd::prelude::*;
use crate::barrier::{
    BarrierOp, ResourceBarrierTracker, TrackerHandle, BY_REGION_FLAGS, COMMAND_BARRIER_BIT,
    ELEMENT_ARRAY_BARRIER_BIT, SHADER_IMAGE_ACCESS_BARRIER_BIT, SHADER_STORAGE_BARRIER_BIT,
    TEXTURE_FETCH_BARRIER_BIT, UNIFORM_BARRIER_BIT,
};
use crate::commands::{
    BlockBinding, Command, DispatchSizeSource, FrameState, ImageBinding, ImageBindingLocation,
    Pass, PrimitiveType,
};
use crate::errors::RenderError;
use crate::frame::{
    BufferHandle, ReservedBuffer, StreamedBuffer, TransientAllocator, spec_max,
    DEFAULT_BUFFER_ALIGNMENT, SSBO_ALIGNMENT,
};
use crate::pipeline::{find_by_location, PipelineObject};
use crate::resources::{
    assoc_find, find_block, BlockBindingLocation, BlockDescription, FboObject, ImageObject,
    SamplerDef, SamplerObject,
};
use crate::resource_manager::ResourceManager;
use crate::upload_heap::{is_pow2, BufferAllocation, UploadHeap};

verus! {

/// What a named block binding resolves to against a pipeline's table.
pub open spec fn resolve_block_binding(b: BlockBinding, po: PipelineObject) -> Option<
    BlockBinding,
> {
    match b {
        BlockBinding::Explicit(loc) => Some(BlockBinding::Explicit(loc)),
        BlockBinding::Named(n) => match assoc_find(po.composite_blocks@, n@) {
            Some(d) => Some(BlockBinding::Explicit(d.binding_location)),
            None => None,
        },
    }
}

/// What a named image binding location resolves to.
pub open spec fn resolve_image_location(l: ImageBindingLocation, po: PipelineObject) -> Option<
    ImageBindingLocation,
> {
    match l {
        ImageBindingLocation::Explicit(unit) => Some(ImageBindingLocation::Explicit(unit)),
        ImageBindingLocation::Named(n) => match assoc_find(po.composite_image_bindings@, n@) {
            Some(unit) => Some(ImageBindingLocation::Explicit(unit)),
            None => None,
        },
    }
}

/// Two commands that differ at most in their binding slots.
pub open spec fn same_command_shell(a: Command, b: Command) -> bool {
    match (a, b) {
        (Command::Draw(x), Command::Draw(y)) => {
            &&& x.vertex_shader == y.vertex_shader
            &&& x.fragment_shader == y.fragment_shader
            &&& x.primitive_type == y.primitive_type
            &&& x.num_elements == y.num_elements
            &&& x.num_instances == y.num_instances
            &&& x.index_buffer == y.index_buffer
        },
        (Command::Dispatch(x), Command::Dispatch(y)) => {
            &&& x.compute_shader == y.compute_shader
            &&& x.num_groups == y.num_groups
        },
        _ => false,
    }
}

/// Every named binding of the command resolves against its pipeline.
pub open spec fn command_resolvable(cmd: Command, po: PipelineObject) -> bool {
    &&& forall|k: int|
        0 <= k < cmd.spec_block_bindings()@.len() ==> resolve_block_binding(
            (#[trigger] cmd.spec_block_bindings()@[k]).0,
            po,
        ) is Some
    &&& forall|k: int|
        0 <= k < cmd.spec_image_bindings()@.len() ==> resolve_image_location(
            (#[trigger] cmd.spec_image_bindings()@[k]).spec_location(),
            po,
        ) is Some
}

/// The command after resolution: the same work, every binding explicit.
pub open spec fn command_resolved_from(pre: Command, post: Command, po: PipelineObject) -> bool {
    &&& same_command_shell(pre, post)
    &&& post.spec_block_bindings()@.len() == pre.spec_block_bindings()@.len()
    &&& post.spec_image_bindings()@.len() == pre.spec_image_bindings()@.len()
    &&& forall|k: int|
        0 <= k < pre.spec_block_bindings()@.len() ==> Some(
            (#[trigger] post.spec_block_bindings()@[k]).0,
        ) == resolve_block_binding(pre.spec_block_bindings()@[k].0, po)
            && post.spec_block_bindings()@[k].1 == pre.spec_block_bindings()@[k].1
    &&& forall|k: int|
        0 <= k < pre.spec_image_bindings()@.len() ==> Some(
            (#[trigger] post.spec_image_bindings()@[k]).spec_location(),
        ) == resolve_image_location(pre.spec_image_bindings()@[k].spec_location(), po)
            && post.spec_image_bindings()@[k].spec_image_handle()
            == pre.spec_image_bindings()@[k].spec_image_handle()
            && post.spec_image_bindings()@[k].spec_writes()
            == pre.spec_image_bindings()@[k].spec_writes()
}

/// Replace every named binding of one command with the explicit
/// location its pipeline reflects for the name.  Fails naming the
/// binding that the pipeline does not know.
pub fn resolve_command(cmd: &mut Command, po: &PipelineObject) -> (out: Result<(), RenderError>)
    ensures
        same_command_shell(*old(cmd), *final(cmd)),
        final(cmd).spec_block_bindings()@.len() == old(cmd).spec_block_bindings()@.len(),
        final(cmd).spec_image_bindings()@.len() == old(cmd).spec_image_bindings()@.len(),
        binding_payloads_preserved(*old(cmd), *final(cmd)),
        match out {
            Ok(()) => command_resolved_from(*old(cmd), *final(cmd), *po),
            Err(e) => match e {
                RenderError::UnknownBlockBinding(n) => assoc_find(po.composite_blocks@, n@)
                    is None && exists|k: int|
                    0 <= k < old(cmd).spec_block_bindings()@.len()
                        && (#[trigger] old(cmd).spec_block_bindings()@[k]).0 == BlockBinding::Named(
                        n,
                    ),
                RenderError::UnknownImageBinding(n) => assoc_find(
                    po.composite_image_bindings@,
                    n@,
                ) is None && exists|k: int|
                    0 <= k < old(cmd).spec_image_bindings()@.len()
                        && (#[trigger] old(cmd).spec_image_bindings()@[k]).spec_location()
                        == ImageBindingLocation::Named(n),
                _ => false,
            },
        },
        out is Ok <==> command_resolvable(*old(cmd), *po),
{
    let (block_bindings, image_bindings) = match cmd {
        Command::Draw(c) => (&mut c.block_bindings, &mut c.image_bindings),
        Command::Dispatch(c) => (&mut c.block_bindings, &mut c.image_bindings),
    };
    let ghost pre_blocks = block_bindings@;
    let ghost pre_images = image_bindings@;

    let mut k: usize = 0;
    #[verifier::loop_isolation(false)]
    while k < block_bindings.len()
        invariant
            k <= pre_blocks.len(),
            block_bindings@.len() == pre_blocks.len(),
            forall|j: int|
                0 <= j < k ==> Some((#[trigger] block_bindings@[j]).0) == resolve_block_binding(
                    pre_blocks[j].0,
                    *po,
                ) && block_bindings@[j].1 == pre_blocks[j].1,
            forall|j: int| k <= j < pre_blocks.len() ==> block_bindings@[j] == pre_blocks[j],
        decreases pre_blocks.len() - k,
    {
        let needs = match &block_bindings[k].0 {
            BlockBinding::Named(_) => true,
            BlockBinding::Explicit(_) => false,
        };
        if needs {
            let name = match &block_bindings[k].0 {
                BlockBinding::Named(n) => n.clone(),
                BlockBinding::Explicit(_) => {
                    proof {
                        assert(false);
                    }
                    String::new()
                },
            };
            match po.block_by_name(&name) {
                Some(block) => {
                    let buffer = block_bindings[k].1;
                    let location = block.binding_location;
                    block_bindings[k] = (BlockBinding::Explicit(location), buffer);
                },
                None => {
                    proof {
                        assert(old(cmd).spec_block_bindings()@ == pre_blocks);
                        assert(pre_blocks[k as int].0 == BlockBinding::Named(name));
                        assert((#[trigger] old(cmd).spec_block_bindings()@[k as int]).0
                            == BlockBinding::Named(name));
                        assert(resolve_block_binding(
                            old(cmd).spec_block_bindings()@[k as int].0,
                            *po,
                        ) is None);
                    }
                    return Err(RenderError::UnknownBlockBinding(name));
                },
            }
        }
        k += 1;
    }

    let mut k: usize = 0;
    #[verifier::loop_isolation(false)]
    while k < image_bindings.len()
        invariant
            k <= pre_images.len(),
            image_bindings@.len() == pre_images.len(),
            forall|j: int|
                0 <= j < k ==> Some((#[trigger] image_bindings@[j]).spec_location())
                    == resolve_image_location(pre_images[j].spec_location(), *po)
                    && image_bindings@[j].spec_image_handle() == pre_images[j].spec_image_handle()
                    && image_bindings@[j].spec_writes() == pre_images[j].spec_writes(),
            forall|j: int| k <= j < pre_images.len() ==> image_bindings@[j] == pre_images[j],
        decreases pre_images.len() - k,
    {
        let needs = match image_bindings[k].location() {
            ImageBindingLocation::Named(_) => true,
            ImageBindingLocation::Explicit(_) => false,
        };
        if needs {
            let name = match image_bindings[k].location() {
                ImageBindingLocation::Named(n) => n.clone(),
                ImageBindingLocation::Explicit(_) => {
                    proof {
                        assert(false);
                    }
                    String::new()
                },
            };
            match po.image_binding_by_name(&name) {
                Some(unit) => {
                    image_bindings[k].set_location(ImageBindingLocation::Explicit(unit));
                },
                None => {
                    proof {
                        assert(old(cmd).spec_image_bindings()@ == pre_images);
                        assert(pre_images[k as int].spec_location() == ImageBindingLocation::Named(
                            name,
                        ));
                        assert((#[trigger] old(cmd).spec_image_bindings()@[
                            k as int]).spec_location() == ImageBindingLocation::Named(name));
                        assert(resolve_image_location(
                            old(cmd).spec_image_bindings()@[k as int].spec_location(),
                            *po,
                        ) is None);
                    }
                    return Err(RenderError::UnknownImageBinding(name));
                },
            }
        }
        k += 1;
    }

    proof {
        assert(old(cmd).spec_block_bindings()@ == pre_blocks);
        assert(old(cmd).spec_image_bindings()@ == pre_images);
        assert forall|k: int|
            0 <= k < old(cmd).spec_block_bindings()@.len() implies resolve_block_binding(
            (#[trigger] old(cmd).spec_block_bindings()@[k]).0,
            *po,
        ) is Some by {
            assert(old(cmd).spec_block_bindings()@[k] == pre_blocks[k]);
            assert(Some((#[trigger] block_bindings@[k]).0) == resolve_block_binding(
                pre_blocks[k].0,
                *po,
            ));
        }
        assert forall|k: int|
            0 <= k < old(cmd).spec_image_bindings()@.len() implies resolve_image_location(
            (#[trigger] old(cmd).spec_image_bindings()@[k]).spec_location(),
            *po,
        ) is Some by {
            assert(old(cmd).spec_image_bindings()@[k] == pre_images[k]);
            assert(Some((#[trigger] image_bindings@[k]).spec_location())
                == resolve_image_location(pre_images[k].spec_location(), *po));
        }
    }
    Ok(())
}

/// The command's named bindings all resolve against the pipeline the
/// store holds for its shader set.
pub open spec fn command_phase_ok(pre: Command, post: Command, store: ResourceManager) -> bool {
    match store.spec_lookup_pipeline(pre.spec_pipeline_def()) {
        Some(po) => command_resolved_from(pre, post, po),
        None => false,
    }
}

/// Every command of the frame has a registered pipeline and every
/// named binding occurs in that pipeline's tables.
pub open spec fn frame_resolvable(frame: FrameState, store: ResourceManager) -> bool {
    forall|p: int, c: int|
        0 <= p < frame.passes@.len() && 0 <= c < frame.passes@[p].commands@.len() ==> {
            let cmd = #[trigger] frame.passes@[p].commands@[c];
            match store.spec_lookup_pipeline(cmd.spec_pipeline_def()) {
                Some(po) => command_resolvable(cmd, po),
                None => false,
            }
        }
}

/// Two block descriptions describe the same data layout: the same
/// binding location and the same size.  The access qualifier is not
/// part of the layout — one pipeline may write a block another only
/// reads.
pub open spec fn layout_compatible(a: BlockDescription, b: BlockDescription) -> bool {
    a.binding_location == b.binding_location && a.total_size == b.total_size
}

/// The description a named block binding of the command resolves to:
/// the entry its own pipeline reflects under the name, when the
/// pipeline is registered and knows the name.
pub open spec fn named_block_desc(cmd: Command, store: ResourceManager, k: int) -> Option<
    BlockDescription,
> {
    match cmd.spec_block_bindings()@[k].0 {
        BlockBinding::Named(n) => match store.spec_lookup_pipeline(cmd.spec_pipeline_def()) {
            Some(po) => assoc_find(po.composite_blocks@, n@),
            None => None,
        },
        BlockBinding::Explicit(_) => None,
    }
}

/// Any two named block bindings of the frame that share a name resolve
/// to layout-compatible descriptions, across all commands and
/// pipelines.
pub open spec fn frame_named_blocks_agree(frame: FrameState, store: ResourceManager) -> bool {
    forall|p1: int, c1: int, k1: int, p2: int, c2: int, k2: int|
        #![trigger frame.passes@[p1].commands@[c1].spec_block_bindings()@[k1],
            frame.passes@[p2].commands@[c2].spec_block_bindings()@[k2]]
        named_use_in_range(frame, p1, c1, k1) && named_use_in_range(frame, p2, c2, k2)
            && block_name_at(frame, p1, c1, k1) == block_name_at(frame, p2, c2, k2) && named_block_desc(
            frame.passes@[p1].commands@[c1],
            store,
            k1,
        ) is Some && named_block_desc(frame.passes@[p2].commands@[c2], store, k2) is Some
            ==> layout_compatible(
            named_block_desc(frame.passes@[p1].commands@[c1], store, k1).unwrap(),
            named_block_desc(frame.passes@[p2].commands@[c2], store, k2).unwrap(),
        )
}

/// Whether the indices name a block binding of the frame that is named
/// rather than explicit.
pub open spec fn named_use_in_range(frame: FrameState, p: int, c: int, k: int) -> bool {
    0 <= p < frame.passes@.len() && 0 <= c < frame.passes@[p].commands@.len() && 0 <= k
        < frame.passes@[p].commands@[c].spec_block_bindings()@.len()
        && frame.passes@[p].commands@[c].spec_block_bindings()@[k].0 is Named
}

/// The characters of the name used by a named block binding.
pub open spec fn block_name_at(frame: FrameState, p: int, c: int, k: int) -> Seq<char> {
    match frame.passes@[p].commands@[c].spec_block_bindings()@[k].0 {
        BlockBinding::Named(n) => n@,
        BlockBinding::Explicit(_) => Seq::empty(),
    }
}

/// Two named uses of this name across the frame resolve to
/// layout-incompatible descriptions.
pub open spec fn frame_named_conflict(frame: FrameState, store: ResourceManager, n: String) -> bool {
    exists|p1: int, c1: int, k1: int, p2: int, c2: int, k2: int|
        #![trigger frame.passes@[p1].commands@[c1].spec_block_bindings()@[k1],
            frame.passes@[p2].commands@[c2].spec_block_bindings()@[k2]]
        named_use_in_range(frame, p1, c1, k1) && named_use_in_range(frame, p2, c2, k2)
            && block_name_at(frame, p1, c1, k1) == n@ && block_name_at(frame, p2, c2, k2) == n@
            && named_block_desc(frame.passes@[p1].commands@[c1], store, k1) is Some
            && named_block_desc(frame.passes@[p2].commands@[c2], store, k2) is Some
            && !layout_compatible(
            named_block_desc(frame.passes@[p1].commands@[c1], store, k1).unwrap(),
            named_block_desc(frame.passes@[p2].commands@[c2], store, k2).unwrap(),
        )
}

/// Whether one triple of indices comes before another in submission
/// order.
pub open spec fn lex_before(p1: int, c1: int, k1: int, p: int, c: int, k: int) -> bool {
    p1 < p || (p1 == p && (c1 < c || (c1 == c && k1 < k)))
}

/// A use pair that conflicts refutes frame-wide agreement.
proof fn lemma_conflict_not_agree(frame: FrameState, store: ResourceManager, n: String)
    requires
        frame_named_conflict(frame, store, n),
    ensures
        !frame_named_blocks_agree(frame, store),
{
    let (p1, c1, k1, p2, c2, k2) = choose|p1: int, c1: int, k1: int, p2: int, c2: int, k2: int|
        #![trigger frame.passes@[p1].commands@[c1].spec_block_bindings()@[k1],
            frame.passes@[p2].commands@[c2].spec_block_bindings()@[k2]]
        named_use_in_range(frame, p1, c1, k1) && named_use_in_range(frame, p2, c2, k2)
            && block_name_at(frame, p1, c1, k1) == n@ && block_name_at(frame, p2, c2, k2) == n@
            && named_block_desc(frame.passes@[p1].commands@[c1], store, k1) is Some
            && named_block_desc(frame.passes@[p2].commands@[c2], store, k2) is Some
            && !layout_compatible(
            named_block_desc(frame.passes@[p1].commands@[c1], store, k1).unwrap(),
            named_block_desc(frame.passes@[p2].commands@[c2], store, k2).unwrap(),
        );
    assert(frame.passes@[p1].commands@[c1].spec_block_bindings()@[k1]
        == frame.passes@[p1].commands@[c1].spec_block_bindings()@[k1]);
    assert(frame.passes@[p2].commands@[c2].spec_block_bindings()@[k2]
        == frame.passes@[p2].commands@[c2].spec_block_bindings()@[k2]);
}

/// Check that every name shared between block bindings of this frame
/// resolves to one data layout, across all commands and pipelines: two
/// draws may share a named uniform block only if their pipelines agree
/// on where it binds and how large it is.  The failure names the
/// binding, so resolution can never silently pick one of two layouts.
pub fn check_named_block_consistency(frame: &FrameState, store: &ResourceManager) -> (out: Result<
    (),
    RenderError,
>)
    ensures
        out is Ok <==> frame_named_blocks_agree(*frame, *store),
        out matches Err(e) ==> match e {
            RenderError::IncompatibleBlock(n) => frame_named_conflict(*frame, *store, n),
            _ => false,
        },
{
    let mut table: Vec<(String, BlockDescription)> = Vec::new();
    let ghost mut origins: Seq<(int, int, int)> = Seq::empty();

    let mut p: usize = 0;
    #[verifier::loop_isolation(false)]
    while p < frame.passes.len()
        invariant
            p <= frame.passes@.len(),
            origins.len() == table@.len(),
            forall|e: int|
                0 <= e < table@.len() ==> {
                    let (op, oc, ok) = #[trigger] origins[e];
                    &&& named_use_in_range(*frame, op, oc, ok)
                    &&& block_name_at(*frame, op, oc, ok) == table@[e].0@
                    &&& named_block_desc(frame.passes@[op].commands@[oc], *store, ok) == Some(
                        table@[e].1,
                    )
                },
            forall|p1: int, c1: int, k1: int|
                #![trigger frame.passes@[p1].commands@[c1].spec_block_bindings()@[k1]]
                named_use_in_range(*frame, p1, c1, k1) && lex_before(p1, c1, k1, p as int, 0, 0)
                    && named_block_desc(frame.passes@[p1].commands@[c1], *store, k1) is Some
                    ==> assoc_find(table@, block_name_at(*frame, p1, c1, k1)) is Some
                    && layout_compatible(
                    assoc_find(table@, block_name_at(*frame, p1, c1, k1)).unwrap(),
                    named_block_desc(frame.passes@[p1].commands@[c1], *store, k1).unwrap(),
                ),
        decreases frame.passes@.len() - p,
    {
        let commands = frame.passes[p].commands.len();
        let mut c: usize = 0;
        #[verifier::loop_isolation(false)]
        while c < commands
            invariant
                commands == frame.passes@[p as int].commands@.len(),
                p < frame.passes@.len(),
                c <= commands,
                origins.len() == table@.len(),
                forall|e: int|
                    0 <= e < table@.len() ==> {
                        let (op, oc, ok) = #[trigger] origins[e];
                        &&& named_use_in_range(*frame, op, oc, ok)
                        &&& block_name_at(*frame, op, oc, ok) == table@[e].0@
                        &&& named_block_desc(frame.passes@[op].commands@[oc], *store, ok) == Some(
                            table@[e].1,
                        )
                    },
                forall|p1: int, c1: int, k1: int|
                    #![trigger frame.passes@[p1].commands@[c1].spec_block_bindings()@[k1]]
                    named_use_in_range(*frame, p1, c1, k1) && lex_before(
                        p1,
                        c1,
                        k1,
                        p as int,
                        c as int,
                        0,
                    ) && named_block_desc(frame.passes@[p1].commands@[c1], *store, k1) is Some
                        ==> assoc_find(table@, block_name_at(*frame, p1, c1, k1)) is Some
                        && layout_compatible(
                        assoc_find(table@, block_name_at(*frame, p1, c1, k1)).unwrap(),
                        named_block_desc(frame.passes@[p1].commands@[c1], *store, k1).unwrap(),
                    ),
            decreases commands - c,
        {
            let def = frame.passes[p].commands[c].pipeline_def().unwrap();
            match store.lookup_pipeline(&def) {
                Some(po) => {
                    let bindings = frame.passes[p].commands[c].block_bindings().unwrap();
                    let mut k: usize = 0;
                    #[verifier::loop_isolation(false)]
                    while k < bindings.len()
                        invariant
                            k <= bindings@.len(),
                            bindings@ == frame.passes@[p as int].commands@[
                                c as int].spec_block_bindings()@,
                            store.spec_lookup_pipeline(
                                frame.passes@[p as int].commands@[c as int].spec_pipeline_def(),
                            ) == Some(*po),
                            origins.len() == table@.len(),
                            forall|e: int|
                                0 <= e < table@.len() ==> {
                                    let (op, oc, ok) = #[trigger] origins[e];
                                    &&& named_use_in_range(*frame, op, oc, ok)
                                    &&& block_name_at(*frame, op, oc, ok) == table@[e].0@
                                    &&& named_block_desc(
                                        frame.passes@[op].commands@[oc],
                                        *store,
                                        ok,
                                    ) == Some(table@[e].1)
                                },
                            forall|p1: int, c1: int, k1: int|
                                #![trigger frame.passes@[p1].commands@[c1].spec_block_bindings()@[
                                    k1]]
                                named_use_in_range(*frame, p1, c1, k1) && lex_before(
                                    p1,
                                    c1,
                                    k1,
                                    p as int,
                                    c as int,
                                    k as int,
                                ) && named_block_desc(
                                    frame.passes@[p1].commands@[c1],
                                    *store,
                                    k1,
                                ) is Some ==> assoc_find(
                                    table@,
                                    block_name_at(*frame, p1, c1, k1),
                                ) is Some && layout_compatible(
                                    assoc_find(table@, block_name_at(*frame, p1, c1, k1)).unwrap(),
                                    named_block_desc(
                                        frame.passes@[p1].commands@[c1],
                                        *store,
                                        k1,
                                    ).unwrap(),
                                ),
                        decreases bindings@.len() - k,
                    {
                        match &bindings[k].0 {
                            BlockBinding::Named(n) => {
                                match po.block_by_name(n) {
                                    Some(desc) => {
                                        match find_block(&table, n) {
                                            Some(existing) => {
                                                let compatible = existing.binding_location
                                                    == desc.binding_location
                                                    && existing.total_size == desc.total_size;
                                                if !compatible {
                                                    proof {
                                                        crate::pipeline::lemma_assoc_find_some_entry(
                                                            table@,
                                                            n@,
                                                        );
                                                        let e = choose|e: int|
                                                            0 <= e < table@.len() && (
                                                            #[trigger] table@[e]).0@ == n@ && Some(
                                                                table@[e].1,
                                                            ) == assoc_find(table@, n@);
                                                        let (op, oc, ok) = origins[e];
                                                        assert(named_use_in_range(
                                                            *frame,
                                                            p as int,
                                                            c as int,
                                                            k as int,
                                                        ));
                                                        assert(frame_named_conflict(
                                                            *frame,
                                                            *store,
                                                            *n,
                                                        )) by {
                                                            assert(frame.passes@[op].commands@[
                                                                oc].spec_block_bindings()@[ok]
                                                                == frame.passes@[op].commands@[
                                                                oc].spec_block_bindings()@[ok]);
                                                            assert(frame.passes@[
                                                                p as int].commands@[
                                                                c as int].spec_block_bindings()@[
                                                                k as int] == bindings@[k as int]);
                                                        }
                                                        lemma_conflict_not_agree(
                                                            *frame,
                                                            *store,
                                                            *n,
                                                        );
                                                    }
                                                    return Err(
                                                        RenderError::IncompatibleBlock(n.clone()),
                                                    );
                                                }
                                            },
                                            None => {
                                                proof {
                                                    crate::pipeline::lemma_assoc_find_none(
                                                        table@,
                                                        n@,
                                                    );
                                                }
                                                let ghost pre_table = table@;
                                                let cloned = n.clone();
                                                let desc_copy = *desc;
                                                table.push((cloned, desc_copy));
                                                proof {
                                                    origins = origins.push(
                                                        (p as int, c as int, k as int),
                                                    );
                                                    assert forall|name: Seq<char>|
                                                        assoc_find(pre_table, name)
                                                            is Some implies assoc_find(
                                                        table@,
                                                        name,
                                                    ) == assoc_find(pre_table, name) by {
                                                        crate::pipeline::lemma_assoc_find_push(
                                                            pre_table,
                                                            (cloned, desc_copy),
                                                            name,
                                                        );
                                                    }
                                                    crate::pipeline::lemma_assoc_find_push(
                                                        pre_table,
                                                        (cloned, desc_copy),
                                                        n@,
                                                    );
                                                    assert(assoc_find(table@, n@) == Some(
                                                        desc_copy,
                                                    ));
                                                }
                                            },
                                        }
                                    },
                                    None => {},
                                }
                            },
                            BlockBinding::Explicit(_) => {},
                        }
                        k += 1;
                    }
                },
                None => {},
            }
            c += 1;
        }
        p += 1;
    }
    proof {
        assert forall|p1: int, c1: int, k1: int, p2: int, c2: int, k2: int|
            #![trigger frame.passes@[p1].commands@[c1].spec_block_bindings()@[k1],
                frame.passes@[p2].commands@[c2].spec_block_bindings()@[k2]]
            named_use_in_range(*frame, p1, c1, k1) && named_use_in_range(*frame, p2, c2, k2)
                && block_name_at(*frame, p1, c1, k1) == block_name_at(*frame, p2, c2, k2)
                && named_block_desc(frame.passes@[p1].commands@[c1], *store, k1) is Some
                && named_block_desc(
                frame.passes@[p2].commands@[c2],
                *store,
                k2,
            ) is Some implies layout_compatible(
            named_block_desc(frame.passes@[p1].commands@[c1], *store, k1).unwrap(),
            named_block_desc(frame.passes@[p2].commands@[c2], *store, k2).unwrap(),
        ) by {
            assert(lex_before(p1, c1, k1, p as int, 0, 0));
            assert(lex_before(p2, c2, k2, p as int, 0, 0));
        }
    }
    Ok(())
}

/// Some command of the frame has no pipeline registered for its
/// shader set.
pub open spec fn frame_has_missing_pipeline(frame: FrameState, store: ResourceManager) -> bool {
    exists|p: int, c: int|
        0 <= p < frame.passes@.len() && 0 <= c < frame.passes@[p].commands@.len()
            && store.spec_lookup_pipeline(
            (#[trigger] frame.passes@[p].commands@[c]).spec_pipeline_def(),
        ) is None
}

/// Some command of the frame carries the named block binding and its
/// pipeline's tables do not know the name.
pub open spec fn frame_has_unknown_block(
    frame: FrameState,
    store: ResourceManager,
    n: String,
) -> bool {
    exists|p: int, c: int, k: int|
        #![trigger frame.passes@[p].commands@[c].spec_block_bindings()@[k]]
        0 <= p < frame.passes@.len() && 0 <= c < frame.passes@[p].commands@.len() && 0 <= k
            < frame.passes@[p].commands@[c].spec_block_bindings()@.len()
            && frame.passes@[p].commands@[c].spec_block_bindings()@[k].0 == BlockBinding::Named(n)
            && match store.spec_lookup_pipeline(
            frame.passes@[p].commands@[c].spec_pipeline_def(),
        ) {
            Some(po) => assoc_find(po.composite_blocks@, n@) is None,
            None => false,
        }
}

/// Some command of the frame carries the named image binding and its
/// pipeline's tables do not know the name.
pub open spec fn frame_has_unknown_image(
    frame: FrameState,
    store: ResourceManager,
    n: String,
) -> bool {
    exists|p: int, c: int, k: int|
        #![trigger frame.passes@[p].commands@[c].spec_image_bindings()@[k]]
        0 <= p < frame.passes@.len() && 0 <= c < frame.passes@[p].commands@.len() && 0 <= k
            < frame.passes@[p].commands@[c].spec_image_bindings()@.len()
            && frame.passes@[p].commands@[c].spec_image_bindings()@[k].spec_location()
            == ImageBindingLocation::Named(n)
            && match store.spec_lookup_pipeline(
            frame.passes@[p].commands@[c].spec_pipeline_def(),
        ) {
            Some(po) => assoc_find(po.composite_image_bindings@, n@) is None,
            None => false,
        }
}

/// A command resolved against a pipeline was resolvable against it.
proof fn lemma_resolved_implies_resolvable(pre: Command, post: Command, po: PipelineObject)
    requires
        command_resolved_from(pre, post, po),
    ensures
        command_resolvable(pre, po),
{
    assert forall|k: int|
        0 <= k < pre.spec_block_bindings()@.len() implies resolve_block_binding(
        (#[trigger] pre.spec_block_bindings()@[k]).0,
        po,
    ) is Some by {
        assert(Some((#[trigger] post.spec_block_bindings()@[k]).0) == resolve_block_binding(
            pre.spec_block_bindings()@[k].0,
            po,
        ));
    }
    assert forall|k: int|
        0 <= k < pre.spec_image_bindings()@.len() implies resolve_image_location(
        (#[trigger] pre.spec_image_bindings()@[k]).spec_location(),
        po,
    ) is Some by {
        assert(Some((#[trigger] post.spec_image_bindings()@[k]).spec_location())
            == resolve_image_location(pre.spec_image_bindings()@[k].spec_location(), po));
    }
}

/// Resolve every named binding of one pass, command by command.
fn resolve_pass(pass: &mut Pass, store: &ResourceManager) -> (out: Result<(), RenderError>)
    ensures
        final(pass).name == old(pass).name,
        final(pass).fbo_def == old(pass).fbo_def,
        final(pass).wants_timer_query == old(pass).wants_timer_query,
        final(pass).commands@.len() == old(pass).commands@.len(),
        forall|c: int|
            0 <= c < old(pass).commands@.len() ==> same_command_shell(
                #[trigger] old(pass).commands@[c],
                final(pass).commands@[c],
            ) && final(pass).commands@[c].spec_block_bindings()@.len() == old(
                pass,
            ).commands@[c].spec_block_bindings()@.len()
                && final(pass).commands@[c].spec_image_bindings()@.len() == old(
                pass,
            ).commands@[c].spec_image_bindings()@.len() && binding_payloads_preserved(
                old(pass).commands@[c],
                final(pass).commands@[c],
            ),
        out is Ok ==> forall|c: int|
            0 <= c < old(pass).commands@.len() ==> command_phase_ok(
                #[trigger] old(pass).commands@[c],
                final(pass).commands@[c],
                *store,
            ),
        out is Ok <==> forall|c: int|
            0 <= c < old(pass).commands@.len() ==> match store.spec_lookup_pipeline(
                (#[trigger] old(pass).commands@[c]).spec_pipeline_def(),
            ) {
                Some(po) => command_resolvable(old(pass).commands@[c], po),
                None => false,
            },
        out matches Err(e) ==> match e {
            RenderError::MissingPipeline => exists|c: int|
                0 <= c < old(pass).commands@.len() && store.spec_lookup_pipeline(
                    (#[trigger] old(pass).commands@[c]).spec_pipeline_def(),
                ) is None,
            RenderError::UnknownBlockBinding(n) => exists|c: int, k: int|
                #![trigger old(pass).commands@[c].spec_block_bindings()@[k]]
                0 <= c < old(pass).commands@.len() && 0 <= k < old(
                    pass,
                ).commands@[c].spec_block_bindings()@.len() && old(
                    pass,
                ).commands@[c].spec_block_bindings()@[k].0 == BlockBinding::Named(n)
                    && match store.spec_lookup_pipeline(
                    old(pass).commands@[c].spec_pipeline_def(),
                ) {
                    Some(po) => assoc_find(po.composite_blocks@, n@) is None,
                    None => false,
                },
            RenderError::UnknownImageBinding(n) => exists|c: int, k: int|
                #![trigger old(pass).commands@[c].spec_image_bindings()@[k]]
                0 <= c < old(pass).commands@.len() && 0 <= k < old(
                    pass,
                ).commands@[c].spec_image_bindings()@.len() && old(
                    pass,
                ).commands@[c].spec_image_bindings()@[k].spec_location()
                    == ImageBindingLocation::Named(n) && match store.spec_lookup_pipeline(
                    old(pass).commands@[c].spec_pipeline_def(),
                ) {
                    Some(po) => assoc_find(po.composite_image_bindings@, n@) is None,
                    None => false,
                },
            _ => false,
        },
{
    let ghost pre_cmds = pass.commands@;
    let mut c: usize = 0;
    #[verifier::loop_isolation(false)]
    while c < pass.commands.len()
        invariant
            c <= pre_cmds.len(),
            pass.commands@.len() == pre_cmds.len(),
            pass.name == old(pass).name,
            pass.fbo_def == old(pass).fbo_def,
            pass.wants_timer_query == old(pass).wants_timer_query,
            pre_cmds == old(pass).commands@,
            forall|j: int| c <= j < pre_cmds.len() ==> pass.commands@[j] == pre_cmds[j],
            forall|j: int|
                0 <= j < c ==> command_phase_ok(
                    #[trigger] pre_cmds[j],
                    pass.commands@[j],
                    *store,
                ),
            forall|j: int|
                0 <= j < pre_cmds.len() ==> same_command_shell(
                    #[trigger] pre_cmds[j],
                    pass.commands@[j],
                ) && pass.commands@[j].spec_block_bindings()@.len()
                    == pre_cmds[j].spec_block_bindings()@.len()
                    && pass.commands@[j].spec_image_bindings()@.len()
                    == pre_cmds[j].spec_image_bindings()@.len() && binding_payloads_preserved(
                    pre_cmds[j],
                    pass.commands@[j],
                ),
        decreases pre_cmds.len() - c,
    {
        let def = pass.commands[c].pipeline_def().unwrap();
        match store.lookup_pipeline(&def) {
            Some(po) => {
                let r = resolve_command(&mut pass.commands[c], po);
                match r {
                    Ok(()) => {},
                    Err(e) => {
                        proof {
                            assert(!command_resolvable(pre_cmds[c as int], *po));
                            let ghost err_snapshot = e;
                            match err_snapshot {
                                RenderError::UnknownBlockBinding(n) => {
                                    let k = choose|k: int|
                                        0 <= k < pre_cmds[c as int].spec_block_bindings()@.len()
                                            && (#[trigger] pre_cmds[
                                        c as int].spec_block_bindings()@[k]).0
                                            == BlockBinding::Named(n);
                                    assert(old(pass).commands@[c as int].spec_block_bindings()@[k].0
                                        == BlockBinding::Named(n));
                                },
                                RenderError::UnknownImageBinding(n) => {
                                    let k = choose|k: int|
                                        0 <= k < pre_cmds[c as int].spec_image_bindings()@.len()
                                            && (#[trigger] pre_cmds[
                                        c as int].spec_image_bindings()@[k]).spec_location()
                                            == ImageBindingLocation::Named(n);
                                    assert(old(pass).commands@[c as int].spec_image_bindings()@[
                                        k].spec_location() == ImageBindingLocation::Named(n));
                                },
                                _ => {},
                            }
                        }
                        return Err(e);
                    },
                }
            },
            None => {
                proof {
                    assert(store.spec_lookup_pipeline(
                        old(pass).commands@[c as int].spec_pipeline_def(),
                    ) is None);
                }
                return Err(RenderError::MissingPipeline);
            },
        }
        c += 1;
    }
    proof {
        assert forall|c: int|
            0 <= c < pre_cmds.len() implies match store.spec_lookup_pipeline(
            (#[trigger] pre_cmds[c]).spec_pipeline_def(),
        ) {
            Some(po) => command_resolvable(pre_cmds[c], po),
            None => false,
        } by {
            assert(command_phase_ok(pre_cmds[c], pass.commands@[c], *store));
            if store.spec_lookup_pipeline(pre_cmds[c].spec_pipeline_def()) is Some {
                let po = choose|po: PipelineObject|
                    store.spec_lookup_pipeline(pre_cmds[c].spec_pipeline_def()) == Some(po);
                lemma_resolved_implies_resolvable(pre_cmds[c], pass.commands@[c], po);
            }
        }
    }
    Ok(())
}

/// For every command, replace every named block or image binding with
/// the explicit location reflected by the command's pipeline.  A name
/// the pipeline does not know, or a missing pipeline, is a fatal
/// construction error reported without touching the allocator.
pub fn resolve_named_bindings(frame: &mut FrameState, store: &ResourceManager) -> (out: Result<
    (),
    RenderError,
>)
    requires
        old(frame).inv(),
        frame_handles_valid(*old(frame)),
    ensures
        final(frame).inv(),
        frame_handles_valid(*final(frame)),
        final(frame).allocator == old(frame).allocator,
        final(frame).passes@.len() == old(frame).passes@.len(),
        forall|p: int|
            0 <= p < old(frame).passes@.len() ==> {
                let pre = #[trigger] old(frame).passes@[p];
                let post = final(frame).passes@[p];
                &&& post.name == pre.name
                &&& post.fbo_def == pre.fbo_def
                &&& post.wants_timer_query == pre.wants_timer_query
                &&& post.commands@.len() == pre.commands@.len()
            },
        out is Ok ==> forall|p: int, c: int|
            0 <= p < old(frame).passes@.len() && 0 <= c < old(frame).passes@[p].commands@.len() ==> command_phase_ok(
                #[trigger] old(frame).passes@[p].commands@[c],
                final(frame).passes@[p].commands@[c],
                *store,
            ),
        forall|p: int, c: int|
            0 <= p < old(frame).passes@.len() && 0 <= c < old(
                frame,
            ).passes@[p].commands@.len() ==> same_command_shell(
                #[trigger] old(frame).passes@[p].commands@[c],
                final(frame).passes@[p].commands@[c],
            ) && binding_payloads_preserved(
                old(frame).passes@[p].commands@[c],
                final(frame).passes@[p].commands@[c],
            ),
        out is Ok <==> frame_resolvable(*old(frame), *store),
        out matches Err(e) ==> match e {
            RenderError::MissingPipeline => frame_has_missing_pipeline(*old(frame), *store),
            RenderError::UnknownBlockBinding(n) => frame_has_unknown_block(
                *old(frame),
                *store,
                n,
            ),
            RenderError::UnknownImageBinding(n) => frame_has_unknown_image(
                *old(frame),
                *store,
                n,
            ),
            _ => false,
        },
{
    let ghost pre_passes = frame.passes@;
    let mut p: usize = 0;
    #[verifier::loop_isolation(false)]
    while p < frame.passes.len()
        invariant
            p <= pre_passes.len(),
            frame.passes@.len() == pre_passes.len(),
            pre_passes == old(frame).passes@,
            frame.allocator == old(frame).allocator,
            forall|j: int| p <= j < pre_passes.len() ==> frame.passes@[j] == pre_passes[j],
            forall|j: int|
                0 <= j < pre_passes.len() ==> {
                    let pre = #[trigger] pre_passes[j];
                    let post = frame.passes@[j];
                    &&& post.name == pre.name
                    &&& post.fbo_def == pre.fbo_def
                    &&& post.wants_timer_query == pre.wants_timer_query
                    &&& post.commands@.len() == pre.commands@.len()
                },
            forall|j: int, c: int|
                0 <= j < p && 0 <= c < pre_passes[j].commands@.len() ==> command_phase_ok(
                    #[trigger] pre_passes[j].commands@[c],
                    frame.passes@[j].commands@[c],
                    *store,
                ),
            forall|j: int, c: int|
                0 <= j < pre_passes.len() && 0 <= c < pre_passes[j].commands@.len() ==> {
                    let pre = #[trigger] pre_passes[j].commands@[c];
                    let post = frame.passes@[j].commands@[c];
                    &&& same_command_shell(pre, post)
                    &&& post.spec_block_bindings()@.len() == pre.spec_block_bindings()@.len()
                    &&& post.spec_image_bindings()@.len() == pre.spec_image_bindings()@.len()
                    &&& binding_payloads_preserved(pre, post)
                },
        decreases pre_passes.len() - p,
    {
        let r = resolve_pass(&mut frame.passes[p], store);
        match r {
            Ok(()) => {},
            Err(e) => {
                proof {
                    lemma_handles_valid_preserved(*old(frame), *frame);
                    let pre_pass = pre_passes[p as int];
                    let c = choose|c: int|
                        0 <= c < pre_pass.commands@.len() && !(match store.spec_lookup_pipeline(
                            (#[trigger] pre_pass.commands@[c]).spec_pipeline_def(),
                        ) {
                            Some(po) => command_resolvable(pre_pass.commands@[c], po),
                            None => false,
                        });
                    assert(0 <= p < old(frame).passes@.len() && 0 <= c < old(frame).passes@[p as int].commands@.len());
                    assert(old(frame).passes@[p as int].commands@[c] == pre_pass.commands@[c]);
                    assert(!frame_resolvable(*old(frame), *store));
                    let ghost err_snapshot = e;
                    match err_snapshot {
                        RenderError::MissingPipeline => {
                            let c2 = choose|c2: int|
                                0 <= c2 < pre_pass.commands@.len() && store.spec_lookup_pipeline(
                                    (#[trigger] pre_pass.commands@[c2]).spec_pipeline_def(),
                                ) is None;
                            assert(store.spec_lookup_pipeline(
                                (old(frame).passes@[p as int].commands@[c2]).spec_pipeline_def(),
                            ) is None);
                        },
                        RenderError::UnknownBlockBinding(n) => {
                            let (c2, k) = choose|c2: int, k: int|
                                #![trigger pre_pass.commands@[c2].spec_block_bindings()@[k]]
                                0 <= c2 < pre_pass.commands@.len() && 0 <= k
                                    < pre_pass.commands@[c2].spec_block_bindings()@.len()
                                    && pre_pass.commands@[c2].spec_block_bindings()@[k].0
                                    == BlockBinding::Named(n) && match store.spec_lookup_pipeline(
                                    pre_pass.commands@[c2].spec_pipeline_def(),
                                ) {
                                    Some(po) => assoc_find(po.composite_blocks@, n@) is None,
                                    None => false,
                                };
                            assert(old(frame).passes@[p as int].commands@[c2].spec_block_bindings()@[
                                k].0 == BlockBinding::Named(n));
                        },
                        RenderError::UnknownImageBinding(n) => {
                            let (c2, k) = choose|c2: int, k: int|
                                #![trigger pre_pass.commands@[c2].spec_image_bindings()@[k]]
                                0 <= c2 < pre_pass.commands@.len() && 0 <= k
                                    < pre_pass.commands@[c2].spec_image_bindings()@.len()
                                    && pre_pass.commands@[c2].spec_image_bindings()@[
                                k].spec_location() == ImageBindingLocation::Named(n) && match store
                                    .spec_lookup_pipeline(
                                    pre_pass.commands@[c2].spec_pipeline_def(),
                                ) {
                                    Some(po) => assoc_find(po.composite_image_bindings@, n@)
                                        is None,
                                    None => false,
                                };
                            assert(old(frame).passes@[p as int].commands@[c2].spec_image_bindings()@[
                                k].spec_location() == ImageBindingLocation::Named(n));
                        },
                        _ => {},
                    }
                }
                return Err(e);
            },
        }
        p += 1;
    }
    proof {
        lemma_handles_valid_preserved(*old(frame), *frame);
        assert forall|j: int, c: int|
            0 <= j < pre_passes.len() && 0 <= c < pre_passes[j].commands@.len() implies {
            let cmd = #[trigger] pre_passes[j].commands@[c];
            match store.spec_lookup_pipeline(cmd.spec_pipeline_def()) {
                Some(po) => command_resolvable(cmd, po),
                None => false,
            }
        } by {
            assert(command_phase_ok(
                pre_passes[j].commands@[c],
                frame.passes@[j].commands@[c],
                *store,
            ));
            let cmd = pre_passes[j].commands@[c];
            if store.spec_lookup_pipeline(cmd.spec_pipeline_def()) is Some {
                let po = choose|po: PipelineObject|
                    store.spec_lookup_pipeline(cmd.spec_pipeline_def()) == Some(po);
                lemma_resolved_implies_resolvable(cmd, frame.passes@[j].commands@[c], po);
            }
        }
    }
    Ok(())
}

/// Binding handles, image handles and write declarations survive
/// resolution; only locations may change.
pub open spec fn binding_payloads_preserved(pre: Command, post: Command) -> bool {
    &&& post.spec_block_bindings()@.len() == pre.spec_block_bindings()@.len()
    &&& post.spec_image_bindings()@.len() == pre.spec_image_bindings()@.len()
    &&& (forall|k: int|
        0 <= k < pre.spec_block_bindings()@.len()
            ==> (#[trigger] post.spec_block_bindings()@[k]).1 == pre.spec_block_bindings()@[k].1)
    &&& (forall|k: int|
        0 <= k < pre.spec_image_bindings()@.len()
            ==> (#[trigger] post.spec_image_bindings()@[k]).spec_image_handle()
            == pre.spec_image_bindings()@[k].spec_image_handle()
            && post.spec_image_bindings()@[k].spec_writes()
            == pre.spec_image_bindings()@[k].spec_writes())
}

/// A frame whose command shells and binding payloads are preserved
/// keeps all its handles valid, since the allocator is untouched.
proof fn lemma_handles_valid_preserved(pre: FrameState, post: FrameState)
    requires
        frame_handles_valid(pre),
        post.allocator == pre.allocator,
        post.passes@.len() == pre.passes@.len(),
        forall|p: int|
            0 <= p < pre.passes@.len() ==> (#[trigger] post.passes@[p]).commands@.len()
                == pre.passes@[p].commands@.len(),
        forall|p: int, c: int|
            0 <= p < pre.passes@.len() && 0 <= c < pre.passes@[p].commands@.len() ==> {
                let a = #[trigger] pre.passes@[p].commands@[c];
                let b = post.passes@[p].commands@[c];
                same_command_shell(a, b) && binding_payloads_preserved(a, b)
            },
    ensures
        frame_handles_valid(post),
{
    assert forall|p: int, c: int|
        0 <= p < post.passes@.len() && 0 <= c < post.passes@[p].commands@.len() implies {
        let cmd = #[trigger] post.passes@[p].commands@[c];
        &&& (forall|k: int|
            0 <= k < cmd.spec_block_bindings()@.len() ==> post.allocator.handle_valid(
                (#[trigger] cmd.spec_block_bindings()@[k]).1,
            ))
        &&& match cmd {
            Command::Draw(d) => match d.index_buffer {
                Some(h) => post.allocator.handle_valid(h),
                None => true,
            },
            Command::Dispatch(d) => match d.num_groups {
                DispatchSizeSource::Indirect(h) => post.allocator.handle_valid(h),
                DispatchSizeSource::Explicit(..) => true,
            },
        }
    } by {
        let a = pre.passes@[p].commands@[c];
        let b = post.passes@[p].commands@[c];
        assert(forall|k: int|
            0 <= k < a.spec_block_bindings()@.len() ==> pre.allocator.handle_valid(
                (#[trigger] a.spec_block_bindings()@[k]).1,
            ));
        assert forall|k: int|
            0 <= k < b.spec_block_bindings()@.len() implies post.allocator.handle_valid(
            (#[trigger] b.spec_block_bindings()@[k]).1,
        ) by {
            assert(b.spec_block_bindings()@[k].1 == a.spec_block_bindings()@[k].1);
        }
    }
}

/// Every handle a frame's commands mention names a live entry of the
/// frame's allocator; the committed kind is not used by this frame
/// model.
pub open spec fn frame_handles_valid(frame: FrameState) -> bool {
    forall|p: int, c: int|
        0 <= p < frame.passes@.len() && 0 <= c < frame.passes@[p].commands@.len() ==> {
            let cmd = #[trigger] frame.passes@[p].commands@[c];
            &&& (forall|k: int|
                0 <= k < cmd.spec_block_bindings()@.len() ==> frame.allocator.handle_valid(
                    (#[trigger] cmd.spec_block_bindings()@[k]).1,
                ))
            &&& match cmd {
                Command::Draw(d) => match d.index_buffer {
                    Some(h) => frame.allocator.handle_valid(h),
                    None => true,
                },
                Command::Dispatch(d) => match d.num_groups {
                    DispatchSizeSource::Indirect(h) => frame.allocator.handle_valid(h),
                    DispatchSizeSource::Explicit(..) => true,
                },
            }
        }
}

/// Handle validity only reads the pass lists and the allocator table
/// lengths, so it carries over whenever those are unchanged.
proof fn lemma_handles_valid_same_shape(pre: FrameState, post: FrameState)
    requires
        frame_handles_valid(pre),
        post.passes == pre.passes,
        post.allocator.reserved_buffers@.len() == pre.allocator.reserved_buffers@.len(),
        post.allocator.streamed_buffers@.len() == pre.allocator.streamed_buffers@.len(),
    ensures
        frame_handles_valid(post),
{
    assert forall|p: int, c: int|
        0 <= p < post.passes@.len() && 0 <= c < post.passes@[p].commands@.len() implies {
        let cmd = #[trigger] post.passes@[p].commands@[c];
        &&& (forall|k: int|
            0 <= k < cmd.spec_block_bindings()@.len() ==> post.allocator.handle_valid(
                (#[trigger] cmd.spec_block_bindings()@[k]).1,
            ))
        &&& match cmd {
            Command::Draw(d) => match d.index_buffer {
                Some(h) => post.allocator.handle_valid(h),
                None => true,
            },
            Command::Dispatch(d) => match d.num_groups {
                DispatchSizeSource::Indirect(h) => post.allocator.handle_valid(h),
                DispatchSizeSource::Explicit(..) => true,
            },
        }
    } by {
        let cmd = pre.passes@[p].commands@[c];
        assert(forall|k: int|
            0 <= k < cmd.spec_block_bindings()@.len() ==> pre.allocator.handle_valid(
                (#[trigger] cmd.spec_block_bindings()@[k]).1,
            ));
    }
}

/// The alignment class a binding location demands of its buffer.
pub open spec fn location_alignment(loc: BlockBindingLocation, ubo_alignment: int) -> int {
    match loc {
        BlockBindingLocation::Ubo(_) => ubo_alignment,
        BlockBindingLocation::Ssbo(_) => SSBO_ALIGNMENT as int,
    }
}

/// How alignment propagation changes an allocator: entries keep their
/// data and sizes; a pending entry's alignment only widens, and never
/// beyond the widest class that can be requested; resolved entries are
/// untouched.
pub open spec fn alignments_widened(
    pre: TransientAllocator,
    post: TransientAllocator,
    ubo_alignment: int,
) -> bool {
    &&& post.transient_data == pre.transient_data
    &&& post.reserved_buffers@.len() == pre.reserved_buffers@.len()
    &&& post.streamed_buffers@.len() == pre.streamed_buffers@.len()
    &&& (forall|i: int|
        0 <= i < pre.streamed_buffers@.len() ==> match #[trigger] pre.streamed_buffers@[i] {
            StreamedBuffer::Pending { data_start, size, alignment } => match post
                .streamed_buffers@[i] {
                StreamedBuffer::Pending { data_start: ds2, size: s2, alignment: a2 } => {
                    &&& ds2 == data_start
                    &&& s2 == size
                    &&& a2 >= alignment
                    &&& a2 as int <= spec_max(
                        alignment as int,
                        spec_max(ubo_alignment, SSBO_ALIGNMENT as int),
                    )
                },
                _ => false,
            },
            StreamedBuffer::Uploaded(_) => post.streamed_buffers@[i] == pre.streamed_buffers@[i],
        })
    &&& (forall|i: int|
        0 <= i < pre.reserved_buffers@.len() ==> match #[trigger] pre.reserved_buffers@[i] {
            ReservedBuffer::Pending { size, alignment } => match post.reserved_buffers@[i] {
                ReservedBuffer::Pending { size: s2, alignment: a2 } => {
                    &&& s2 == size
                    &&& a2 >= alignment
                    &&& a2 as int <= spec_max(
                        alignment as int,
                        spec_max(ubo_alignment, SSBO_ALIGNMENT as int),
                    )
                },
                _ => false,
            },
            ReservedBuffer::Allocated(_) => post.reserved_buffers@[i] == pre.reserved_buffers@[i],
        })
}

/// While the buffer is still pending, its recorded alignment is at
/// least `n`.
pub open spec fn pending_at_least(a: TransientAllocator, h: BufferHandle, n: int) -> bool {
    a.handle_pending(h) ==> a.pending_alignment(h) >= n
}

/// Every buffer the command binds meets its binding class's alignment:
/// the uniform-buffer alignment at uniform locations, the
/// storage-buffer alignment at storage locations, natural alignment
/// for index and indirect buffers — as long as the buffer is pending
/// (a buffer already placed is never re-aligned).
pub open spec fn command_alignments_satisfied(
    cmd: Command,
    a: TransientAllocator,
    ubo_alignment: int,
) -> bool {
    &&& (forall|k: int|
        0 <= k < cmd.spec_block_bindings()@.len() ==> match (
        #[trigger] cmd.spec_block_bindings()@[k]).0 {
            BlockBinding::Explicit(loc) => pending_at_least(
                a,
                cmd.spec_block_bindings()@[k].1,
                location_alignment(loc, ubo_alignment),
            ),
            BlockBinding::Named(_) => true,
        })
    &&& match cmd {
        Command::Draw(d) => match d.index_buffer {
            Some(h) => pending_at_least(a, h, DEFAULT_BUFFER_ALIGNMENT as int),
            None => true,
        },
        Command::Dispatch(d) => match d.num_groups {
            DispatchSizeSource::Indirect(h) => pending_at_least(
                a,
                h,
                DEFAULT_BUFFER_ALIGNMENT as int,
            ),
            DispatchSizeSource::Explicit(..) => true,
        },
    }
}

/// Widening never loses a lower bound a pending buffer already meets.
proof fn lemma_pending_bound_monotone(
    a: TransientAllocator,
    b: TransientAllocator,
    h: BufferHandle,
    n: int,
    ubo_alignment: int,
)
    requires
        pending_at_least(a, h, n),
        alignments_widened(a, b, ubo_alignment),
    ensures
        pending_at_least(b, h, n),
{
    if b.handle_pending(h) {
        match h {
            BufferHandle::Streamed(i) => {
                assert(a.streamed_buffers@[i as int] is Pending);
            },
            BufferHandle::Reserved(i) => {
                assert(a.reserved_buffers@[i as int] is Pending);
            },
            BufferHandle::Committed => {},
        }
    }
}

/// Widening never loses the class bounds a whole command already meets.
proof fn lemma_command_bounds_monotone(
    cmd: Command,
    a: TransientAllocator,
    b: TransientAllocator,
    ubo_alignment: int,
)
    requires
        command_alignments_satisfied(cmd, a, ubo_alignment),
        alignments_widened(a, b, ubo_alignment),
    ensures
        command_alignments_satisfied(cmd, b, ubo_alignment),
{
    assert forall|k: int|
        0 <= k < cmd.spec_block_bindings()@.len() implies match (
    #[trigger] cmd.spec_block_bindings()@[k]).0 {
        BlockBinding::Explicit(loc) => pending_at_least(
            b,
            cmd.spec_block_bindings()@[k].1,
            location_alignment(loc, ubo_alignment),
        ),
        BlockBinding::Named(_) => true,
    } by {
        match cmd.spec_block_bindings()@[k].0 {
            BlockBinding::Explicit(loc) => {
                lemma_pending_bound_monotone(
                    a,
                    b,
                    cmd.spec_block_bindings()@[k].1,
                    location_alignment(loc, ubo_alignment),
                    ubo_alignment,
                );
            },
            BlockBinding::Named(_) => {},
        }
    }
    match cmd {
        Command::Draw(d) => match d.index_buffer {
            Some(h) => {
                lemma_pending_bound_monotone(a, b, h, DEFAULT_BUFFER_ALIGNMENT as int, ubo_alignment);
            },
            None => {},
        },
        Command::Dispatch(d) => match d.num_groups {
            DispatchSizeSource::Indirect(h) => {
                lemma_pending_bound_monotone(a, b, h, DEFAULT_BUFFER_ALIGNMENT as int, ubo_alignment);
            },
            DispatchSizeSource::Explicit(..) => {},
        },
    }
}

/// Widening steps compose: two propagation steps amount to one.
proof fn lemma_alignments_widened_trans(
    a: TransientAllocator,
    b: TransientAllocator,
    c: TransientAllocator,
    ubo_alignment: int,
)
    requires
        alignments_widened(a, b, ubo_alignment),
        alignments_widened(b, c, ubo_alignment),
    ensures
        alignments_widened(a, c, ubo_alignment),
{
    assert forall|i: int|
        0 <= i < a.streamed_buffers@.len() implies match #[trigger] a.streamed_buffers@[i] {
        StreamedBuffer::Pending { data_start, size, alignment } => match c.streamed_buffers@[i] {
            StreamedBuffer::Pending { data_start: ds2, size: s2, alignment: a2 } => {
                &&& ds2 == data_start
                &&& s2 == size
                &&& a2 >= alignment
                &&& a2 as int <= spec_max(
                    alignment as int,
                    spec_max(ubo_alignment, SSBO_ALIGNMENT as int),
                )
            },
            _ => false,
        },
        StreamedBuffer::Uploaded(_) => c.streamed_buffers@[i] == a.streamed_buffers@[i],
    } by {
        assert(match b.streamed_buffers@[i] {
            StreamedBuffer::Pending { .. } => true,
            StreamedBuffer::Uploaded(_) => true,
        });
    }
    assert forall|i: int|
        0 <= i < a.reserved_buffers@.len() implies match #[trigger] a.reserved_buffers@[i] {
        ReservedBuffer::Pending { size, alignment } => match c.reserved_buffers@[i] {
            ReservedBuffer::Pending { size: s2, alignment: a2 } => {
                &&& s2 == size
                &&& a2 >= alignment
                &&& a2 as int <= spec_max(
                    alignment as int,
                    spec_max(ubo_alignment, SSBO_ALIGNMENT as int),
                )
            },
            _ => false,
        },
        ReservedBuffer::Allocated(_) => c.reserved_buffers@[i] == a.reserved_buffers@[i],
    } by {
        assert(match b.reserved_buffers@[i] {
            ReservedBuffer::Pending { .. } => true,
            ReservedBuffer::Allocated(_) => true,
        });
    }
}

/// Widen every bound buffer's recorded alignment to what its binding
/// class requires: the uniform-buffer alignment for uniform blocks, the
/// storage-buffer alignment for storage blocks, natural alignment for
/// index and indirect buffers.  Buffers already resolved keep their
/// placement and are not touched.
pub fn propagate_alignments(frame: &mut FrameState, ubo_alignment: usize)
    requires
        old(frame).inv(),
        frame_handles_valid(*old(frame)),
        1 <= ubo_alignment,
        is_pow2(ubo_alignment as int),
    ensures
        final(frame).inv(),
        frame_handles_valid(*final(frame)),
        final(frame).passes == old(frame).passes,
        alignments_widened(old(frame).allocator, final(frame).allocator, ubo_alignment as int),
        // every still-pending buffer now meets its binding class's
        // alignment
        forall|p: int, c: int|
            0 <= p < final(frame).passes@.len() && 0 <= c < final(frame).passes@[p].commands@.len() ==> command_alignments_satisfied(
                #[trigger] final(frame).passes@[p].commands@[c],
                final(frame).allocator,
                ubo_alignment as int,
            ),
{
    let mut p: usize = 0;
    #[verifier::loop_isolation(false)]
    while p < frame.passes.len()
        invariant
            frame.inv(),
            frame.passes == old(frame).passes,
            frame_handles_valid(*frame),
            alignments_widened(old(frame).allocator, frame.allocator, ubo_alignment as int),
            forall|p2: int, c2: int|
                0 <= p2 < p && 0 <= c2 < frame.passes@[p2].commands@.len()
                    ==> command_alignments_satisfied(
                    #[trigger] frame.passes@[p2].commands@[c2],
                    frame.allocator,
                    ubo_alignment as int,
                ),
        decreases frame.passes@.len() - p,
    {
        let commands = frame.passes[p].commands.len();
        let mut c: usize = 0;
        #[verifier::loop_isolation(false)]
        while c < commands
            invariant
                commands == frame.passes@[p as int].commands@.len(),
                p < frame.passes@.len(),
                frame.inv(),
                frame.passes == old(frame).passes,
                frame_handles_valid(*frame),
                alignments_widened(old(frame).allocator, frame.allocator, ubo_alignment as int),
                forall|p2: int, c2: int|
                    0 <= p2 < p && 0 <= c2 < frame.passes@[p2].commands@.len()
                        ==> command_alignments_satisfied(
                        #[trigger] frame.passes@[p2].commands@[c2],
                        frame.allocator,
                        ubo_alignment as int,
                    ),
                forall|c2: int|
                    0 <= c2 < c ==> command_alignments_satisfied(
                        #[trigger] frame.passes@[p as int].commands@[c2],
                        frame.allocator,
                        ubo_alignment as int,
                    ),
            decreases commands - c,
        {
            let ghost before = frame.allocator;
            propagate_command_alignments(frame, p, c, ubo_alignment);
            proof {
                lemma_alignments_widened_trans(
                    old(frame).allocator,
                    before,
                    frame.allocator,
                    ubo_alignment as int,
                );
                assert forall|p2: int, c2: int|
                    0 <= p2 < p && 0 <= c2 < frame.passes@[p2].commands@.len()
                        implies command_alignments_satisfied(
                        #[trigger] frame.passes@[p2].commands@[c2],
                        frame.allocator,
                        ubo_alignment as int,
                    ) by {
                    lemma_command_bounds_monotone(
                        frame.passes@[p2].commands@[c2],
                        before,
                        frame.allocator,
                        ubo_alignment as int,
                    );
                }
                assert forall|c2: int|
                    0 <= c2 < c + 1 implies command_alignments_satisfied(
                    #[trigger] frame.passes@[p as int].commands@[c2],
                    frame.allocator,
                    ubo_alignment as int,
                ) by {
                    if c2 < c {
                        lemma_command_bounds_monotone(
                            frame.passes@[p as int].commands@[c2],
                            before,
                            frame.allocator,
                            ubo_alignment as int,
                        );
                    }
                }
            }
            c += 1;
        }
        p += 1;
    }
}

/// Widen the buffers of one command, as `propagate_alignments` does for
/// the whole frame.
fn propagate_command_alignments(
    frame: &mut FrameState,
    p: usize,
    c: usize,
    ubo_alignment: usize,
)
    requires
        old(frame).inv(),
        frame_handles_valid(*old(frame)),
        p < old(frame).passes@.len(),
        c < old(frame).passes@[p as int].commands@.len(),
        1 <= ubo_alignment,
        is_pow2(ubo_alignment as int),
    ensures
        final(frame).inv(),
        frame_handles_valid(*final(frame)),
        final(frame).passes == old(frame).passes,
        alignments_widened(old(frame).allocator, final(frame).allocator, ubo_alignment as int),
        command_alignments_satisfied(
            final(frame).passes@[p as int].commands@[c as int],
            final(frame).allocator,
            ubo_alignment as int,
        ),
{
    proof {
        crate::frame::lemma_default_alignment_pow2();
        lemma_ssbo_alignment_pow2();
    }
    let ghost cmd = old(frame).passes@[p as int].commands@[c as int];
    let bindings = frame.passes[p].commands[c].block_bindings().unwrap().len();

    let mut k: usize = 0;
    #[verifier::loop_isolation(false)]
    while k < bindings
        invariant
            p < frame.passes@.len(),
            c < frame.passes@[p as int].commands@.len(),
            cmd == frame.passes@[p as int].commands@[c as int],
            bindings == cmd.spec_block_bindings()@.len(),
            frame.inv(),
            frame.passes == old(frame).passes,
            frame_handles_valid(*frame),
            alignments_widened(old(frame).allocator, frame.allocator, ubo_alignment as int),
            forall|j: int|
                0 <= j < k ==> match (#[trigger] cmd.spec_block_bindings()@[j]).0 {
                    BlockBinding::Explicit(loc) => pending_at_least(
                        frame.allocator,
                        cmd.spec_block_bindings()@[j].1,
                        location_alignment(loc, ubo_alignment as int),
                    ),
                    BlockBinding::Named(_) => true,
                },
        decreases bindings - k,
    {
        let (location, buffer) = {
            let pair = &frame.passes[p].commands[c].block_bindings().unwrap()[k];
            let loc = match &pair.0 {
                BlockBinding::Explicit(location) => Some(*location),
                BlockBinding::Named(_) => None,
            };
            (loc, pair.1)
        };
        let ghost before = frame.allocator;
        match location {
            Some(loc) => {
                let requested = match loc {
                    BlockBindingLocation::Ubo(_) => ubo_alignment,
                    BlockBindingLocation::Ssbo(_) => SSBO_ALIGNMENT,
                };
                frame.allocator.imbue_buffer_alignment(buffer, requested);
            },
            None => {},
        }
        proof {
            assert(alignments_widened(before, frame.allocator, ubo_alignment as int));
            assert forall|j: int|
                0 <= j < k + 1 implies match (#[trigger] cmd.spec_block_bindings()@[j]).0 {
                BlockBinding::Explicit(loc) => pending_at_least(
                    frame.allocator,
                    cmd.spec_block_bindings()@[j].1,
                    location_alignment(loc, ubo_alignment as int),
                ),
                BlockBinding::Named(_) => true,
            } by {
                match cmd.spec_block_bindings()@[j].0 {
                    BlockBinding::Explicit(loc) => {
                        if j < k {
                            lemma_pending_bound_monotone(
                                before,
                                frame.allocator,
                                cmd.spec_block_bindings()@[j].1,
                                location_alignment(loc, ubo_alignment as int),
                                ubo_alignment as int,
                            );
                        }
                    },
                    BlockBinding::Named(_) => {},
                }
            }
        }
        k += 1;
    }

    // Index and indirect buffers take their natural alignment.
    let extra = {
        match &frame.passes[p].commands[c] {
            Command::Draw(d) => d.index_buffer,
            Command::Dispatch(d) => match d.num_groups {
                DispatchSizeSource::Indirect(h) => Some(h),
                DispatchSizeSource::Explicit(..) => None,
            },
        }
    };
    let ghost before = frame.allocator;
    match extra {
        Some(handle) => {
            frame.allocator.imbue_buffer_alignment(handle, DEFAULT_BUFFER_ALIGNMENT);
        },
        None => {},
    }
    proof {
        lemma_handles_valid_same_shape(*old(frame), *frame);
        assert(alignments_widened(before, frame.allocator, ubo_alignment as int));
        assert forall|j: int|
            0 <= j < cmd.spec_block_bindings()@.len() implies match (
        #[trigger] cmd.spec_block_bindings()@[j]).0 {
            BlockBinding::Explicit(loc) => pending_at_least(
                frame.allocator,
                cmd.spec_block_bindings()@[j].1,
                location_alignment(loc, ubo_alignment as int),
            ),
            BlockBinding::Named(_) => true,
        } by {
            match cmd.spec_block_bindings()@[j].0 {
                BlockBinding::Explicit(loc) => {
                    lemma_pending_bound_monotone(
                        before,
                        frame.allocator,
                        cmd.spec_block_bindings()@[j].1,
                        location_alignment(loc, ubo_alignment as int),
                        ubo_alignment as int,
                    );
                },
                BlockBinding::Named(_) => {},
            }
        }
    }
}


/// The storage-buffer alignment is a power of two.
pub proof fn lemma_ssbo_alignment_pow2()
    ensures
        is_pow2(SSBO_ALIGNMENT as int),
{
    reveal_with_fuel(is_pow2, 7);
}

/// One buffer range to bind: the barrier owed first, where the range
/// binds, and its resolved placement in the upload ring.
#[derive(Copy, Clone, Debug, PartialEq, Eq, Structural)]
pub struct BufferBindPlan {
    pub barrier: Option<BarrierOp>,
    pub location: BlockBindingLocation,
    pub allocation: BufferAllocation,
}

/// How an image unit is bound: sampled through a sampler, or as a
/// load/store image.
#[derive(Copy, Clone, Debug, PartialEq, Eq, Structural)]
pub enum ImageBindKind {
    Texture { sampler: SamplerObject },
    Image { read_write: bool },
}

/// One image unit to bind: the barrier owed first, the unit, the
/// resolved image and the binding kind.
#[derive(Copy, Clone, Debug, PartialEq, Eq, Structural)]
pub struct ImageBindPlan {
    pub barrier: Option<BarrierOp>,
    pub unit: u32,
    pub image: ImageObject,
    pub kind: ImageBindKind,
}

/// The drawing or dispatching step that closes a command.
#[derive(Copy, Clone, Debug, PartialEq, Eq, Structural)]
pub enum ExecutePlan {
    DrawArrays { primitive: PrimitiveType, elements: u32, instances: u32 },
    DrawElements {
        primitive: PrimitiveType,
        elements: u32,
        instances: u32,
        index_barrier: Option<BarrierOp>,
        index_allocation: BufferAllocation,
    },
    DispatchDirect { x: u32, y: u32, z: u32 },
    DispatchIndirect { barrier: Option<BarrierOp>, allocation: BufferAllocation },
}

/// Everything the driver must be handed for one command, in order:
/// bind the pipeline, bind the buffer ranges, bind the image units,
/// then execute.
#[derive(Clone, Debug)]
pub struct CommandPlan {
    pub pipeline_name: u32,
    pub buffer_binds: Vec<BufferBindPlan>,
    pub image_binds: Vec<ImageBindPlan>,
    pub execute: ExecutePlan,
}

/// One pass of the submission: its render target, its timing wish and
/// its commands in recorded order.
#[derive(Clone, Debug)]
pub struct PassPlan {
    pub name: String,
    pub fbo: FboObject,
    pub wants_timer_query: bool,
    pub commands: Vec<CommandPlan>,
}

/// The whole frame's submission, passes in recorded order.
#[derive(Clone, Debug)]
pub struct FramePlan {
    pub upload_buffer_name: u32,
    pub passes: Vec<PassPlan>,
}

/// The barrier class of a block binding location.
pub open spec fn location_barrier_bits(loc: BlockBindingLocation) -> u32 {
    match loc {
        BlockBindingLocation::Ubo(_) => UNIFORM_BARRIER_BIT,
        BlockBindingLocation::Ssbo(_) => SHADER_STORAGE_BARRIER_BIT,
    }
}

/// Every binding of the command is already explicit.
pub open spec fn command_explicit(cmd: Command) -> bool {
    &&& forall|k: int|
        0 <= k < cmd.spec_block_bindings()@.len()
            ==> (#[trigger] cmd.spec_block_bindings()@[k]).0 is Explicit
    &&& forall|k: int|
        0 <= k < cmd.spec_image_bindings()@.len()
            ==> (#[trigger] cmd.spec_image_bindings()@[k]).spec_location() is Explicit
}

/// Every buffer the command uses has its final heap placement.
pub open spec fn command_buffers_resolved(cmd: Command, allocator: TransientAllocator) -> bool {
    &&& forall|k: int|
        0 <= k < cmd.spec_block_bindings()@.len() ==> allocator.handle_resolved(
            (#[trigger] cmd.spec_block_bindings()@[k]).1,
        )
    &&& match cmd {
        Command::Draw(d) => match d.index_buffer {
            Some(h) => allocator.handle_resolved(h),
            None => true,
        },
        Command::Dispatch(d) => match d.num_groups {
            DispatchSizeSource::Indirect(h) => allocator.handle_resolved(h),
            DispatchSizeSource::Explicit(..) => true,
        },
    }
}

/// Whether the store has a sampler object cached for the definition.
pub open spec fn sampler_cached(store: ResourceManager, def: SamplerDef) -> bool {
    exists|k: int| 0 <= k < store.samplers@.len() && (#[trigger] store.samplers@[k]).0 == def
}

/// Whether the store can bind a render target for the definition: the
/// empty definition is the default framebuffer, anything else needs a
/// cached framebuffer object.
pub open spec fn fbo_available(store: ResourceManager, def: crate::resources::FboDef) -> bool {
    def == crate::resources::FboDef::spec_empty() || exists|k: int|
        0 <= k < store.fbos@.len() && (#[trigger] store.fbos@[k]).0 == def
}

/// Whether the block reflected at the location declares write access.
pub open spec fn spec_block_is_rw(po: PipelineObject, loc: BlockBindingLocation) -> bool {
    match find_by_location(po.composite_blocks@, loc) {
        Some(d) => d.is_read_write,
        None => false,
    }
}

/// The resources one command touches, in submission order, each with
/// whether the use writes it: the buffer binds, then the image binds,
/// then the index or indirect buffer of the execute step.
pub open spec fn command_uses(cmd: Command, po: PipelineObject) -> Seq<(TrackerHandle, bool)> {
    Seq::new(
        cmd.spec_block_bindings()@.len(),
        |k: int|
            (
                TrackerHandle::Buffer(cmd.spec_block_bindings()@[k].1),
                match cmd.spec_block_bindings()@[k].0 {
                    BlockBinding::Explicit(loc) => spec_block_is_rw(po, loc),
                    BlockBinding::Named(_) => false,
                },
            ),
    ) + Seq::new(
        cmd.spec_image_bindings()@.len(),
        |k: int|
            (
                TrackerHandle::Image(cmd.spec_image_bindings()@[k].spec_image_handle()),
                cmd.spec_image_bindings()@[k].spec_writes(),
            ),
    ) + (match cmd {
        Command::Draw(d) => match d.index_buffer {
            Some(h) => seq![(TrackerHandle::Buffer(h), false)],
            None => Seq::empty(),
        },
        Command::Dispatch(d) => match d.num_groups {
            DispatchSizeSource::Indirect(h) => seq![(TrackerHandle::Buffer(h), false)],
            DispatchSizeSource::Explicit(..) => Seq::empty(),
        },
    })
}

/// The written-set after the first `n` uses ran against it: each use
/// first consumes the flag of its resource, then raises it again
/// exactly when the use writes.
pub open spec fn marked_after(
    m: Set<TrackerHandle>,
    uses: Seq<(TrackerHandle, bool)>,
    n: int,
) -> Set<TrackerHandle>
    decreases n,
{
    if n <= 0 {
        m
    } else {
        let prev = marked_after(m, uses, n - 1);
        if uses[n - 1].1 {
            prev.insert(uses[n - 1].0)
        } else {
            prev.remove(uses[n - 1].0)
        }
    }
}

/// Whether use `n` is owed a barrier: its resource is still flagged as
/// written when the use runs.
pub open spec fn use_needs_barrier(
    m: Set<TrackerHandle>,
    uses: Seq<(TrackerHandle, bool)>,
    n: int,
) -> bool {
    marked_after(m, uses, n).contains(uses[n].0)
}

/// The barrier owed to use `n`, carrying the given class bits.
pub open spec fn expected_barrier(
    m: Set<TrackerHandle>,
    uses: Seq<(TrackerHandle, bool)>,
    n: int,
    bits: u32,
) -> Option<BarrierOp> {
    if use_needs_barrier(m, uses, n) {
        Some(BarrierOp { bits, by_region: bits & BY_REGION_FLAGS == bits })
    } else {
        None
    }
}

/// The written-set after a whole command.
pub open spec fn command_marked_after(
    m: Set<TrackerHandle>,
    cmd: Command,
    store: ResourceManager,
) -> Set<TrackerHandle> {
    match store.spec_lookup_pipeline(cmd.spec_pipeline_def()) {
        Some(po) => marked_after(m, command_uses(cmd, po), command_uses(cmd, po).len() as int),
        None => m,
    }
}

/// The written-set after the first `n` commands of a pass.
pub open spec fn cmds_marked_after(
    m: Set<TrackerHandle>,
    cmds: Seq<Command>,
    store: ResourceManager,
    n: int,
) -> Set<TrackerHandle>
    decreases n,
{
    if n <= 0 {
        m
    } else {
        command_marked_after(cmds_marked_after(m, cmds, store, n - 1), cmds[n - 1], store)
    }
}

/// The written-set after the first `p` passes of a frame.
pub open spec fn passes_marked_after(
    m: Set<TrackerHandle>,
    passes: Seq<Pass>,
    store: ResourceManager,
    p: int,
) -> Set<TrackerHandle>
    decreases p,
{
    if p <= 0 {
        m
    } else {
        cmds_marked_after(
            passes_marked_after(m, passes, store, p - 1),
            passes[p - 1].commands@,
            store,
            passes[p - 1].commands@.len() as int,
        )
    }
}

/// The written-set the submission has accumulated when command `c` of
/// pass `p` is laid out; a frame's tracker starts with nothing flagged.
pub open spec fn marked_at(passes: Seq<Pass>, store: ResourceManager, p: int, c: int) -> Set<
    TrackerHandle,
> {
    cmds_marked_after(
        passes_marked_after(Set::empty(), passes, store, p),
        passes[p].commands@,
        store,
        c,
    )
}

/// The kind of lookup a command's layout can fail on.
pub enum FailingLookup {
    Pipeline,
    Block,
    Image,
    Sampler,
}

/// Some command of the frame fails the given kind of lookup.
pub open spec fn frame_has_failing_command(
    frame: FrameState,
    store: ResourceManager,
    kind: FailingLookup,
) -> bool {
    exists|p: int, c: int|
        0 <= p < frame.passes@.len() && 0 <= c < frame.passes@[p].commands@.len() && {
            let cmd = #[trigger] frame.passes@[p].commands@[c];
            match kind {
                FailingLookup::Pipeline => command_missing_pipeline(cmd, store),
                FailingLookup::Block => command_has_unreflected_block(cmd, store),
                FailingLookup::Image => command_has_missing_image(cmd, store),
                FailingLookup::Sampler => command_has_missing_sampler(cmd, store),
            }
        }
}

/// The command's shader set has no registered pipeline.
pub open spec fn command_missing_pipeline(cmd: Command, store: ResourceManager) -> bool {
    store.spec_lookup_pipeline(cmd.spec_pipeline_def()) is None
}

/// Some explicit block binding of the command has no reflected block
/// at its location.
pub open spec fn command_has_unreflected_block(cmd: Command, store: ResourceManager) -> bool {
    match store.spec_lookup_pipeline(cmd.spec_pipeline_def()) {
        Some(po) => exists|k: int|
            0 <= k < cmd.spec_block_bindings()@.len() && match (
            #[trigger] cmd.spec_block_bindings()@[k]).0 {
                BlockBinding::Explicit(loc) => find_by_location(po.composite_blocks@, loc)
                    is None,
                BlockBinding::Named(_) => false,
            },
        None => false,
    }
}

/// Some image binding of the command names an image that is not loaded.
pub open spec fn command_has_missing_image(cmd: Command, store: ResourceManager) -> bool {
    exists|k: int|
        0 <= k < cmd.spec_image_bindings()@.len() && !store.image_handle_valid(
            (#[trigger] cmd.spec_image_bindings()@[k]).spec_image_handle(),
        )
}

/// Some sampled binding of the command has no cached sampler.
pub open spec fn command_has_missing_sampler(cmd: Command, store: ResourceManager) -> bool {
    exists|k: int|
        0 <= k < cmd.spec_image_bindings()@.len() && (#[trigger] cmd.spec_image_bindings()@[k])
            is Texture && !sampler_cached(store, cmd.spec_image_bindings()@[k].spec_sampler())
}

/// Every lookup the layout of one explicit command needs: a registered
/// pipeline, a reflected block at each bound location, a loaded image
/// behind each image binding and a cached sampler for each sampled one.
pub open spec fn command_buildable(cmd: Command, store: ResourceManager) -> bool {
    match store.spec_lookup_pipeline(cmd.spec_pipeline_def()) {
        None => false,
        Some(po) => {
            &&& (forall|k: int|
                0 <= k < cmd.spec_block_bindings()@.len() ==> match (
                #[trigger] cmd.spec_block_bindings()@[k]).0 {
                    BlockBinding::Explicit(loc) => find_by_location(po.composite_blocks@, loc)
                        is Some,
                    BlockBinding::Named(_) => false,
                })
            &&& (forall|k: int|
                0 <= k < cmd.spec_image_bindings()@.len() ==> store.image_handle_valid(
                    (#[trigger] cmd.spec_image_bindings()@[k]).spec_image_handle(),
                ) && (cmd.spec_image_bindings()@[k] is Texture ==> sampler_cached(
                    store,
                    cmd.spec_image_bindings()@[k].spec_sampler(),
                )))
        },
    }
}

/// Every lookup the whole frame's layout needs.
pub open spec fn frame_buildable(frame: FrameState, store: ResourceManager) -> bool {
    &&& (forall|p: int|
        0 <= p < frame.passes@.len() ==> fbo_available(
            store,
            (#[trigger] frame.passes@[p]).fbo_def,
        ))
    &&& (forall|p: int, c: int|
        0 <= p < frame.passes@.len() && 0 <= c < frame.passes@[p].commands@.len()
            ==> command_buildable(#[trigger] frame.passes@[p].commands@[c], store))
}

/// What the Ok plan of one command pins down, `m0` being the written
/// set when the command starts: the pipeline is the registered one;
/// every buffer bind carries the binding's location, its resolved
/// allocation and exactly the barrier the hazard state owes it; every
/// image bind carries the reflected unit, the resolved image, its kind
/// and its owed barrier; and the execute step repeats the command's
/// own parameters with the index or indirect buffer's placement and
/// owed barrier.
pub open spec fn command_plan_matches(
    cmd: Command,
    cp: CommandPlan,
    store: ResourceManager,
    allocator: TransientAllocator,
    m0: Set<TrackerHandle>,
) -> bool {
    match store.spec_lookup_pipeline(cmd.spec_pipeline_def()) {
        None => false,
        Some(po) => {
            let uses = command_uses(cmd, po);
            &&& cp.pipeline_name == po.name
            &&& cp.buffer_binds@.len() == cmd.spec_block_bindings()@.len()
            &&& (forall|k: int|
                0 <= k < cmd.spec_block_bindings()@.len() ==> {
                    let (b, h) = #[trigger] cmd.spec_block_bindings()@[k];
                    match b {
                        BlockBinding::Explicit(loc) => {
                            &&& cp.buffer_binds@[k].location == loc
                            &&& cp.buffer_binds@[k].allocation == allocator.spec_allocation_of(h)
                            &&& cp.buffer_binds@[k].barrier == expected_barrier(
                                m0,
                                uses,
                                k,
                                location_barrier_bits(loc),
                            )
                        },
                        BlockBinding::Named(_) => false,
                    }
                })
            &&& cp.image_binds@.len() == cmd.spec_image_bindings()@.len()
            &&& (forall|k: int|
                0 <= k < cmd.spec_image_bindings()@.len() ==> {
                    let ib = #[trigger] cmd.spec_image_bindings()@[k];
                    let plan = cp.image_binds@[k];
                    let n = cmd.spec_block_bindings()@.len() + k;
                    &&& ImageBindingLocation::Explicit(plan.unit) == ib.spec_location()
                    &&& store.image_handle_valid(ib.spec_image_handle())
                    &&& plan.image == store.image_objects@[ib.spec_image_handle().0 as int]
                    &&& match ib {
                        ImageBinding::Texture { .. } => plan.kind is Texture && plan.barrier
                            == expected_barrier(m0, uses, n, TEXTURE_FETCH_BARRIER_BIT),
                        ImageBinding::Image { read_write, .. } => plan.kind
                            == (ImageBindKind::Image { read_write }) && plan.barrier
                            == expected_barrier(m0, uses, n, SHADER_IMAGE_ACCESS_BARRIER_BIT),
                    }
                })
            &&& (match cmd {
                Command::Draw(d) => match d.index_buffer {
                    Some(h) => cp.execute == (ExecutePlan::DrawElements {
                        primitive: d.primitive_type,
                        elements: d.num_elements,
                        instances: d.num_instances,
                        index_barrier: expected_barrier(
                            m0,
                            uses,
                            uses.len() - 1,
                            ELEMENT_ARRAY_BARRIER_BIT,
                        ),
                        index_allocation: allocator.spec_allocation_of(h),
                    }),
                    None => cp.execute == (ExecutePlan::DrawArrays {
                        primitive: d.primitive_type,
                        elements: d.num_elements,
                        instances: d.num_instances,
                    }),
                },
                Command::Dispatch(d) => match d.num_groups {
                    DispatchSizeSource::Explicit(x, y, z) => cp.execute
                        == (ExecutePlan::DispatchDirect { x, y, z }),
                    DispatchSizeSource::Indirect(h) => cp.execute == (ExecutePlan::DispatchIndirect {
                        barrier: expected_barrier(
                            m0,
                            uses,
                            uses.len() - 1,
                            COMMAND_BARRIER_BIT,
                        ),
                        allocation: allocator.spec_allocation_of(h),
                    }),
                },
            })
        },
    }
}

/// Lay out one command for the driver: barriers exactly where the
/// hazard state owes one, then the resolved buffer ranges and image
/// units, then the draw or dispatch itself.  Succeeds exactly when
/// every lookup the command needs is in the store.
#[verifier::rlimit(100)]
pub fn plan_command(
    cmd: &Command,
    store: &ResourceManager,
    allocator: &TransientAllocator,
    tracker: &mut ResourceBarrierTracker,
) -> (out: Result<CommandPlan, RenderError>)
    requires
        old(tracker).inv(),
        command_explicit(*cmd),
        command_buffers_resolved(*cmd, *allocator),
    ensures
        final(tracker).inv(),
        out is Ok <==> command_buildable(*cmd, *store),
        match out {
            Ok(cp) => command_plan_matches(
                *cmd,
                cp,
                *store,
                *allocator,
                old(tracker).marked(),
            ) && final(tracker).marked() == command_marked_after(
                old(tracker).marked(),
                *cmd,
                *store,
            ),
            Err(e) => match e {
                RenderError::MissingPipeline => command_missing_pipeline(*cmd, *store),
                RenderError::UnreflectedBlockBinding => command_has_unreflected_block(
                    *cmd,
                    *store,
                ),
                RenderError::MissingImage => command_has_missing_image(*cmd, *store),
                RenderError::MissingSampler => command_has_missing_sampler(*cmd, *store),
                _ => false,
            },
        },
{
    let ghost m0 = old(tracker).marked();
    let def = cmd.pipeline_def().unwrap();
    let po = match store.lookup_pipeline(&def) {
        Some(po) => po,
        None => {
            return Err(RenderError::MissingPipeline);
        },
    };
    let ghost uses = command_uses(*cmd, *po);
    let ghost block_count = cmd.spec_block_bindings()@.len() as int;
    let ghost image_count = cmd.spec_image_bindings()@.len() as int;

    let bindings = cmd.block_bindings().unwrap();
    let mut buffer_binds: Vec<BufferBindPlan> = Vec::new();
    let mut k: usize = 0;
    #[verifier::loop_isolation(false)]
    while k < bindings.len()
        invariant
            k <= bindings@.len(),
            tracker.inv(),
            tracker.marked() == marked_after(m0, uses, k as int),
            buffer_binds@.len() == k,
            forall|j: int|
                0 <= j < k ==> {
                    let (b, h) = #[trigger] bindings@[j];
                    match b {
                        BlockBinding::Explicit(loc) => {
                            &&& (#[trigger] buffer_binds@[j]).location == loc
                            &&& buffer_binds@[j].allocation == allocator.spec_allocation_of(h)
                            &&& buffer_binds@[j].barrier == expected_barrier(
                                m0,
                                uses,
                                j,
                                location_barrier_bits(loc),
                            )
                            &&& find_by_location(po.composite_blocks@, loc) is Some
                        },
                        BlockBinding::Named(_) => false,
                    }
                },
            forall|j: int|
                0 <= j < k ==> match (#[trigger] bindings@[j]).0 {
                    BlockBinding::Explicit(loc) => find_by_location(po.composite_blocks@, loc)
                        is Some,
                    BlockBinding::Named(_) => false,
                },
        decreases bindings@.len() - k,
    {
        let location = match &bindings[k].0 {
            BlockBinding::Explicit(loc) => *loc,
            BlockBinding::Named(_) => {
                proof {
                    assert(false);
                }
                BlockBindingLocation::Ubo(0)
            },
        };
        let buffer = bindings[k].1;
        let bits = match location {
            BlockBindingLocation::Ubo(_) => UNIFORM_BARRIER_BIT,
            BlockBindingLocation::Ssbo(_) => SHADER_STORAGE_BARRIER_BIT,
        };
        proof {
            assert(uses[k as int] == (
                TrackerHandle::Buffer(buffer),
                spec_block_is_rw(*po, location),
            ));
        }
        let ghost m_pre = tracker.marked();
        let barrier = tracker.insert_barrier(TrackerHandle::Buffer(buffer), bits);
        match po.block_by_binding_location(location) {
            Some(block) => {
                if block.is_read_write {
                    tracker.mark_resource(TrackerHandle::Buffer(buffer));
                }
                proof {
                    assert(uses[k as int].1 == block.is_read_write);
                    assert(tracker.marked() =~= (if uses[k as int].1 {
                        m_pre.insert(uses[k as int].0)
                    } else {
                        m_pre.remove(uses[k as int].0)
                    }));
                    assert(tracker.marked() == marked_after(m0, uses, k + 1));
                    assert(barrier == expected_barrier(
                        m0,
                        uses,
                        k as int,
                        location_barrier_bits(location),
                    ));
                }
            },
            None => {
                proof {
                    assert(!command_buildable(*cmd, *store)) by {
                        assert(match cmd.spec_block_bindings()@[k as int].0 {
                            BlockBinding::Explicit(loc) => find_by_location(
                                po.composite_blocks@,
                                loc,
                            ) is None,
                            BlockBinding::Named(_) => false,
                        });
                    }
                }
                return Err(RenderError::UnreflectedBlockBinding);
            },
        }
        let allocation = allocator.resolve_buffer_allocation(buffer);
        buffer_binds.push(BufferBindPlan { barrier, location, allocation });
        k += 1;
    }

    let image_bindings = cmd.image_bindings().unwrap();
    let mut image_binds: Vec<ImageBindPlan> = Vec::new();
    let mut k: usize = 0;
    #[verifier::loop_isolation(false)]
    while k < image_bindings.len()
        invariant
            k <= image_bindings@.len(),
            tracker.inv(),
            tracker.marked() == marked_after(m0, uses, block_count + k),
            image_binds@.len() == k,
            forall|j: int|
                0 <= j < k ==> {
                    let ib = #[trigger] image_bindings@[j];
                    let plan = #[trigger] image_binds@[j];
                    &&& ImageBindingLocation::Explicit(plan.unit) == ib.spec_location()
                    &&& store.image_handle_valid(ib.spec_image_handle())
                    &&& plan.image == store.image_objects@[ib.spec_image_handle().0 as int]
                    &&& (ib is Texture ==> sampler_cached(*store, ib.spec_sampler()))
                    &&& match ib {
                        ImageBinding::Texture { .. } => plan.kind is Texture && plan.barrier
                            == expected_barrier(
                            m0,
                            uses,
                            block_count + j,
                            TEXTURE_FETCH_BARRIER_BIT,
                        ),
                        ImageBinding::Image { read_write, .. } => plan.kind
                            == (ImageBindKind::Image { read_write }) && plan.barrier
                            == expected_barrier(
                            m0,
                            uses,
                            block_count + j,
                            SHADER_IMAGE_ACCESS_BARRIER_BIT,
                        ),
                    }
                },
            forall|j: int|
                0 <= j < k ==> store.image_handle_valid(
                    (#[trigger] image_bindings@[j]).spec_image_handle(),
                ) && (image_bindings@[j] is Texture ==> sampler_cached(
                    *store,
                    image_bindings@[j].spec_sampler(),
                )),
        decreases image_bindings@.len() - k,
    {
        let handle = image_bindings[k].image_handle();
        let image = match store.resolve_image(handle) {
            Some(i) => *i,
            None => {
                proof {
                    assert(!command_buildable(*cmd, *store)) by {
                        assert(!store.image_handle_valid(
                            cmd.spec_image_bindings()@[k as int].spec_image_handle(),
                        ));
                    }
                }
                return Err(RenderError::MissingImage);
            },
        };
        proof {
            assert(uses[block_count + k] == (
                TrackerHandle::Image(handle),
                cmd.spec_image_bindings()@[k as int].spec_writes(),
            ));
        }
        let ghost m_pre = tracker.marked();
        match &image_bindings[k] {
            ImageBinding::Texture { sampler, location, .. } => {
                let unit = match location {
                    ImageBindingLocation::Explicit(u) => *u,
                    ImageBindingLocation::Named(_) => {
                        proof {
                            assert(false);
                        }
                        0
                    },
                };
                let barrier = tracker.insert_barrier(
                    TrackerHandle::Image(handle),
                    TEXTURE_FETCH_BARRIER_BIT,
                );
                let sampler_object = match store.lookup_sampler(sampler) {
                    Some(s) => s,
                    None => {
                        proof {
                            assert(!command_buildable(*cmd, *store)) by {
                                assert(!sampler_cached(
                                    *store,
                                    cmd.spec_image_bindings()@[k as int].spec_sampler(),
                                ));
                            }
                        }
                        return Err(RenderError::MissingSampler);
                    },
                };
                proof {
                    assert(tracker.marked() =~= m_pre.remove(uses[block_count + k].0));
                    assert(tracker.marked() == marked_after(m0, uses, block_count + k + 1));
                }
                image_binds.push(
                    ImageBindPlan {
                        barrier,
                        unit,
                        image,
                        kind: ImageBindKind::Texture { sampler: sampler_object },
                    },
                );
            },
            ImageBinding::Image { location, read_write, .. } => {
                let unit = match location {
                    ImageBindingLocation::Explicit(u) => *u,
                    ImageBindingLocation::Named(_) => {
                        proof {
                            assert(false);
                        }
                        0
                    },
                };
                let barrier = tracker.insert_barrier(
                    TrackerHandle::Image(handle),
                    SHADER_IMAGE_ACCESS_BARRIER_BIT,
                );
                if *read_write {
                    tracker.mark_resource(TrackerHandle::Image(handle));
                }
                proof {
                    assert(tracker.marked() =~= (if uses[block_count + k].1 {
                        m_pre.insert(uses[block_count + k].0)
                    } else {
                        m_pre.remove(uses[block_count + k].0)
                    }));
                    assert(tracker.marked() == marked_after(m0, uses, block_count + k + 1));
                }
                image_binds.push(
                    ImageBindPlan {
                        barrier,
                        unit,
                        image,
                        kind: ImageBindKind::Image { read_write: *read_write },
                    },
                );
            },
        }
        k += 1;
    }

    let ghost m_pre = tracker.marked();
    let execute = match cmd {
        Command::Draw(d) => match d.index_buffer {
            Some(h) => {
                proof {
                    assert(uses.len() == block_count + image_count + 1);
                    assert(uses[block_count + image_count] == (TrackerHandle::Buffer(h), false));
                }
                let index_barrier = tracker.insert_barrier(
                    TrackerHandle::Buffer(h),
                    ELEMENT_ARRAY_BARRIER_BIT,
                );
                proof {
                    assert(tracker.marked() =~= m_pre.remove(
                        uses[block_count + image_count].0,
                    ));
                    assert(tracker.marked() == marked_after(m0, uses, uses.len() as int));
                }
                let index_allocation = allocator.resolve_buffer_allocation(h);
                ExecutePlan::DrawElements {
                    primitive: d.primitive_type,
                    elements: d.num_elements,
                    instances: d.num_instances,
                    index_barrier,
                    index_allocation,
                }
            },
            None => {
                proof {
                    assert(uses.len() == block_count + image_count);
                }
                ExecutePlan::DrawArrays {
                    primitive: d.primitive_type,
                    elements: d.num_elements,
                    instances: d.num_instances,
                }
            },
        },
        Command::Dispatch(d) => match d.num_groups {
            DispatchSizeSource::Explicit(x, y, z) => {
                proof {
                    assert(uses.len() == block_count + image_count);
                }
                ExecutePlan::DispatchDirect { x, y, z }
            },
            DispatchSizeSource::Indirect(h) => {
                proof {
                    assert(uses.len() == block_count + image_count + 1);
                    assert(uses[block_count + image_count] == (TrackerHandle::Buffer(h), false));
                }
                let barrier = tracker.insert_barrier(
                    TrackerHandle::Buffer(h),
                    COMMAND_BARRIER_BIT,
                );
                proof {
                    assert(tracker.marked() =~= m_pre.remove(
                        uses[block_count + image_count].0,
                    ));
                    assert(tracker.marked() == marked_after(m0, uses, uses.len() as int));
                }
                let allocation = allocator.resolve_buffer_allocation(h);
                ExecutePlan::DispatchIndirect { barrier, allocation }
            },
        },
    };

    proof {
        assert(command_buildable(*cmd, *store)) by {
            assert forall|k: int|
                0 <= k < cmd.spec_block_bindings()@.len() implies match (
            #[trigger] cmd.spec_block_bindings()@[k]).0 {
                BlockBinding::Explicit(loc) => find_by_location(po.composite_blocks@, loc)
                    is Some,
                BlockBinding::Named(_) => false,
            } by {
                assert(bindings@[k] == cmd.spec_block_bindings()@[k]);
                assert(match (#[trigger] bindings@[k]).0 {
                    BlockBinding::Explicit(loc) => find_by_location(po.composite_blocks@, loc)
                        is Some,
                    BlockBinding::Named(_) => false,
                });
            }
            assert forall|k: int|
                0 <= k < cmd.spec_image_bindings()@.len() implies store.image_handle_valid(
                (#[trigger] cmd.spec_image_bindings()@[k]).spec_image_handle(),
            ) && (cmd.spec_image_bindings()@[k] is Texture ==> sampler_cached(
                *store,
                cmd.spec_image_bindings()@[k].spec_sampler(),
            )) by {
                assert(image_bindings@[k] == cmd.spec_image_bindings()@[k]);
                assert(store.image_handle_valid(
                    (#[trigger] image_bindings@[k]).spec_image_handle(),
                ));
            }
        }
    }
    Ok(CommandPlan { pipeline_name: po.name, buffer_binds, image_binds, execute })
}

/// Every command of the frame is explicit.
pub open spec fn frame_explicit(frame: FrameState) -> bool {
    forall|p: int, c: int|
        0 <= p < frame.passes@.len() && 0 <= c < frame.passes@[p].commands@.len()
            ==> command_explicit(#[trigger] frame.passes@[p].commands@[c])
}

/// Every buffer any command of the frame uses is resolved.
pub open spec fn frame_buffers_resolved(frame: FrameState) -> bool {
    forall|p: int, c: int|
        0 <= p < frame.passes@.len() && 0 <= c < frame.passes@[p].commands@.len()
            ==> command_buffers_resolved(
            #[trigger] frame.passes@[p].commands@[c],
            frame.allocator,
        )
}

/// Lay the whole frame out for the driver: passes in recorded order,
/// commands in recorded order within each pass, and within one frame a
/// resource written earlier receives exactly one barrier before its
/// next use, tracked per resource identity across the whole
/// submission.  Succeeds exactly when every lookup the frame needs is
/// in the store.
pub fn build_submission(
    frame: &FrameState,
    store: &ResourceManager,
    upload_buffer_name: u32,
) -> (out: Result<FramePlan, RenderError>)
    requires
        frame_explicit(*frame),
        frame_buffers_resolved(*frame),
    ensures
        out is Ok <==> frame_buildable(*frame, *store),
        match out {
            Ok(plan) => {
                &&& plan.upload_buffer_name == upload_buffer_name
                &&& plan.passes@.len() == frame.passes@.len()
                &&& (forall|p: int|
                    0 <= p < frame.passes@.len() ==> {
                        let pass = #[trigger] frame.passes@[p];
                        let pp = plan.passes@[p];
                        &&& pp.name@ == pass.name@
                        &&& pp.wants_timer_query == pass.wants_timer_query
                        &&& (pass.fbo_def == crate::resources::FboDef::spec_empty() ==> pp.fbo
                            == store.default_fbo)
                        &&& (pass.fbo_def != crate::resources::FboDef::spec_empty()
                            ==> exists|k: int|
                            0 <= k < store.fbos@.len() && #[trigger] store.fbos@[k] == (
                            pass.fbo_def,
                            pp.fbo,
                            ))
                        &&& pp.commands@.len() == pass.commands@.len()
                        &&& (forall|c: int|
                            0 <= c < pass.commands@.len() ==> command_plan_matches(
                                #[trigger] pass.commands@[c],
                                pp.commands@[c],
                                *store,
                                frame.allocator,
                                marked_at(frame.passes@, *store, p, c),
                            ))
                    })
            },
            Err(e) => match e {
                RenderError::MissingFramebuffer => exists|p: int|
                    0 <= p < frame.passes@.len() && !fbo_available(
                        *store,
                        (#[trigger] frame.passes@[p]).fbo_def,
                    ),
                RenderError::MissingPipeline => frame_has_failing_command(
                    *frame,
                    *store,
                    FailingLookup::Pipeline,
                ),
                RenderError::UnreflectedBlockBinding => frame_has_failing_command(
                    *frame,
                    *store,
                    FailingLookup::Block,
                ),
                RenderError::MissingImage => frame_has_failing_command(
                    *frame,
                    *store,
                    FailingLookup::Image,
                ),
                RenderError::MissingSampler => frame_has_failing_command(
                    *frame,
                    *store,
                    FailingLookup::Sampler,
                ),
                _ => false,
            },
        },
{
    let mut tracker = ResourceBarrierTracker::new();
    proof {
        assert(tracker.marked() =~= Set::<TrackerHandle>::empty());
    }
    let mut passes: Vec<PassPlan> = Vec::new();
    let mut p: usize = 0;
    #[verifier::loop_isolation(false)]
    while p < frame.passes.len()
        invariant
            p <= frame.passes@.len(),
            tracker.inv(),
            tracker.marked() == passes_marked_after(
                Set::empty(),
                frame.passes@,
                *store,
                p as int,
            ),
            passes@.len() == p,
            forall|j: int|
                0 <= j < p ==> fbo_available(*store, (#[trigger] frame.passes@[j]).fbo_def),
            forall|j: int, c: int|
                0 <= j < p && 0 <= c < frame.passes@[j].commands@.len() ==> command_buildable(
                    #[trigger] frame.passes@[j].commands@[c],
                    *store,
                ),
            forall|j: int|
                0 <= j < p ==> {
                    let pass = #[trigger] frame.passes@[j];
                    let pp = #[trigger] passes@[j];
                    &&& pp.name@ == pass.name@
                    &&& pp.wants_timer_query == pass.wants_timer_query
                    &&& (pass.fbo_def == crate::resources::FboDef::spec_empty() ==> pp.fbo
                        == store.default_fbo)
                    &&& (pass.fbo_def != crate::resources::FboDef::spec_empty() ==> exists|k: int|
                        0 <= k < store.fbos@.len() && #[trigger] store.fbos@[k] == (
                        pass.fbo_def,
                        pp.fbo,
                        ))
                    &&& pp.commands@.len() == pass.commands@.len()
                    &&& (forall|c: int|
                        0 <= c < pass.commands@.len() ==> command_plan_matches(
                            #[trigger] pass.commands@[c],
                            pp.commands@[c],
                            *store,
                            frame.allocator,
                            marked_at(frame.passes@, *store, j, c),
                        ))
                },
        decreases frame.passes@.len() - p,
    {
        let fbo = match store.lookup_fbo(&frame.passes[p].fbo_def) {
            Some(f) => f,
            None => {
                proof {
                    assert(!fbo_available(*store, frame.passes@[p as int].fbo_def));
                }
                return Err(RenderError::MissingFramebuffer);
            },
        };
        let ghost m_pass = passes_marked_after(Set::empty(), frame.passes@, *store, p as int);
        let mut commands: Vec<CommandPlan> = Vec::new();
        let mut c: usize = 0;
        #[verifier::loop_isolation(false)]
        while c < frame.passes[p].commands.len()
            invariant
                p < frame.passes@.len(),
                c <= frame.passes@[p as int].commands@.len(),
                tracker.inv(),
                tracker.marked() == cmds_marked_after(
                    m_pass,
                    frame.passes@[p as int].commands@,
                    *store,
                    c as int,
                ),
                commands@.len() == c,
                forall|j: int|
                    0 <= j < c ==> command_buildable(
                        #[trigger] frame.passes@[p as int].commands@[j],
                        *store,
                    ),
                forall|j: int|
                    0 <= j < c ==> command_plan_matches(
                        #[trigger] frame.passes@[p as int].commands@[j],
                        (#[trigger] commands@[j]),
                        *store,
                        frame.allocator,
                        marked_at(frame.passes@, *store, p as int, j),
                    ),
            decreases frame.passes@[p as int].commands@.len() - c,
        {
            let r = plan_command(
                &frame.passes[p].commands[c],
                store,
                &frame.allocator,
                &mut tracker,
            );
            match r {
                Ok(cp) => {
                    commands.push(cp);
                },
                Err(e) => {
                    proof {
                        assert(!command_buildable(
                            frame.passes@[p as int].commands@[c as int],
                            *store,
                        ));
                        let cmd = frame.passes@[p as int].commands@[c as int];
                        let ghost err_snapshot = e;
                        match err_snapshot {
                            RenderError::MissingPipeline => {
                                assert(frame_has_failing_command(
                                    *frame,
                                    *store,
                                    FailingLookup::Pipeline,
                                )) by {
                                    assert(command_missing_pipeline(
                                        frame.passes@[p as int].commands@[c as int],
                                        *store,
                                    ));
                                }
                            },
                            RenderError::UnreflectedBlockBinding => {
                                assert(frame_has_failing_command(
                                    *frame,
                                    *store,
                                    FailingLookup::Block,
                                )) by {
                                    assert(command_has_unreflected_block(
                                        frame.passes@[p as int].commands@[c as int],
                                        *store,
                                    ));
                                }
                            },
                            RenderError::MissingImage => {
                                assert(frame_has_failing_command(
                                    *frame,
                                    *store,
                                    FailingLookup::Image,
                                )) by {
                                    assert(command_has_missing_image(
                                        frame.passes@[p as int].commands@[c as int],
                                        *store,
                                    ));
                                }
                            },
                            RenderError::MissingSampler => {
                                assert(frame_has_failing_command(
                                    *frame,
                                    *store,
                                    FailingLookup::Sampler,
                                )) by {
                                    assert(command_has_missing_sampler(
                                        frame.passes@[p as int].commands@[c as int],
                                        *store,
                                    ));
                                }
                            },
                            _ => {},
                        }
                    }
                    return Err(e);
                },
            }
            c += 1;
        }
        let name = frame.passes[p].name.clone();
        let wants_timer_query = frame.passes[p].wants_timer_query;
        passes.push(PassPlan { name, fbo, wants_timer_query, commands });
        p += 1;
    }
    Ok(FramePlan { upload_buffer_name, passes })
}

/// A command resolved against its pipeline carries only explicit
/// bindings.
proof fn lemma_phase_ok_explicit(pre: Command, post: Command, store: ResourceManager)
    requires
        command_phase_ok(pre, post, store),
    ensures
        command_explicit(post),
{
    let po = choose|po: PipelineObject|
        store.spec_lookup_pipeline(pre.spec_pipeline_def()) == Some(po);
    assert(command_resolved_from(pre, post, po));
    assert forall|k: int|
        0 <= k < post.spec_block_bindings()@.len() implies (#[trigger] post.spec_block_bindings()@[
        k]).0 is Explicit by {
        assert(Some(post.spec_block_bindings()@[k].0) == resolve_block_binding(
            pre.spec_block_bindings()@[k].0,
            po,
        ));
    }
    assert forall|k: int|
        0 <= k < post.spec_image_bindings()@.len() implies (
    #[trigger] post.spec_image_bindings()@[k]).spec_location() is Explicit by {
        assert(Some(post.spec_image_bindings()@[k].spec_location()) == resolve_image_location(
            pre.spec_image_bindings()@[k].spec_location(),
            po,
        ));
    }
}

/// After the upload pass, every handle that was valid is resolved.
proof fn lemma_upload_resolves_all(
    pre: TransientAllocator,
    post: TransientAllocator,
    cap: int,
    allocs: Seq<BufferAllocation>,
)
    requires
        pre.inv(),
        post.reserved_buffers@.len() == pre.reserved_buffers@.len(),
        post.streamed_buffers@.len() == pre.streamed_buffers@.len(),
        forall|i: int|
            0 <= i < pre.reserved_buffers@.len() ==> crate::frame::reserved_entry_done(
                #[trigger] pre.reserved_buffers@[i],
                post.reserved_buffers@[i],
                cap,
                allocs,
                0,
            ),
        forall|i: int|
            0 <= i < pre.streamed_buffers@.len() ==> crate::frame::streamed_entry_done(
                #[trigger] pre.streamed_buffers@[i],
                post.streamed_buffers@[i],
                cap,
                allocs,
                0,
            ),
    ensures
        forall|h: BufferHandle|
            pre.handle_valid(h) ==> #[trigger] post.handle_resolved(h),
{
    assert forall|h: BufferHandle| pre.handle_valid(h) implies #[trigger] post.handle_resolved(
        h,
    ) by {
        match h {
            BufferHandle::Streamed(i) => {
                assert(crate::frame::streamed_entry_done(
                    pre.streamed_buffers@[i as int],
                    post.streamed_buffers@[i as int],
                    cap,
                    allocs,
                    0,
                ));
            },
            BufferHandle::Reserved(i) => {
                assert(crate::frame::reserved_entry_done(
                    pre.reserved_buffers@[i as int],
                    post.reserved_buffers@[i as int],
                    cap,
                    allocs,
                    0,
                ));
            },
            BufferHandle::Committed => {},
        }
    }
}

/// How `end_frame` changes the allocator: the arena and every
/// already-resolved entry are untouched, and every pending entry ends
/// resolved at its recorded size, placed at a multiple of the
/// alignment it was recorded with, inside the ring and registered with
/// the heap's current frame.
pub open spec fn allocator_uploaded_from(
    pre: TransientAllocator,
    post: TransientAllocator,
    cap: int,
    allocs: Seq<BufferAllocation>,
) -> bool {
    &&& post.transient_data == pre.transient_data
    &&& post.reserved_buffers@.len() == pre.reserved_buffers@.len()
    &&& post.streamed_buffers@.len() == pre.streamed_buffers@.len()
    &&& (forall|i: int|
        0 <= i < pre.reserved_buffers@.len() ==> match #[trigger] pre.reserved_buffers@[i] {
            ReservedBuffer::Allocated(_) => post.reserved_buffers@[i] == pre.reserved_buffers@[i],
            ReservedBuffer::Pending { size, alignment } => match post.reserved_buffers@[i] {
                ReservedBuffer::Allocated(a) => {
                    &&& a.size == size
                    &&& a.offset as int % alignment as int == 0
                    &&& a.offset + a.size <= cap
                    &&& allocs.contains(a)
                },
                _ => false,
            },
        })
    &&& (forall|i: int|
        0 <= i < pre.streamed_buffers@.len() ==> match #[trigger] pre.streamed_buffers@[i] {
            StreamedBuffer::Uploaded(_) => post.streamed_buffers@[i] == pre.streamed_buffers@[i],
            StreamedBuffer::Pending { data_start: _, size, alignment } => match post
                .streamed_buffers@[i] {
                StreamedBuffer::Uploaded(a) => {
                    &&& a.size == size
                    &&& a.offset as int % alignment as int == 0
                    &&& a.offset + a.size <= cap
                    &&& allocs.contains(a)
                },
                _ => false,
            },
        })
}

/// Every buffer of the command that was still pending when the frame
/// was handed in ends placed at a multiple of its binding class's
/// alignment: the device's uniform-buffer alignment at uniform
/// locations, the storage-buffer alignment at storage locations,
/// natural alignment for index and indirect buffers.  A buffer placed
/// before the frame was handed in is never re-aligned.
pub open spec fn command_placed_aligned(
    cmd: Command,
    pre_alloc: TransientAllocator,
    post_alloc: TransientAllocator,
    ubo_alignment: int,
) -> bool {
    &&& (forall|k: int|
        0 <= k < cmd.spec_block_bindings()@.len() ==> match (
        #[trigger] cmd.spec_block_bindings()@[k]).0 {
            BlockBinding::Explicit(loc) => pre_alloc.handle_pending(
                cmd.spec_block_bindings()@[k].1,
            ) ==> post_alloc.spec_allocation_of(cmd.spec_block_bindings()@[k].1).offset as int
                % location_alignment(loc, ubo_alignment) == 0,
            BlockBinding::Named(_) => true,
        })
    &&& match cmd {
        Command::Draw(d) => match d.index_buffer {
            Some(h) => pre_alloc.handle_pending(h) ==> post_alloc.spec_allocation_of(h).offset
                as int % DEFAULT_BUFFER_ALIGNMENT as int == 0,
            None => true,
        },
        Command::Dispatch(d) => match d.num_groups {
            DispatchSizeSource::Indirect(h) => pre_alloc.handle_pending(h)
                ==> post_alloc.spec_allocation_of(h).offset as int % DEFAULT_BUFFER_ALIGNMENT
                as int == 0,
            DispatchSizeSource::Explicit(..) => true,
        },
    }
}

/// A pending buffer whose recorded alignment reaches a class bound is
/// placed at a multiple of that bound once uploaded.
proof fn lemma_placement_divides(
    pre: TransientAllocator,
    post: TransientAllocator,
    h: BufferHandle,
    class_alignment: int,
    cap: int,
    allocs: Seq<BufferAllocation>,
)
    requires
        pre.inv(),
        pending_at_least(pre, h, class_alignment),
        pre.handle_pending(h),
        crate::upload_heap::is_pow2(class_alignment),
        allocator_uploaded_from(pre, post, cap, allocs),
    ensures
        post.spec_allocation_of(h).offset as int % class_alignment == 0,
{
    match h {
        BufferHandle::Streamed(i) => {
            match pre.streamed_buffers@[i as int] {
                StreamedBuffer::Pending { data_start: _, size: _, alignment } => {
                    crate::upload_heap::lemma_pow2_divides(class_alignment, alignment as int);
                    match post.streamed_buffers@[i as int] {
                        StreamedBuffer::Uploaded(a) => {
                            crate::upload_heap::lemma_aligned_to_divisor(
                                a.offset as int,
                                class_alignment,
                                alignment as int,
                            );
                        },
                        _ => {},
                    }
                },
                _ => {},
            }
        },
        BufferHandle::Reserved(i) => {
            match pre.reserved_buffers@[i as int] {
                ReservedBuffer::Pending { size: _, alignment } => {
                    crate::upload_heap::lemma_pow2_divides(class_alignment, alignment as int);
                    match post.reserved_buffers@[i as int] {
                        ReservedBuffer::Allocated(a) => {
                            crate::upload_heap::lemma_aligned_to_divisor(
                                a.offset as int,
                                class_alignment,
                                alignment as int,
                            );
                        },
                        _ => {},
                    }
                },
                _ => {},
            }
        },
        BufferHandle::Committed => {},
    }
}

/// Upload facts per entry amount to the allocator relation.
proof fn lemma_upload_is_uploaded_from(
    pre: TransientAllocator,
    post: TransientAllocator,
    cap: int,
    allocs: Seq<BufferAllocation>,
)
    requires
        pre.inv(),
        post.transient_data == pre.transient_data,
        post.reserved_buffers@.len() == pre.reserved_buffers@.len(),
        post.streamed_buffers@.len() == pre.streamed_buffers@.len(),
        forall|i: int|
            0 <= i < pre.reserved_buffers@.len() ==> crate::frame::reserved_entry_done(
                #[trigger] pre.reserved_buffers@[i],
                post.reserved_buffers@[i],
                cap,
                allocs,
                0,
            ),
        forall|i: int|
            0 <= i < pre.streamed_buffers@.len() ==> crate::frame::streamed_entry_done(
                #[trigger] pre.streamed_buffers@[i],
                post.streamed_buffers@[i],
                cap,
                allocs,
                0,
            ),
    ensures
        allocator_uploaded_from(pre, post, cap, allocs),
{
    assert forall|i: int|
        0 <= i < pre.reserved_buffers@.len() implies match #[trigger] pre.reserved_buffers@[i] {
        ReservedBuffer::Allocated(_) => post.reserved_buffers@[i] == pre.reserved_buffers@[i],
        ReservedBuffer::Pending { size, alignment } => match post.reserved_buffers@[i] {
            ReservedBuffer::Allocated(a) => {
                &&& a.size == size
                &&& a.offset as int % alignment as int == 0
                &&& a.offset + a.size <= cap
                &&& allocs.contains(a)
            },
            _ => false,
        },
    } by {
        assert(crate::frame::reserved_entry_done(
            pre.reserved_buffers@[i],
            post.reserved_buffers@[i],
            cap,
            allocs,
            0,
        ));
    }
    assert forall|i: int|
        0 <= i < pre.streamed_buffers@.len() implies match #[trigger] pre.streamed_buffers@[i] {
        StreamedBuffer::Uploaded(_) => post.streamed_buffers@[i] == pre.streamed_buffers@[i],
        StreamedBuffer::Pending { data_start: _, size, alignment } => match post
            .streamed_buffers@[i] {
            StreamedBuffer::Uploaded(a) => {
                &&& a.size == size
                &&& a.offset as int % alignment as int == 0
                &&& a.offset + a.size <= cap
                &&& allocs.contains(a)
            },
            _ => false,
        },
    } by {
        assert(crate::frame::streamed_entry_done(
            pre.streamed_buffers@[i],
            post.streamed_buffers@[i],
            cap,
            allocs,
            0,
        ));
    }
}

/// The allocator relation absorbs a preceding widening step: widening
/// only raises recorded alignments, and a placement at a multiple of
/// the raised alignment is a placement at a multiple of the original.
proof fn lemma_uploaded_through_widening(
    pre: TransientAllocator,
    mid: TransientAllocator,
    post: TransientAllocator,
    ubo_alignment: int,
    cap: int,
    allocs: Seq<BufferAllocation>,
)
    requires
        pre.inv(),
        mid.inv(),
        alignments_widened(pre, mid, ubo_alignment),
        allocator_uploaded_from(mid, post, cap, allocs),
    ensures
        allocator_uploaded_from(pre, post, cap, allocs),
{
    assert forall|i: int|
        0 <= i < pre.reserved_buffers@.len() implies match #[trigger] pre.reserved_buffers@[i] {
        ReservedBuffer::Allocated(_) => post.reserved_buffers@[i] == pre.reserved_buffers@[i],
        ReservedBuffer::Pending { size, alignment } => match post.reserved_buffers@[i] {
            ReservedBuffer::Allocated(a) => {
                &&& a.size == size
                &&& a.offset as int % alignment as int == 0
                &&& a.offset + a.size <= cap
                &&& allocs.contains(a)
            },
            _ => false,
        },
    } by {
        match pre.reserved_buffers@[i] {
            ReservedBuffer::Pending { size, alignment } => {
                match mid.reserved_buffers@[i] {
                    ReservedBuffer::Pending { size: s2, alignment: a2 } => {
                        crate::upload_heap::lemma_pow2_divides(alignment as int, a2 as int);
                        match post.reserved_buffers@[i] {
                            ReservedBuffer::Allocated(a) => {
                                crate::upload_heap::lemma_aligned_to_divisor(
                                    a.offset as int,
                                    alignment as int,
                                    a2 as int,
                                );
                            },
                            _ => {},
                        }
                    },
                    _ => {},
                }
            },
            ReservedBuffer::Allocated(_) => {},
        }
    }
    assert forall|i: int|
        0 <= i < pre.streamed_buffers@.len() implies match #[trigger] pre.streamed_buffers@[i] {
        StreamedBuffer::Uploaded(_) => post.streamed_buffers@[i] == pre.streamed_buffers@[i],
        StreamedBuffer::Pending { data_start: _, size, alignment } => match post
            .streamed_buffers@[i] {
            StreamedBuffer::Uploaded(a) => {
                &&& a.size == size
                &&& a.offset as int % alignment as int == 0
                &&& a.offset + a.size <= cap
                &&& allocs.contains(a)
            },
            _ => false,
        },
    } by {
        match pre.streamed_buffers@[i] {
            StreamedBuffer::Pending { data_start: _, size, alignment } => {
                match mid.streamed_buffers@[i] {
                    StreamedBuffer::Pending { data_start: _, size: s2, alignment: a2 } => {
                        crate::upload_heap::lemma_pow2_divides(alignment as int, a2 as int);
                        match post.streamed_buffers@[i] {
                            StreamedBuffer::Uploaded(a) => {
                                crate::upload_heap::lemma_aligned_to_divisor(
                                    a.offset as int,
                                    alignment as int,
                                    a2 as int,
                                );
                            },
                            _ => {},
                        }
                    },
                    _ => {},
                }
            },
            StreamedBuffer::Uploaded(_) => {},
        }
    }
}

/// Drives a frame from recording to a submission plan: owns the
/// upload ring and knows the device's uniform-buffer offset alignment.
pub struct Context {
    pub upload_heap: UploadHeap,
    pub uniform_buffer_offset_alignment: usize,
}

impl Context {
    pub open spec fn inv(&self) -> bool {
        &&& self.upload_heap.wf()
        &&& 1 <= self.uniform_buffer_offset_alignment <= self.upload_heap.capacity
        &&& is_pow2(self.uniform_buffer_offset_alignment as int)
        &&& SSBO_ALIGNMENT <= self.upload_heap.capacity
    }

    pub fn new(upload_heap: UploadHeap, uniform_buffer_offset_alignment: usize) -> (out:
        Context)
        requires
            upload_heap.wf(),
            1 <= uniform_buffer_offset_alignment <= upload_heap.capacity,
            is_pow2(uniform_buffer_offset_alignment as int),
            SSBO_ALIGNMENT <= upload_heap.capacity,
        ensures
            out.inv(),
            out.upload_heap == upload_heap,
            out.uniform_buffer_offset_alignment == uniform_buffer_offset_alignment,
    {
        Context { upload_heap, uniform_buffer_offset_alignment }
    }

    /// Start-of-frame check of the ring's usage counters.
    pub fn start_frame(&mut self)
        requires
            old(self).inv(),
            old(self).upload_heap.buffer_usage_counter <= old(self).upload_heap.capacity,
        ensures
            final(self).inv(),
            final(self).upload_heap == (UploadHeap {
                data_pushed_counter: 0,
                buffer_usage_counter: 0,
                ..old(self).upload_heap
            }),
            final(self).uniform_buffer_offset_alignment == old(self).uniform_buffer_offset_alignment,
    {
        self.upload_heap.reset();
    }

    /// Drive the frame to a submission plan: resolve named bindings,
    /// propagate binding-class alignments, upload the transient
    /// buffers, then lay out passes and commands with their barriers.
    /// Every lookup failure is a fatal construction error.
    pub fn end_frame(&mut self, frame: &mut FrameState, store: &ResourceManager) -> (out: Result<
        FramePlan,
        RenderError,
    >)
        requires
            old(self).inv(),
            old(frame).inv(),
            frame_handles_valid(*old(frame)),
            crate::frame::pending_fit(old(frame).allocator, old(self).upload_heap.capacity as int),
        ensures
            final(self).inv(),
            final(frame).inv(),
            final(self).upload_heap.capacity == old(self).upload_heap.capacity,
            final(self).upload_heap.buffer_name == old(self).upload_heap.buffer_name,
            final(self).uniform_buffer_offset_alignment == old(self).uniform_buffer_offset_alignment,
            final(self).upload_heap.frame_start_cursor == old(self).upload_heap.frame_start_cursor,
            final(self).upload_heap.frame_travel@ >= old(self).upload_heap.frame_travel@,
            old(self).upload_heap.frame_allocs@.is_prefix_of(final(self).upload_heap.frame_allocs@),
            old(self).upload_heap.waited_fences@.is_prefix_of(
                final(self).upload_heap.waited_fences@,
            ),
            frame_handles_valid(*final(frame)),
            // the recorded structure survives whatever the outcome:
            // the same passes holding the same commands, with only
            // binding locations and buffer entries changed
            final(frame).passes@.len() == old(frame).passes@.len(),
            forall|p: int|
                0 <= p < old(frame).passes@.len() ==> {
                    let pre = #[trigger] old(frame).passes@[p];
                    let post = final(frame).passes@[p];
                    &&& post.name == pre.name
                    &&& post.fbo_def == pre.fbo_def
                    &&& post.wants_timer_query == pre.wants_timer_query
                    &&& post.commands@.len() == pre.commands@.len()
                },
            forall|p: int, c: int|
                0 <= p < old(frame).passes@.len() && 0 <= c < old(frame).passes@[p].commands@.len() ==> same_command_shell(
                    #[trigger] old(frame).passes@[p].commands@[c],
                    final(frame).passes@[p].commands@[c],
                ) && binding_payloads_preserved(
                    old(frame).passes@[p].commands@[c],
                    final(frame).passes@[p].commands@[c],
                ),
            // the frame is laid out exactly when every name resolves
            // and every lookup the resolved frame needs is present;
            // the resolution linkage below makes the resolved frame a
            // function of the frame as handed in
            out is Ok <==> frame_named_blocks_agree(*old(frame), *store) && frame_resolvable(
                *old(frame),
                *store,
            ) && frame_buildable(*final(frame), *store),
            // failures name their cause against the frame as handed in
            out matches Err(e) ==> match e {
                RenderError::IncompatibleBlock(n) => frame_named_conflict(
                    *old(frame),
                    *store,
                    n,
                ),
                RenderError::MissingPipeline => frame_has_missing_pipeline(*old(frame), *store),
                RenderError::UnknownBlockBinding(n) => frame_has_unknown_block(
                    *old(frame),
                    *store,
                    n,
                ),
                RenderError::UnknownImageBinding(n) => frame_has_unknown_image(
                    *old(frame),
                    *store,
                    n,
                ),
                RenderError::UnreflectedBlockBinding => !frame_buildable(*final(frame), *store),
                RenderError::MissingImage => !frame_buildable(*final(frame), *store),
                RenderError::MissingSampler => !frame_buildable(*final(frame), *store),
                RenderError::MissingFramebuffer => !frame_buildable(*final(frame), *store),
                _ => false,
            },
            match out {
                Ok(plan) => {
                    &&& plan.upload_buffer_name == old(self).upload_heap.buffer_name
                    &&& plan.passes@.len() == final(frame).passes@.len()
                    &&& frame_buffers_resolved(*final(frame))
                    &&& frame_explicit(*final(frame))
                    // every named binding was replaced by the location
                    // its own pipeline reflects for the name
                    &&& (forall|p: int, c: int|
                        0 <= p < old(frame).passes@.len() && 0 <= c < old(frame).passes@[p].commands@.len() ==> command_phase_ok(
                            #[trigger] old(frame).passes@[p].commands@[c],
                            final(frame).passes@[p].commands@[c],
                            *store,
                        ))
                    // every pending buffer was placed at its recorded
                    // size and alignment inside the ring
                    &&& allocator_uploaded_from(
                        old(frame).allocator,
                        final(frame).allocator,
                        old(self).upload_heap.capacity as int,
                        final(self).upload_heap.frame_allocs@,
                    )
                    // and at a multiple of its binding class's alignment
                    &&& (forall|p: int, c: int|
                        0 <= p < final(frame).passes@.len() && 0 <= c < final(frame).passes@[p].commands@.len() ==> command_placed_aligned(
                            #[trigger] final(frame).passes@[p].commands@[c],
                            old(frame).allocator,
                            final(frame).allocator,
                            old(self).uniform_buffer_offset_alignment as int,
                        ))
                    // the plan pins, pass by pass and command by
                    // command, what the driver must execute
                    &&& (forall|p: int|
                        0 <= p < final(frame).passes@.len() ==> {
                            let pass = #[trigger] final(frame).passes@[p];
                            let pp = plan.passes@[p];
                            &&& pp.name@ == pass.name@
                            &&& pp.wants_timer_query == pass.wants_timer_query
                            &&& pp.commands@.len() == pass.commands@.len()
                            &&& (forall|c: int|
                                0 <= c < pass.commands@.len() ==> command_plan_matches(
                                    #[trigger] pass.commands@[c],
                                    pp.commands@[c],
                                    *store,
                                    final(frame).allocator,
                                    marked_at(final(frame).passes@, *store, p, c),
                                ))
                        })
                },
                Err(_) => true,
            },
    {
        let ghost frame0 = *frame;
        // two draws sharing a named block must agree on its layout
        // before any name is replaced, whichever pipelines they run on
        let consistency = check_named_block_consistency(frame, store);
        match consistency {
            Ok(()) => {},
            Err(e) => {
                return Err(e);
            },
        }
        let r = resolve_named_bindings(frame, store);
        match r {
            Ok(()) => {},
            Err(e) => {
                return Err(e);
            },
        }
        let ghost frame1 = *frame;
        proof {
            assert forall|p: int, c: int|
                0 <= p < frame1.passes@.len() && 0 <= c
                    < frame1.passes@[p].commands@.len() implies command_explicit(
                #[trigger] frame1.passes@[p].commands@[c],
            ) by {
                lemma_phase_ok_explicit(
                    frame0.passes@[p].commands@[c],
                    frame1.passes@[p].commands@[c],
                    *store,
                );
            }
        }

        propagate_alignments(frame, self.uniform_buffer_offset_alignment);
        let ghost frame2 = *frame;
        proof {
            let cap = self.upload_heap.capacity as int;
            assert(frame1.allocator == frame0.allocator);
            assert forall|i: int|
                0 <= i < frame2.allocator.reserved_buffers@.len()
                    implies match #[trigger] frame2.allocator.reserved_buffers@[i] {
                ReservedBuffer::Pending { size, alignment } => size <= cap && alignment <= cap,
                _ => true,
            } by {
                assert(match frame1.allocator.reserved_buffers@[i] {
                    ReservedBuffer::Pending { size, alignment } => size <= cap && alignment
                        <= cap,
                    _ => true,
                });
            }
            assert forall|i: int|
                0 <= i < frame2.allocator.streamed_buffers@.len()
                    implies match #[trigger] frame2.allocator.streamed_buffers@[i] {
                StreamedBuffer::Pending { data_start: _, size, alignment } => size <= cap
                    && alignment <= cap,
                _ => true,
            } by {
                assert(match frame1.allocator.streamed_buffers@[i] {
                    StreamedBuffer::Pending { data_start: _, size, alignment } => size <= cap
                        && alignment <= cap,
                    _ => true,
                });
            }
        }

        frame.allocator.upload_buffers(&mut self.upload_heap);
        proof {
            lemma_upload_resolves_all(
                frame2.allocator,
                frame.allocator,
                old(self).upload_heap.capacity as int,
                self.upload_heap.frame_allocs@,
            );
            assert forall|p: int, c: int|
                0 <= p < frame.passes@.len() && 0 <= c
                    < frame.passes@[p].commands@.len() implies command_buffers_resolved(
                #[trigger] frame.passes@[p].commands@[c],
                frame.allocator,
            ) by {
                let cmd = frame.passes@[p].commands@[c];
                assert forall|k: int|
                    0 <= k < cmd.spec_block_bindings()@.len() implies frame
                    .allocator.handle_resolved(
                    (#[trigger] cmd.spec_block_bindings()@[k]).1,
                ) by {
                    assert(frame2.allocator.handle_valid(cmd.spec_block_bindings()@[k].1));
                }
                match cmd {
                    Command::Draw(d) => {
                        match d.index_buffer {
                            Some(h) => {
                                assert(frame2.allocator.handle_valid(h));
                                assert(frame.allocator.handle_resolved(h));
                            },
                            None => {},
                        }
                    },
                    Command::Dispatch(d) => {
                        match d.num_groups {
                            DispatchSizeSource::Indirect(h) => {
                                assert(frame2.allocator.handle_valid(h));
                                assert(frame.allocator.handle_resolved(h));
                            },
                            DispatchSizeSource::Explicit(..) => {},
                        }
                    },
                }
            }
        }

        proof {
            lemma_handles_valid_same_shape(frame2, *frame);
        }
        let ghost cap = old(self).upload_heap.capacity as int;
        let ghost ubo = old(self).uniform_buffer_offset_alignment as int;
        let out = build_submission(frame, store, self.upload_heap.buffer_name);
        proof {
            // the allocator relation, composed through the widening step
            lemma_upload_is_uploaded_from(
                frame2.allocator,
                frame.allocator,
                cap,
                self.upload_heap.frame_allocs@,
            );
            assert(alignments_widened(frame0.allocator, frame2.allocator, ubo));
            lemma_uploaded_through_widening(
                frame0.allocator,
                frame2.allocator,
                frame.allocator,
                ubo,
                cap,
                self.upload_heap.frame_allocs@,
            );
            // class-aligned placement for every buffer still pending at entry
            assert forall|p: int, c: int|
                0 <= p < frame.passes@.len() && 0 <= c
                    < frame.passes@[p].commands@.len() implies command_placed_aligned(
                #[trigger] frame.passes@[p].commands@[c],
                frame0.allocator,
                frame.allocator,
                ubo,
            ) by {
                let cmd = frame.passes@[p].commands@[c];
                assert(command_alignments_satisfied(cmd, frame2.allocator, ubo));
                lemma_ssbo_alignment_pow2();
                crate::frame::lemma_default_alignment_pow2();
                assert forall|k: int|
                    0 <= k < cmd.spec_block_bindings()@.len() implies match (
                #[trigger] cmd.spec_block_bindings()@[k]).0 {
                    BlockBinding::Explicit(loc) => frame0.allocator.handle_pending(
                        cmd.spec_block_bindings()@[k].1,
                    ) ==> frame.allocator.spec_allocation_of(
                        cmd.spec_block_bindings()@[k].1,
                    ).offset as int % location_alignment(loc, ubo) == 0,
                    BlockBinding::Named(_) => true,
                } by {
                    match cmd.spec_block_bindings()@[k].0 {
                        BlockBinding::Explicit(loc) => {
                            let h = cmd.spec_block_bindings()@[k].1;
                            if frame0.allocator.handle_pending(h) {
                                assert(frame2.allocator.handle_pending(h));
                                lemma_placement_divides(
                                    frame2.allocator,
                                    frame.allocator,
                                    h,
                                    location_alignment(loc, ubo),
                                    cap,
                                    self.upload_heap.frame_allocs@,
                                );
                            }
                        },
                        BlockBinding::Named(_) => {},
                    }
                }
                match cmd {
                    Command::Draw(d) => match d.index_buffer {
                        Some(h) => {
                            if frame0.allocator.handle_pending(h) {
                                assert(frame2.allocator.handle_pending(h));
                                lemma_placement_divides(
                                    frame2.allocator,
                                    frame.allocator,
                                    h,
                                    DEFAULT_BUFFER_ALIGNMENT as int,
                                    cap,
                                    self.upload_heap.frame_allocs@,
                                );
                            }
                        },
                        None => {},
                    },
                    Command::Dispatch(d) => match d.num_groups {
                        DispatchSizeSource::Indirect(h) => {
                            if frame0.allocator.handle_pending(h) {
                                assert(frame2.allocator.handle_pending(h));
                                lemma_placement_divides(
                                    frame2.allocator,
                                    frame.allocator,
                                    h,
                                    DEFAULT_BUFFER_ALIGNMENT as int,
                                    cap,
                                    self.upload_heap.frame_allocs@,
                                );
                            }
                        },
                        DispatchSizeSource::Explicit(..) => {},
                    },
                }
            }
            // a missing pipeline can no longer surface at layout time,
            // since resolution looked every shader set up already
            let ghost out_snapshot = out;
            if out_snapshot matches Err(e) && e is MissingPipeline {
                let (p, c) = choose|p: int, c: int|
                    0 <= p < frame.passes@.len() && 0 <= c < frame.passes@[p].commands@.len()
                        && command_missing_pipeline(
                        #[trigger] frame.passes@[p].commands@[c],
                        *store,
                    );
                assert(command_phase_ok(
                    frame0.passes@[p].commands@[c],
                    frame1.passes@[p].commands@[c],
                    *store,
                ));
                assert(frame.passes@[p].commands@[c] == frame1.passes@[p].commands@[c]);
                assert(same_command_shell(
                    frame0.passes@[p].commands@[c],
                    frame1.passes@[p].commands@[c],
                ));
                assert(false);
            }
        }
        out
    }

    /// End-of-frame hand-off: the fence the application created after
    /// executing the plan now guards everything the frame wrote into
    /// the ring, and the frame's transient state is discarded in bulk.
    pub fn finish_frame(&mut self, frame: &mut FrameState, fence: u64)
        requires
            old(self).inv(),
            old(frame).inv(),
        ensures
            final(self).inv(),
            final(frame).inv(),
            final(frame).is_reset(),
            final(self).uniform_buffer_offset_alignment == old(self).uniform_buffer_offset_alignment,
            final(self).upload_heap.capacity == old(self).upload_heap.capacity,
            final(self).upload_heap.buffer_name == old(self).upload_heap.buffer_name,
            final(self).upload_heap.locked_ranges@ == old(self).upload_heap.locked_ranges@.push(
                crate::upload_heap::LockedRange {
                    fence,
                    start: old(self).upload_heap.frame_start_cursor,
                    size: crate::upload_heap::ring_dist(
                        old(self).upload_heap.cap(),
                        old(self).upload_heap.frame_start(),
                        old(self).upload_heap.buffer_cursor as int,
                    ) as usize,
                },
            ),
            final(self).upload_heap.frame_start_cursor == old(self).upload_heap.buffer_cursor,
            // while the frame stayed within capacity, the new range
            // covers every allocation the frame received
            old(self).upload_heap.frame_travel@ < old(self).upload_heap.cap() ==> forall|i: int|
                0 <= i < old(self).upload_heap.frame_allocs@.len()
                    ==> crate::upload_heap::alloc_within_range(
                    old(self).upload_heap.cap(),
                    #[trigger] old(self).upload_heap.frame_allocs@[i],
                    final(self).upload_heap.locked_ranges@.last(),
                ),
    {
        self.upload_heap.notify_finished(fence);
        frame.reset();
    }
}

} // verus!
