//! Resource tables: deduplicated, lazily created GPU objects keyed by
//! their structural definitions.
//!
//! The store owns the lookup tables; creating the GPU objects
//! themselves (compiling shaders, allocating images) is the surrounding
//! application's business, which hands the finished object in exactly
//! once per distinct definition.  Handles are plain integers equal to
//! the insertion index, so resolving one is a bounds-checked lookup.

use vstd::prelude::*;
use crate::errors::RenderError;
use crate::pipeline::{PipelineDef, PipelineObject};
use crate::resources::{
    FboDef, FboObject, ImageDef, ImageHandle, ImageObject, ImageSize, SamplerDef, SamplerObject,
    ShaderDef, ShaderHandle, ShaderObject, Vec2i,
};

verus! {

/// Shader definitions are equal when they name the same path and stage.
pub open spec fn shader_def_matches(a: ShaderDef, b: ShaderDef) -> bool {
    a.path@ == b.path@ && a.shader_type == b.shader_type
}

/// Image definitions are equal when they are structurally identical.
pub open spec fn image_def_matches(a: ImageDef, b: ImageDef) -> bool {
    match (a, b) {
        (ImageDef::Path(p1), ImageDef::Path(p2)) => p1@ == p2@,
        (
            ImageDef::Runtime { format: f1, size: s1 },
            ImageDef::Runtime { format: f2, size: s2 },
        ) => f1 == f2 && s1 == s2,
        _ => false,
    }
}

fn shader_def_eq(a: &ShaderDef, b: &ShaderDef) -> (out: bool)
    ensures
        out == shader_def_matches(*a, *b),
{
    a.path == b.path && a.shader_type == b.shader_type
}

fn image_def_eq(a: &ImageDef, b: &ImageDef) -> (out: bool)
    ensures
        out == image_def_matches(*a, *b),
{
    match (a, b) {
        (ImageDef::Path(p1), ImageDef::Path(p2)) => *p1 == *p2,
        (
            ImageDef::Runtime { format: f1, size: s1 },
            ImageDef::Runtime { format: f2, size: s2 },
        ) => f1 == f2 && s1 == s2,
        _ => false,
    }
}

/// The deduplication tables and the backbuffer-derived state.
pub struct ResourceManager {
    /// Shader definitions, entry `k` owning handle `k`.
    pub shader_defs: Vec<ShaderDef>,
    /// The compiled shader behind each handle.
    pub shader_objects: Vec<ShaderObject>,
    /// Image definitions, entry `k` owning handle `k`.
    pub image_defs: Vec<ImageDef>,
    /// The created image behind each handle.
    pub image_objects: Vec<ImageObject>,
    pub pipelines: Vec<(PipelineDef, PipelineObject)>,
    pub samplers: Vec<(SamplerDef, SamplerObject)>,
    pub fbos: Vec<(FboDef, FboObject)>,
    pub backbuffer_size: Vec2i,
    /// The default framebuffer, always bindable, sized to the backbuffer.
    pub default_fbo: FboObject,
}

impl ResourceManager {
    pub open spec fn inv(&self) -> bool {
        &&& self.shader_defs@.len() == self.shader_objects@.len()
        &&& self.image_defs@.len() == self.image_objects@.len()
        &&& self.shader_defs@.len() <= u32::MAX
        &&& self.image_defs@.len() <= u32::MAX
        &&& forall|k1: int, k2: int|
            0 <= k1 < k2 < self.shader_defs@.len() ==> !shader_def_matches(
                #[trigger] self.shader_defs@[k1],
                #[trigger] self.shader_defs@[k2],
            )
        &&& forall|k1: int, k2: int|
            0 <= k1 < k2 < self.image_defs@.len() ==> !image_def_matches(
                #[trigger] self.image_defs@[k1],
                #[trigger] self.image_defs@[k2],
            )
    }

    /// Whether a shader handle names a loaded shader.
    pub open spec fn shader_handle_valid(&self, h: ShaderHandle) -> bool {
        h.0 < self.shader_objects@.len()
    }

    /// Whether an image handle names a loaded image.
    pub open spec fn image_handle_valid(&self, h: ImageHandle) -> bool {
        h.0 < self.image_objects@.len()
    }

    pub fn new(backbuffer_size: Vec2i) -> (out: ResourceManager)
        ensures
            out.inv(),
            out.shader_objects@.len() == 0,
            out.image_objects@.len() == 0,
            out.pipelines@.len() == 0,
            out.samplers@.len() == 0,
            out.fbos@.len() == 0,
            out.backbuffer_size == backbuffer_size,
            out.default_fbo == (FboObject { name: 0u32, viewport_size: backbuffer_size }),
    {
        ResourceManager {
            shader_defs: Vec::new(),
            shader_objects: Vec::new(),
            image_defs: Vec::new(),
            image_objects: Vec::new(),
            pipelines: Vec::new(),
            samplers: Vec::new(),
            fbos: Vec::new(),
            backbuffer_size,
            default_fbo: FboObject { name: 0, viewport_size: backbuffer_size },
        }
    }

    pub fn backbuffer_size(&self) -> (out: Vec2i)
        ensures
            out == self.backbuffer_size,
    {
        self.backbuffer_size
    }

    /// Record the new backbuffer extent: the default framebuffer
    /// follows it, and every cached framebuffer object is dropped so
    /// the next lookup re-creates it against the resized attachments —
    /// a stale pre-resize viewport can never be handed out.  Recreating
    /// backbuffer-sized images and the dropped framebuffer objects is
    /// the application's GPU-side work.
    pub fn notify_size_changed(&mut self, new_size: Vec2i)
        requires
            old(self).inv(),
        ensures
            final(self).inv(),
            final(self).fbos@ == Seq::<(FboDef, FboObject)>::empty(),
            *final(self) == (ResourceManager {
                backbuffer_size: new_size,
                default_fbo: FboObject { name: old(self).default_fbo.name, viewport_size: new_size },
                fbos: final(self).fbos,
                ..*old(self)
            }),
    {
        self.backbuffer_size = new_size;
        self.default_fbo.viewport_size = new_size;
        self.fbos.clear();
    }

    /// The handle already given to a matching shader definition, if any.
    pub fn lookup_shader(&self, def: &ShaderDef) -> (out: Option<ShaderHandle>)
        requires
            self.inv(),
        ensures
            match out {
                Some(h) => h.0 < self.shader_defs@.len() && shader_def_matches(
                    self.shader_defs@[h.0 as int],
                    *def,
                ),
                None => forall|k: int|
                    0 <= k < self.shader_defs@.len() ==> !shader_def_matches(
                        #[trigger] self.shader_defs@[k],
                        *def,
                    ),
            },
    {
        let mut k: usize = 0;
        #[verifier::loop_isolation(false)]
        while k < self.shader_defs.len()
            invariant
                k <= self.shader_defs@.len(),
                forall|j: int|
                    0 <= j < k ==> !shader_def_matches(#[trigger] self.shader_defs@[j], *def),
            decreases self.shader_defs@.len() - k,
        {
            if shader_def_eq(&self.shader_defs[k], def) {
                return Some(ShaderHandle(k as u32));
            }
            k += 1;
        }
        None
    }

    /// Deduplicating load: a definition seen before keeps its handle and
    /// the store unchanged; a new one files the compiled object under
    /// the next handle.
    pub fn load_shader(&mut self, def: ShaderDef, object: ShaderObject) -> (h: ShaderHandle)
        requires
            old(self).inv(),
            old(self).shader_defs@.len() < u32::MAX,
        ensures
            final(self).inv(),
            final(self).shader_handle_valid(h),
            shader_def_matches(final(self).shader_defs@[h.0 as int], def),
            if exists|k: int|
                0 <= k < old(self).shader_defs@.len() && shader_def_matches(
                    #[trigger] old(self).shader_defs@[k],
                    def,
                ) {
                *final(self) == *old(self)
            } else {
                &&& final(self).shader_defs@ == old(self).shader_defs@.push(def)
                &&& final(self).shader_objects@ == old(self).shader_objects@.push(object)
                &&& h.0 == old(self).shader_defs@.len()
                &&& *final(self) == (ResourceManager {
                    shader_defs: final(self).shader_defs,
                    shader_objects: final(self).shader_objects,
                    ..*old(self)
                })
            },
    {
        match self.lookup_shader(&def) {
            Some(h) => h,
            None => {
                let h = ShaderHandle(self.shader_defs.len() as u32);
                self.shader_defs.push(def);
                self.shader_objects.push(object);
                h
            },
        }
    }

    /// The compiled shader behind a handle, when the handle is real.
    pub fn resolve_shader(&self, handle: ShaderHandle) -> (out: Option<&ShaderObject>)
        ensures
            match out {
                Some(o) => self.shader_handle_valid(handle) && *o == self.shader_objects@[handle.0
                    as int],
                None => !self.shader_handle_valid(handle),
            },
    {
        if (handle.0 as usize) < self.shader_objects.len() {
            Some(&self.shader_objects[handle.0 as usize])
        } else {
            None
        }
    }

    /// The handle already given to a matching image definition, if any.
    pub fn lookup_image(&self, def: &ImageDef) -> (out: Option<ImageHandle>)
        requires
            self.inv(),
        ensures
            match out {
                Some(h) => h.0 < self.image_defs@.len() && image_def_matches(
                    self.image_defs@[h.0 as int],
                    *def,
                ),
                None => forall|k: int|
                    0 <= k < self.image_defs@.len() ==> !image_def_matches(
                        #[trigger] self.image_defs@[k],
                        *def,
                    ),
            },
    {
        let mut k: usize = 0;
        #[verifier::loop_isolation(false)]
        while k < self.image_defs.len()
            invariant
                k <= self.image_defs@.len(),
                forall|j: int|
                    0 <= j < k ==> !image_def_matches(#[trigger] self.image_defs@[j], *def),
            decreases self.image_defs@.len() - k,
        {
            if image_def_eq(&self.image_defs[k], def) {
                return Some(ImageHandle(k as u32));
            }
            k += 1;
        }
        None
    }

    /// Deduplicating load, mirroring `load_shader`.
    pub fn load_image(&mut self, def: ImageDef, object: ImageObject) -> (h: ImageHandle)
        requires
            old(self).inv(),
            old(self).image_defs@.len() < u32::MAX,
        ensures
            final(self).inv(),
            final(self).image_handle_valid(h),
            image_def_matches(final(self).image_defs@[h.0 as int], def),
            if exists|k: int|
                0 <= k < old(self).image_defs@.len() && image_def_matches(
                    #[trigger] old(self).image_defs@[k],
                    def,
                ) {
                *final(self) == *old(self)
            } else {
                &&& final(self).image_defs@ == old(self).image_defs@.push(def)
                &&& final(self).image_objects@ == old(self).image_objects@.push(object)
                &&& h.0 == old(self).image_defs@.len()
                &&& *final(self) == (ResourceManager {
                    image_defs: final(self).image_defs,
                    image_objects: final(self).image_objects,
                    ..*old(self)
                })
            },
    {
        match self.lookup_image(&def) {
            Some(h) => h,
            None => {
                let h = ImageHandle(self.image_defs.len() as u32);
                self.image_defs.push(def);
                self.image_objects.push(object);
                h
            },
        }
    }

    /// The created image behind a handle, when the handle is real.
    pub fn resolve_image(&self, handle: ImageHandle) -> (out: Option<&ImageObject>)
        ensures
            match out {
                Some(o) => self.image_handle_valid(handle) && *o == self.image_objects@[handle.0
                    as int],
                None => !self.image_handle_valid(handle),
            },
    {
        if (handle.0 as usize) < self.image_objects.len() {
            Some(&self.image_objects[handle.0 as usize])
        } else {
            None
        }
    }

    /// The cached pipeline for a shader set, if one was inserted.
    pub open spec fn spec_lookup_pipeline(&self, def: PipelineDef) -> Option<PipelineObject> {
        pipeline_table_find(self.pipelines@, def)
    }

    pub fn lookup_pipeline(&self, def: &PipelineDef) -> (out: Option<&PipelineObject>)
        ensures
            match out {
                Some(po) => self.spec_lookup_pipeline(*def) == Some(*po),
                None => self.spec_lookup_pipeline(*def) is None,
            },
    {
        let ghost whole = self.pipelines@;
        let mut k: usize = 0;
        proof {
            assert(whole.skip(0) =~= whole);
        }
        #[verifier::loop_isolation(false)]
        while k < self.pipelines.len()
            invariant
                k <= whole.len(),
                pipeline_table_find(whole, *def) == pipeline_table_find(
                    whole.skip(k as int),
                    *def,
                ),
            decreases whole.len() - k,
        {
            proof {
                assert(whole.skip(k as int).first() == whole[k as int]);
                assert(whole.skip(k as int).drop_first() =~= whole.skip(k as int + 1));
            }
            if self.pipelines[k].0 == *def {
                return Some(&self.pipelines[k].1);
            }
            k += 1;
        }
        proof {
            assert(whole.skip(whole.len() as int) =~= Seq::<(PipelineDef, PipelineObject)>::empty());
        }
        None
    }

    /// File the created pipeline under its definition.
    pub fn insert_pipeline(&mut self, def: PipelineDef, object: PipelineObject)
        requires
            old(self).spec_lookup_pipeline(def) is None,
        ensures
            final(self).pipelines@ == old(self).pipelines@.push((def, object)),
            *final(self) == (ResourceManager { pipelines: final(self).pipelines, ..*old(self) }),
            final(self).spec_lookup_pipeline(def) == Some(object),
            forall|d2: PipelineDef|
                d2 != def ==> #[trigger] final(self).spec_lookup_pipeline(d2) == old(
                    self,
                ).spec_lookup_pipeline(d2),
    {
        let ghost pre = self.pipelines@;
        self.pipelines.push((def, object));
        proof {
            lemma_pipeline_table_push(pre, (def, object), def);
            assert forall|d2: PipelineDef| d2 != def implies #[trigger] pipeline_table_find(
                self.pipelines@,
                d2,
            ) == pipeline_table_find(pre, d2) by {
                lemma_pipeline_table_push(pre, (def, object), d2);
            }
        }
    }

    /// The cached sampler for a definition, if one was inserted.
    pub fn lookup_sampler(&self, def: &SamplerDef) -> (out: Option<SamplerObject>)
        ensures
            match out {
                Some(o) => exists|k: int|
                    0 <= k < self.samplers@.len() && #[trigger] self.samplers@[k] == (*def, o),
                None => forall|k: int|
                    0 <= k < self.samplers@.len() ==> (#[trigger] self.samplers@[k]).0 != *def,
            },
    {
        let mut k: usize = 0;
        #[verifier::loop_isolation(false)]
        while k < self.samplers.len()
            invariant
                k <= self.samplers@.len(),
                forall|j: int| 0 <= j < k ==> (#[trigger] self.samplers@[j]).0 != *def,
            decreases self.samplers@.len() - k,
        {
            if self.samplers[k].0 == *def {
                return Some(self.samplers[k].1);
            }
            k += 1;
        }
        None
    }

    /// File the created sampler under its definition.
    pub fn insert_sampler(&mut self, def: SamplerDef, object: SamplerObject)
        ensures
            final(self).samplers@ == old(self).samplers@.push((def, object)),
            *final(self) == (ResourceManager { samplers: final(self).samplers, ..*old(self) }),
    {
        self.samplers.push((def, object));
    }

    /// The bindable render target for a definition: the default
    /// framebuffer for the empty definition, otherwise the cached
    /// framebuffer object, if one was inserted.
    pub fn lookup_fbo(&self, def: &FboDef) -> (out: Option<FboObject>)
        ensures
            *def == FboDef::spec_empty() ==> out == Some(self.default_fbo),
            *def != FboDef::spec_empty() ==> match out {
                Some(o) => exists|k: int|
                    0 <= k < self.fbos@.len() && #[trigger] self.fbos@[k] == (*def, o),
                None => forall|k: int|
                    0 <= k < self.fbos@.len() ==> (#[trigger] self.fbos@[k]).0 != *def,
            },
    {
        if *def == FboDef::default() {
            return Some(self.default_fbo);
        }
        let mut k: usize = 0;
        #[verifier::loop_isolation(false)]
        while k < self.fbos.len()
            invariant
                k <= self.fbos@.len(),
                forall|j: int| 0 <= j < k ==> (#[trigger] self.fbos@[j]).0 != *def,
            decreases self.fbos@.len() - k,
        {
            if self.fbos[k].0 == *def {
                return Some(self.fbos[k].1);
            }
            k += 1;
        }
        None
    }

    /// File the created framebuffer object under its definition.
    pub fn insert_fbo(&mut self, def: FboDef, object: FboObject)
        ensures
            final(self).fbos@ == old(self).fbos@.push((def, object)),
            *final(self) == (ResourceManager { fbos: final(self).fbos, ..*old(self) }),
    {
        self.fbos.push((def, object));
    }

    /// The viewport of a render-target definition: every attachment
    /// present must name a loaded image and all of them must agree on
    /// one size, which is resolved against the backbuffer; with no
    /// attachments the viewport is empty.
    pub fn fbo_viewport_size(&self, def: &FboDef) -> (out: Result<Vec2i, RenderError>)
        ensures
            match out {
                Ok(v) => {
                    &&& self.fbo_attachments_valid(*def)
                    &&& self.fbo_sizes_agree(*def)
                    &&& v == self.spec_fbo_viewport(*def)
                },
                Err(e) => {
                    &&& (e is MissingImage || e is MismatchedAttachmentSizes)
                    &&& (e is MissingImage ==> !self.fbo_attachments_valid(*def))
                    &&& (e is MismatchedAttachmentSizes ==> !self.fbo_sizes_agree(*def))
                },
            },
    {
        let mut common: Option<ImageSize> = None;
        let mut slot: usize = 0;
        #[verifier::loop_isolation(false)]
        while slot < 5
            invariant
                slot <= 5,
                forall|j: int|
                    0 <= j < slot ==> match #[trigger] self.spec_fbo_attachment(*def, j) {
                        Some(h) => self.image_handle_valid(h),
                        None => true,
                    },
                common == self.spec_common_size_upto(*def, slot as int),
                match common {
                    Some(sz) => forall|j: int|
                        0 <= j < slot ==> match #[trigger] self.spec_fbo_attachment(*def, j) {
                            Some(h) => self.image_objects@[h.0 as int].size == sz,
                            None => true,
                        },
                    None => forall|j: int|
                        0 <= j < slot ==> (#[trigger] self.spec_fbo_attachment(*def, j)) is None,
                },
            decreases 5 - slot,
        {
            match self.fbo_attachment(def, slot) {
                Some(handle) => {
                    match self.resolve_image(handle) {
                        Some(image) => {
                            match common {
                                Some(size) => {
                                    if size != image.size {
                                        proof {
                                            lemma_common_size_present(self, *def, slot as int);
                                            let j = choose|j: int|
                                                0 <= j < slot && (#[trigger] self
                                                    .spec_fbo_attachment(*def, j)) is Some;
                                            assert(!self.fbo_sizes_agree(*def)) by {
                                                assert(self.spec_fbo_attachment(*def, j)
                                                    is Some);
                                                assert(self.spec_fbo_attachment(
                                                    *def,
                                                    slot as int,
                                                ) is Some);
                                            }
                                        }
                                        return Err(RenderError::MismatchedAttachmentSizes);
                                    }
                                },
                                None => {
                                    common = Some(image.size);
                                },
                            }
                        },
                        None => {
                            return Err(RenderError::MissingImage);
                        },
                    }
                },
                None => {},
            }
            slot += 1;
        }
        let out = match common {
            Some(size) => size.resolve(self.backbuffer_size),
            None => Vec2i { x: 0, y: 0 },
        };
        proof {
            assert(self.fbo_sizes_agree(*def)) by {
                if common is Some {
                } else {
                }
            }
        }
        Ok(out)
    }

    /// The attachment recorded in a numbered slot of the definition.
    pub open spec fn spec_fbo_attachment(&self, def: FboDef, slot: int) -> Option<ImageHandle> {
        if slot == 0 {
            def.color_attachment_0
        } else if slot == 1 {
            def.color_attachment_1
        } else if slot == 2 {
            def.color_attachment_2
        } else if slot == 3 {
            def.color_attachment_3
        } else {
            def.depth_stencil_attachment
        }
    }

    fn fbo_attachment(&self, def: &FboDef, slot: usize) -> (out: Option<ImageHandle>)
        requires
            slot < 5,
        ensures
            out == self.spec_fbo_attachment(*def, slot as int),
    {
        if slot == 0 {
            def.color_attachment_0
        } else if slot == 1 {
            def.color_attachment_1
        } else if slot == 2 {
            def.color_attachment_2
        } else if slot == 3 {
            def.color_attachment_3
        } else {
            def.depth_stencil_attachment
        }
    }

    /// Every attachment present names a loaded image.
    pub open spec fn fbo_attachments_valid(&self, def: FboDef) -> bool {
        forall|j: int|
            0 <= j < 5 ==> match #[trigger] self.spec_fbo_attachment(def, j) {
                Some(h) => self.image_handle_valid(h),
                None => true,
            }
    }

    /// The common size of the first `upto` attachment slots, when the
    /// present ones agree.
    pub open spec fn spec_common_size_upto(&self, def: FboDef, upto: int) -> Option<ImageSize>
        decreases upto,
    {
        if upto <= 0 {
            None
        } else {
            let rest = self.spec_common_size_upto(def, upto - 1);
            match self.spec_fbo_attachment(def, upto - 1) {
                Some(h) => if rest is None {
                    Some(self.image_objects@[h.0 as int].size)
                } else {
                    rest
                },
                None => rest,
            }
        }
    }

    /// All attachments present agree on one image size.
    pub open spec fn fbo_sizes_agree(&self, def: FboDef) -> bool {
        forall|j1: int, j2: int|
            0 <= j1 < 5 && 0 <= j2 < 5 ==> match (
                #[trigger] self.spec_fbo_attachment(def, j1),
                #[trigger] self.spec_fbo_attachment(def, j2),
            ) {
                (Some(h1), Some(h2)) => self.image_handle_valid(h1) && self.image_handle_valid(h2)
                    ==> self.image_objects@[h1.0 as int].size == self.image_objects@[h2.0
                    as int].size,
                _ => true,
            }
    }

    /// The viewport a valid, agreeing definition resolves to.
    pub open spec fn spec_fbo_viewport(&self, def: FboDef) -> Vec2i {
        match self.spec_common_size_upto(def, 5) {
            Some(size) => match size {
                ImageSize::Fixed(v) => v,
                ImageSize::Backbuffer => self.backbuffer_size,
            },
            None => Vec2i { x: 0, y: 0 },
        }
    }
}

/// A common size exists only when some attachment is present.
proof fn lemma_common_size_present(store: &ResourceManager, def: FboDef, upto: int)
    requires
        store.spec_common_size_upto(def, upto) is Some,
    ensures
        exists|j: int| 0 <= j < upto && (#[trigger] store.spec_fbo_attachment(def, j)) is Some,
    decreases upto,
{
    if upto > 0 {
        if store.spec_fbo_attachment(def, upto - 1) is Some {
            assert(store.spec_fbo_attachment(def, upto - 1) is Some);
        } else {
            lemma_common_size_present(store, def, upto - 1);
        }
    }
}

/// First pipeline recorded under a definition.
pub open spec fn pipeline_table_find(
    table: Seq<(PipelineDef, PipelineObject)>,
    def: PipelineDef,
) -> Option<PipelineObject>
    decreases table.len(),
{
    if table.len() == 0 {
        None
    } else if table.first().0 == def {
        Some(table.first().1)
    } else {
        pipeline_table_find(table.drop_first(), def)
    }
}

/// Appending a pipeline changes no earlier lookup and serves the new
/// definition when it was absent.
proof fn lemma_pipeline_table_push(
    table: Seq<(PipelineDef, PipelineObject)>,
    e: (PipelineDef, PipelineObject),
    def: PipelineDef,
)
    ensures
        pipeline_table_find(table, def) is Some ==> pipeline_table_find(table.push(e), def)
            == pipeline_table_find(table, def),
        pipeline_table_find(table, def) is None && e.0 == def ==> pipeline_table_find(
            table.push(e),
            def,
        ) == Some(e.1),
        pipeline_table_find(table, def) is None && e.0 != def ==> pipeline_table_find(
            table.push(e),
            def,
        ) is None,
    decreases table.len(),
{
    if table.len() == 0 {
        assert(table.push(e).first() == e);
        assert(table.push(e).drop_first() =~= Seq::<(PipelineDef, PipelineObject)>::empty());
        assert(pipeline_table_find(Seq::<(PipelineDef, PipelineObject)>::empty(), def) is None);
    } else {
        assert(table.push(e).first() == table.first());
        assert(table.push(e).drop_first() =~= table.drop_first().push(e));
        lemma_pipeline_table_push(table.drop_first(), e, def);
    }
}

} // verus!
