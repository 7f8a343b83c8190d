//! Pipelines: shader sets and their composite binding tables.
//!
//! A pipeline is keyed by the set of shaders it runs; its object merges
//! the binding tables reflected from every stage.  Two stages that
//! declare the same interface block or image uniform must agree on it,
//! otherwise building the pipeline fails loudly rather than silently
//! picking one of the declarations.

use vstd::prelude::*;
use crate::errors::RenderError;
use crate::resources::{
    BlockBindingLocation, BlockDescription, ShaderHandle, ShaderObject, assoc_find, find_block,
    find_image_binding,
};

verus! {

/// The set of shader stages a pipeline runs, also its cache key.
#[derive(Copy, Clone, Debug, Hash, PartialEq, Eq, Structural)]
pub struct PipelineDef {
    pub vertex: Option<ShaderHandle>,
    pub fragment: Option<ShaderHandle>,
    pub compute: Option<ShaderHandle>,
}

impl PipelineDef {
    /// A definition with no stages.
    pub open spec fn spec_empty() -> PipelineDef {
        PipelineDef { vertex: None, fragment: None, compute: None }
    }
}

impl Default for PipelineDef {
    fn default() -> (d: PipelineDef)
        ensures
            d == PipelineDef::spec_empty(),
    {
        PipelineDef { vertex: None, fragment: None, compute: None }
    }
}

/// The created pipeline and the binding tables merged from its stages.
#[derive(Clone, Debug)]
pub struct PipelineObject {
    pub name: u32,
    pub composite_blocks: Vec<(String, BlockDescription)>,
    pub composite_image_bindings: Vec<(String, u32)>,
}

impl PipelineObject {
    /// The interface block reflected under the given name, if any.
    pub fn block_by_name<'a>(&'a self, name: &String) -> (out: Option<&'a BlockDescription>)
        ensures
            match out {
                Some(b) => assoc_find(self.composite_blocks@, name@) == Some(*b),
                None => assoc_find(self.composite_blocks@, name@) is None,
            },
    {
        find_block(&self.composite_blocks, name)
    }

    /// The first interface block reflected at the given location, if
    /// any block binds there.
    pub fn block_by_binding_location<'a>(&'a self, loc: BlockBindingLocation) -> (out: Option<
        &'a BlockDescription,
    >)
        ensures
            match out {
                Some(b) => find_by_location(self.composite_blocks@, loc) == Some(*b),
                None => find_by_location(self.composite_blocks@, loc) is None,
            },
    {
        let ghost whole = self.composite_blocks@;
        let mut i: usize = 0;
        proof {
            assert(whole.skip(0) =~= whole);
        }
        #[verifier::loop_isolation(false)]
        while i < self.composite_blocks.len()
            invariant
                i <= whole.len(),
                find_by_location(whole, loc) == find_by_location(whole.skip(i as int), loc),
            decreases whole.len() - i,
        {
            proof {
                assert(whole.skip(i as int).first() == whole[i as int]);
                assert(whole.skip(i as int).drop_first() =~= whole.skip(i as int + 1));
            }
            if self.composite_blocks[i].1.binding_location == loc {
                return Some(&self.composite_blocks[i].1);
            }
            i += 1;
        }
        proof {
            assert(whole.skip(whole.len() as int) =~= Seq::<(String, BlockDescription)>::empty());
        }
        None
    }

    /// The image unit reflected under the given uniform name, if any.
    pub fn image_binding_by_name(&self, name: &String) -> (out: Option<u32>)
        ensures
            out == assoc_find(self.composite_image_bindings@, name@),
    {
        find_image_binding(&self.composite_image_bindings, name)
    }
}

/// First block recorded at a binding location.
pub open spec fn find_by_location(
    entries: Seq<(String, BlockDescription)>,
    loc: BlockBindingLocation,
) -> Option<BlockDescription>
    decreases entries.len(),
{
    if entries.len() == 0 {
        None
    } else if entries.first().1.binding_location == loc {
        Some(entries.first().1)
    } else {
        find_by_location(entries.drop_first(), loc)
    }
}

/// Appending an entry to an association list changes no earlier lookup
/// and serves lookups of the new name that previously found nothing.
pub proof fn lemma_assoc_find_push<T>(entries: Seq<(String, T)>, e: (String, T), name: Seq<char>)
    ensures
        assoc_find(entries, name) is Some ==> assoc_find(entries.push(e), name) == assoc_find(
            entries,
            name,
        ),
        assoc_find(entries, name) is None && e.0@ == name ==> assoc_find(entries.push(e), name)
            == Some(e.1),
        assoc_find(entries, name) is None && e.0@ != name ==> assoc_find(entries.push(e), name)
            is None,
    decreases entries.len(),
{
    if entries.len() == 0 {
        assert(entries.push(e).first() == e);
        assert(entries.push(e).drop_first() =~= Seq::<(String, T)>::empty());
        assert(assoc_find(Seq::<(String, T)>::empty(), name) is None);
    } else {
        assert(entries.push(e).first() == entries.first());
        assert(entries.push(e).drop_first() =~= entries.drop_first().push(e));
        lemma_assoc_find_push(entries.drop_first(), e, name);
    }
}

/// A name that a lookup misses occurs nowhere in the list.
pub proof fn lemma_assoc_find_none<T>(entries: Seq<(String, T)>, name: Seq<char>)
    requires
        assoc_find(entries, name) is None,
    ensures
        forall|k: int| 0 <= k < entries.len() ==> (#[trigger] entries[k]).0@ != name,
    decreases entries.len(),
{
    if entries.len() > 0 {
        lemma_assoc_find_none(entries.drop_first(), name);
        assert forall|k: int| 0 <= k < entries.len() implies (#[trigger] entries[k]).0@
            != name by {
            if k > 0 {
                assert(entries.drop_first()[k - 1] == entries[k]);
            }
        }
    }
}

/// A successful lookup names a real entry of the list.
pub proof fn lemma_assoc_find_some_entry<T>(entries: Seq<(String, T)>, name: Seq<char>)
    requires
        assoc_find(entries, name) is Some,
    ensures
        exists|k: int|
            0 <= k < entries.len() && (#[trigger] entries[k]).0@ == name && Some(entries[k].1)
                == assoc_find(entries, name),
    decreases entries.len(),
{
    if entries.len() > 0 {
        if entries.first().0@ == name {
            assert(entries[0].0@ == name && Some(entries[0].1) == assoc_find(entries, name));
        } else {
            lemma_assoc_find_some_entry(entries.drop_first(), name);
            let k = choose|k: int|
                0 <= k < entries.drop_first().len() && (#[trigger] entries.drop_first()[k]).0@
                    == name && Some(entries.drop_first()[k].1) == assoc_find(
                    entries.drop_first(),
                    name,
                );
            assert(entries[k + 1].0@ == name && Some(entries[k + 1].1) == assoc_find(
                entries,
                name,
            ));
        }
    }
}

/// Two stages of the set declare an interface block of this name with
/// different descriptions.
pub open spec fn blocks_conflict_at(stages: Seq<ShaderObject>, name: Seq<char>) -> bool {
    exists|i: int, j: int, k: int, l: int|
        #![trigger stages[i].blocks@[j], stages[k].blocks@[l]]
        0 <= i < stages.len() && 0 <= j < stages[i].blocks@.len() && 0 <= k < stages.len() && 0 <= l
            < stages[k].blocks@.len() && stages[i].blocks@[j].0@ == name
            && stages[k].blocks@[l].0@ == name && stages[i].blocks@[j].1 != stages[k].blocks@[l].1
}

/// Two stages of the set bind an image uniform of this name to
/// different units.
pub open spec fn images_conflict_at(stages: Seq<ShaderObject>, name: Seq<char>) -> bool {
    exists|i: int, j: int, k: int, l: int|
        #![trigger stages[i].image_bindings@[j], stages[k].image_bindings@[l]]
        0 <= i < stages.len() && 0 <= j < stages[i].image_bindings@.len() && 0 <= k < stages.len()
            && 0 <= l < stages[k].image_bindings@.len() && stages[i].image_bindings@[j].0@ == name
            && stages[k].image_bindings@[l].0@ == name && stages[i].image_bindings@[j].1
            != stages[k].image_bindings@[l].1
}

/// Every block table entry at `k` originates from the stage entry named
/// by `origin[k]`, with stage indexes below `stage_bound`.
pub open spec fn blocks_from_stages(
    table: Seq<(String, BlockDescription)>,
    origin: Seq<(int, int)>,
    stages: Seq<ShaderObject>,
    stage_bound: int,
) -> bool {
    &&& origin.len() == table.len()
    &&& forall|k: int|
        0 <= k < table.len() ==> {
            let oi = (#[trigger] origin[k]).0;
            let oj = origin[k].1;
            &&& 0 <= oi < stage_bound
            &&& 0 <= oj < stages[oi].blocks@.len()
            &&& stages[oi].blocks@[oj].0@ == table[k].0@
            &&& stages[oi].blocks@[oj].1 == table[k].1
        }
}

/// Every image table entry at `k` originates from the stage entry named
/// by `origin[k]`, with stage indexes below `stage_bound`.
pub open spec fn images_from_stages(
    table: Seq<(String, u32)>,
    origin: Seq<(int, int)>,
    stages: Seq<ShaderObject>,
    stage_bound: int,
) -> bool {
    &&& origin.len() == table.len()
    &&& forall|k: int|
        0 <= k < table.len() ==> {
            let oi = (#[trigger] origin[k]).0;
            let oj = origin[k].1;
            &&& 0 <= oi < stage_bound
            &&& 0 <= oj < stages[oi].image_bindings@.len()
            &&& stages[oi].image_bindings@[oj].0@ == table[k].0@
            &&& stages[oi].image_bindings@[oj].1 == table[k].1
        }
}

/// Merge the binding tables of the given stages into one pipeline
/// object named `pipeline_name`.  Succeeds exactly when no two stages
/// disagree on a block or an image binding; the error names the
/// offending binding, so a conflict can never be silently resolved.
pub fn create_pipeline(pipeline_name: u32, stages: &Vec<ShaderObject>) -> (out: Result<
    PipelineObject,
    RenderError,
>)
    ensures
        match out {
            Ok(po) => {
                &&& po.name == pipeline_name
                // every block any stage declares is found under its name,
                // with that stage's own description ...
                &&& forall|i: int, j: int|
                    0 <= i < stages@.len() && 0 <= j < stages@[i].blocks@.len() ==> assoc_find(
                        po.composite_blocks@,
                        (#[trigger] stages@[i].blocks@[j]).0@,
                    ) == Some(stages@[i].blocks@[j].1)
                // ... likewise for image bindings ...
                &&& forall|i: int, j: int|
                    0 <= i < stages@.len() && 0 <= j < stages@[i].image_bindings@.len()
                        ==> assoc_find(
                        po.composite_image_bindings@,
                        (#[trigger] stages@[i].image_bindings@[j]).0@,
                    ) == Some(stages@[i].image_bindings@[j].1)
                // ... the tables hold nothing the stages did not declare ...
                &&& exists|origin: Seq<(int, int)>|
                    blocks_from_stages(
                        po.composite_blocks@,
                        origin,
                        stages@,
                        stages@.len() as int,
                    )
                &&& exists|origin: Seq<(int, int)>|
                    images_from_stages(
                        po.composite_image_bindings@,
                        origin,
                        stages@,
                        stages@.len() as int,
                    )
                // ... and each name occurs at most once.
                &&& forall|k1: int, k2: int|
                    0 <= k1 < k2 < po.composite_blocks@.len()
                        ==> (#[trigger] po.composite_blocks@[k1]).0@
                        != (#[trigger] po.composite_blocks@[k2]).0@
                &&& forall|k1: int, k2: int|
                    0 <= k1 < k2 < po.composite_image_bindings@.len()
                        ==> (#[trigger] po.composite_image_bindings@[k1]).0@
                        != (#[trigger] po.composite_image_bindings@[k2]).0@
            },
            Err(e) => match e {
                RenderError::IncompatibleBlock(n) => blocks_conflict_at(stages@, n@),
                RenderError::IncompatibleImageBinding(n) => images_conflict_at(stages@, n@),
                _ => false,
            },
        },
{
    let mut composite_blocks: Vec<(String, BlockDescription)> = Vec::new();
    let mut composite_image_bindings: Vec<(String, u32)> = Vec::new();
    let ghost mut blocks_origin: Seq<(int, int)> = Seq::empty();
    let ghost mut images_origin: Seq<(int, int)> = Seq::empty();

    let mut s: usize = 0;
    #[verifier::loop_isolation(false)]
    while s < stages.len()
        invariant
            s <= stages@.len(),
            forall|i: int, j: int|
                0 <= i < s && 0 <= j < stages@[i].blocks@.len() ==> assoc_find(
                    composite_blocks@,
                    (#[trigger] stages@[i].blocks@[j]).0@,
                ) == Some(stages@[i].blocks@[j].1),
            forall|i: int, j: int|
                0 <= i < s && 0 <= j < stages@[i].image_bindings@.len() ==> assoc_find(
                    composite_image_bindings@,
                    (#[trigger] stages@[i].image_bindings@[j]).0@,
                ) == Some(stages@[i].image_bindings@[j].1),
            blocks_from_stages(composite_blocks@, blocks_origin, stages@, s as int),
            images_from_stages(composite_image_bindings@, images_origin, stages@, s as int),
            forall|k1: int, k2: int|
                0 <= k1 < k2 < composite_blocks@.len() ==> (#[trigger] composite_blocks@[k1]).0@
                    != (#[trigger] composite_blocks@[k2]).0@,
            forall|k1: int, k2: int|
                0 <= k1 < k2 < composite_image_bindings@.len()
                    ==> (#[trigger] composite_image_bindings@[k1]).0@
                    != (#[trigger] composite_image_bindings@[k2]).0@,
        decreases stages@.len() - s,
    {
        let stage = &stages[s];

        let mut e: usize = 0;
        #[verifier::loop_isolation(false)]
        while e < stage.blocks.len()
            invariant
                e <= stage.blocks@.len(),
                forall|i: int, j: int|
                    0 <= i < s && 0 <= j < stages@[i].blocks@.len() ==> assoc_find(
                        composite_blocks@,
                        (#[trigger] stages@[i].blocks@[j]).0@,
                    ) == Some(stages@[i].blocks@[j].1),
                forall|j: int|
                    0 <= j < e ==> assoc_find(composite_blocks@, (#[trigger] stage.blocks@[j]).0@)
                        == Some(stage.blocks@[j].1),
                blocks_from_stages(composite_blocks@, blocks_origin, stages@, s as int + 1),
                forall|k1: int, k2: int|
                    0 <= k1 < k2 < composite_blocks@.len()
                        ==> (#[trigger] composite_blocks@[k1]).0@
                        != (#[trigger] composite_blocks@[k2]).0@,
            decreases stage.blocks@.len() - e,
        {
            let entry_name = &stage.blocks[e].0;
            let entry_desc = stage.blocks[e].1;
            match find_block(&composite_blocks, entry_name) {
                Some(existing) => {
                    if *existing != entry_desc {
                        proof {
                            lemma_assoc_find_some_entry(composite_blocks@, entry_name@);
                            let k = choose|k: int|
                                0 <= k < composite_blocks@.len()
                                    && (#[trigger] composite_blocks@[k]).0@ == entry_name@ && Some(
                                    composite_blocks@[k].1,
                                ) == assoc_find(composite_blocks@, entry_name@);
                            let oi = blocks_origin[k].0;
                            let oj = blocks_origin[k].1;
                            assert(stages@[oi].blocks@[oj].0@ == entry_name@);
                            assert(stages@[s as int].blocks@[e as int].0@ == entry_name@);
                            assert(stages@[oi].blocks@[oj].1 != stages@[s as int].blocks@[
                                e as int].1);
                            assert(blocks_conflict_at(stages@, entry_name@));
                        }
                        return Err(RenderError::IncompatibleBlock(entry_name.clone()));
                    }
                },
                None => {
                    proof {
                        lemma_assoc_find_none(composite_blocks@, entry_name@);
                    }
                    let ghost pre_blocks = composite_blocks@;
                    let cloned = entry_name.clone();
                    composite_blocks.push((cloned, entry_desc));
                    proof {
                        blocks_origin = blocks_origin.push((s as int, e as int));
                        assert(cloned@ == entry_name@);
                        assert forall|name: Seq<char>|
                            assoc_find(pre_blocks, name) is Some implies assoc_find(
                            composite_blocks@,
                            name,
                        ) == assoc_find(pre_blocks, name) by {
                            lemma_assoc_find_push(pre_blocks, (cloned, entry_desc), name);
                        }
                        lemma_assoc_find_push(pre_blocks, (cloned, entry_desc), entry_name@);
                        assert(assoc_find(composite_blocks@, entry_name@) == Some(entry_desc));
                    }
                },
            }
            e += 1;
        }

        let mut e: usize = 0;
        #[verifier::loop_isolation(false)]
        while e < stage.image_bindings.len()
            invariant
                e <= stage.image_bindings@.len(),
                forall|i: int, j: int|
                    0 <= i < s && 0 <= j < stages@[i].image_bindings@.len() ==> assoc_find(
                        composite_image_bindings@,
                        (#[trigger] stages@[i].image_bindings@[j]).0@,
                    ) == Some(stages@[i].image_bindings@[j].1),
                forall|j: int|
                    0 <= j < e ==> assoc_find(
                        composite_image_bindings@,
                        (#[trigger] stage.image_bindings@[j]).0@,
                    ) == Some(stage.image_bindings@[j].1),
                images_from_stages(
                    composite_image_bindings@,
                    images_origin,
                    stages@,
                    s as int + 1,
                ),
                forall|k1: int, k2: int|
                    0 <= k1 < k2 < composite_image_bindings@.len()
                        ==> (#[trigger] composite_image_bindings@[k1]).0@
                        != (#[trigger] composite_image_bindings@[k2]).0@,
            decreases stage.image_bindings@.len() - e,
        {
            let entry_name = &stage.image_bindings[e].0;
            let entry_unit = stage.image_bindings[e].1;
            match find_image_binding(&composite_image_bindings, entry_name) {
                Some(existing) => {
                    if existing != entry_unit {
                        proof {
                            lemma_assoc_find_some_entry(composite_image_bindings@, entry_name@);
                            let k = choose|k: int|
                                0 <= k < composite_image_bindings@.len()
                                    && (#[trigger] composite_image_bindings@[k]).0@ == entry_name@
                                    && Some(composite_image_bindings@[k].1) == assoc_find(
                                    composite_image_bindings@,
                                    entry_name@,
                                );
                            let oi = images_origin[k].0;
                            let oj = images_origin[k].1;
                            assert(stages@[oi].image_bindings@[oj].0@ == entry_name@);
                            assert(stages@[s as int].image_bindings@[e as int].0@ == entry_name@);
                            assert(stages@[oi].image_bindings@[oj].1 != stages@[s as int]
                                .image_bindings@[e as int].1);
                            assert(images_conflict_at(stages@, entry_name@));
                        }
                        return Err(RenderError::IncompatibleImageBinding(entry_name.clone()));
                    }
                },
                None => {
                    proof {
                        lemma_assoc_find_none(composite_image_bindings@, entry_name@);
                    }
                    let ghost pre_bindings = composite_image_bindings@;
                    let cloned = entry_name.clone();
                    composite_image_bindings.push((cloned, entry_unit));
                    proof {
                        images_origin = images_origin.push((s as int, e as int));
                        assert(cloned@ == entry_name@);
                        assert forall|name: Seq<char>|
                            assoc_find(pre_bindings, name) is Some implies assoc_find(
                            composite_image_bindings@,
                            name,
                        ) == assoc_find(pre_bindings, name) by {
                            lemma_assoc_find_push(pre_bindings, (cloned, entry_unit), name);
                        }
                        lemma_assoc_find_push(pre_bindings, (cloned, entry_unit), entry_name@);
                        assert(assoc_find(composite_image_bindings@, entry_name@) == Some(
                            entry_unit,
                        ));
                    }
                },
            }
            e += 1;
        }

        s += 1;
    }

    Ok(PipelineObject { name: pipeline_name, composite_blocks, composite_image_bindings })
}

} // verus!
