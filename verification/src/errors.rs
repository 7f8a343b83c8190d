//! Failures of frame construction and submission.
//!
//! Every variant marks a bug in command construction or in the shader
//! interface, never a transient runtime condition; callers are expected
//! to stop loudly rather than retry.

use vstd::prelude::*;

verus! {

#[derive(Clone, Debug, PartialEq, Eq)]
pub enum RenderError {
    /// Two shader stages of one pipeline declare the named interface
    /// block with different layouts.
    IncompatibleBlock(String),
    /// Two shader stages of one pipeline bind the named image uniform
    /// to different units.
    IncompatibleImageBinding(String),
    /// A command's shader set has no pipeline registered for it.
    MissingPipeline,
    /// A shader handle has no loaded shader behind it.
    MissingShader,
    /// An image handle has no loaded image behind it.
    MissingImage,
    /// A named block binding does not occur in the command's pipeline.
    UnknownBlockBinding(String),
    /// A named image binding does not occur in the command's pipeline.
    UnknownImageBinding(String),
    /// Two render-target attachments of one pass have different sizes.
    MismatchedAttachmentSizes,
    /// An explicit block binding does not occur in the pipeline's
    /// reflected tables.
    UnreflectedBlockBinding,
    /// No sampler object was created for the sampler definition.
    MissingSampler,
    /// No framebuffer object was created for the render-target
    /// definition.
    MissingFramebuffer,
}

impl RenderError {
    /// A short fixed description of the failure class.
    pub fn describe(&self) -> (out: &'static str)
        ensures
            out@ == self.spec_describe(),
    {
        match self {
            RenderError::IncompatibleBlock(_) => "pipeline declares an interface block twice with incompatible layouts",
            RenderError::IncompatibleImageBinding(_) => "pipeline binds an image uniform twice with different units",
            RenderError::MissingPipeline => "no pipeline registered for the command's shader set",
            RenderError::MissingShader => "no shader loaded for the handle",
            RenderError::MissingImage => "no image loaded for the handle",
            RenderError::UnknownBlockBinding(_) => "named block binding not found in the pipeline",
            RenderError::UnknownImageBinding(_) => "named image binding not found in the pipeline",
            RenderError::MismatchedAttachmentSizes => "render-target attachments differ in size",
            RenderError::UnreflectedBlockBinding => "explicit block binding not reflected by the pipeline",
            RenderError::MissingSampler => "no sampler created for the definition",
            RenderError::MissingFramebuffer => "no framebuffer created for the definition",
        }
    }

    pub open spec fn spec_describe(&self) -> Seq<char> {
        match self {
            RenderError::IncompatibleBlock(_) => "pipeline declares an interface block twice with incompatible layouts"@,
            RenderError::IncompatibleImageBinding(_) => "pipeline binds an image uniform twice with different units"@,
            RenderError::MissingPipeline => "no pipeline registered for the command's shader set"@,
            RenderError::MissingShader => "no shader loaded for the handle"@,
            RenderError::MissingImage => "no image loaded for the handle"@,
            RenderError::UnknownBlockBinding(_) => "named block binding not found in the pipeline"@,
            RenderError::UnknownImageBinding(_) => "named image binding not found in the pipeline"@,
            RenderError::MismatchedAttachmentSizes => "render-target attachments differ in size"@,
            RenderError::UnreflectedBlockBinding => "explicit block binding not reflected by the pipeline"@,
            RenderError::MissingSampler => "no sampler created for the definition"@,
            RenderError::MissingFramebuffer => "no framebuffer created for the definition"@,
        }
    }
}

} // verus!
