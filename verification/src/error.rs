use vstd::prelude::*;

verus! {

/// Failures of the rendering and selection pipeline.
///
/// `EmptyContent` is raised by the cropper when a bitmap holds no opaque
/// pixel, so no bounding box exists. `UnknownSpecies` and `InvalidForm` are
/// raised by the selection resolver; `InvalidForm` carries the forms that
/// would have been accepted, so the caller can report them.
#[derive(Debug)]
pub enum CoreError {
    EmptyContent,
    UnknownSpecies { name: String },
    InvalidForm { name: String, valid_forms: Vec<String> },
}

} // verus!
