use vstd::prelude::*;

use crate::raster::{RgbaImage, ImageOpError, decode_image, decoded_rgba8};

verus! {

/// Why a layer could not be drawn onto its background.
#[derive(Clone, Copy, Debug, PartialEq, Eq)]
pub enum FlattenError {
    /// The background is not an image that can be read.
    Background,
    /// Drawing annotations is not available yet.
    NotImplemented,
}

/// The annotations drawn over a capture, in drawing order, and the one selected.
/// The annotation type `A` is the caller's.
pub struct AnnotationLayer<A> {
    pub annotations: Vec<A>,
    pub selected: Option<usize>,
}

impl<A> AnnotationLayer<A> {
    /// A layer with no annotations and nothing selected.
    pub fn new() -> (r: Self)
        ensures
            r.annotations@ == Seq::<A>::empty(),
            r.selected is None,
    {
        AnnotationLayer { annotations: Vec::new(), selected: None }
    }

    /// Adds an annotation on top of the others.
    pub fn add_annotation(&mut self, annotation: A)
        ensures
            final(self).annotations@ == old(self).annotations@.push(annotation),
            final(self).selected == old(self).selected,
    {
        self.annotations.push(annotation);
    }

    /// Draws the layer onto the background image file held in `background`, whose
    /// name has the extension `extension` (empty for none). The background is read
    /// first; drawing is not available yet, so a readable background gives
    /// `NotImplemented`.
    pub fn flatten_to_image(&self, background: &[u8], extension: &str) -> (r: Result<RgbaImage, FlattenError>)
        ensures
            r == Err::<RgbaImage, FlattenError>(
                if decoded_rgba8(extension@, background@) is None {
                    FlattenError::Background
                } else {
                    FlattenError::NotImplemented
                },
            ),
    {
        match decode_image(background, extension) {
            Ok(_img) => Err(FlattenError::NotImplemented),
            Err(_) => Err(FlattenError::Background),
        }
    }
}

} // verus!
