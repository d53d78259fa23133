use vstd::prelude::*;

pub mod text;
pub mod ini;
pub mod color;
pub mod raster;
pub mod dib;
pub mod settings;
pub mod persistence;
pub mod capture;
pub mod overlay;
pub mod editor;
pub mod annotation;
pub mod hotkeys;

verus! {
} // verus!
