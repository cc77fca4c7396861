use vstd::prelude::*;

pub mod text;
pub mod model;
pub mod number;
pub mod sparql;
pub mod percent;
pub mod transform;
pub mod format;
pub mod cards;
pub mod sort;
pub mod grouping;
pub mod archetype;
pub mod textual;
pub mod icons;
pub mod client;
pub mod error;
pub mod legacy;
pub mod data_loading;
pub mod rendering;
pub mod render;

pub use crate::render::{render_typed_item, RenderConfig, RenderFormatOptions};

verus! {

} // verus!
