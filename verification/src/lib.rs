//! Tiling of images by whole repetitions, driven by a lazy cartesian product of two sequences.

pub mod canvas;
pub mod extensions;
pub mod mix;
pub mod pair_with;
pub mod product;
pub mod resize;
pub mod sequence;
pub mod size;
pub mod tiling;

pub use canvas::{Canvas, Pixel};
pub use extensions::IteratorExtensions;
pub use mix::{mix_size_hint, Mix};
pub use pair_with::PairWith;
pub use resize::{resolve_dimensions, ResizeArgs, ResizeError};
pub use sequence::{
    DoubleEndedSequence, Elements, ExactSizeSequence, Retraversable, Sequence, Span, Upward,
};
pub use size::{Size, SizeError};
pub use tiling::repeat;
