//! Treats rectangular, row-major collections of elements as matrices.
//!
//! A type that tells its number of rows and columns and gives access to the element at a
//! coordinate ([`MatrixExt`]) is a matrix. Access strategies present another matrix over it
//! without copying anything (transposed, rotated, flipped, shifted, cut out, reshaped or
//! remapped), and transform strategies realize the same rearrangements on an owned matrix,
//! permuting its elements in place where they can.
pub mod access;
pub mod iterators;
pub mod laws;
pub mod matrix;
pub mod req;
pub mod set;
pub mod strategies;
pub mod transforms;
pub mod view;

pub use access::{Access, AccessMut, Observer};
pub use iterators::{Axes, AxesMut, Axis, AxisMut, Enumerator, EnumeratorMut, IntoAxes, Lines};
pub use matrix::{Matrix, MatrixExt, MatrixMut, MatrixMutExt};
pub use req::{AccessStrategy, InPlace, MatrixExtFromIter, SwapsDimensions, TransformStrategy};
pub use set::{AccessStrategySet, ShapeStrategy};
pub use strategies::{
    AccessMap, Bound, FlipH, FlipV, Identity, Reshape, Reverse, RotateL, RotateR, ShiftBack,
    ShiftFront, Span, Submatrix, Transpose,
};
pub use transforms::SortBy;
pub use view::MatrixView;
