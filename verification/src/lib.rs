//! An ordered collection of named elements, addressable by name or by position.
//!
//! [`NamedVec`] keeps its elements in insertion order and maintains an index
//! from each element's name to its current position. Every operation states,
//! over the sequence of elements, what it returns and how it changes the
//! collection, and preserves the agreement between sequence and index.
//!
//! * [`element`]: the [`Named`] capability and what it means for names to be
//!   stable.
//! * [`lookup`]: [`Lookup`], a reference to an element by name or position.
//! * [`model`]: the operations as functions on sequences.
//! * [`container`]: [`NamedVec`] and its operations.
//! * [`index`]: subscripts and slices.
//! * [`iter`]: [`NamedVecIter`], the consuming traversal.
//! * [`laws`]: what holds of the operations taken together.

pub mod element;
pub mod lookup;
pub mod model;
pub mod container;
pub mod index;
pub mod iter;
pub mod laws;
mod storage;

pub use crate::element::Named;
pub use crate::lookup::{IntoLookup, Lookup};
pub use crate::container::NamedVec;
pub use crate::iter::NamedVecIter;
