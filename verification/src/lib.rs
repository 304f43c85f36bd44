//! Byte supplies for structured-value generators.
//!
//! A generator turns a finite region of raw bytes into structured values by
//! repeatedly asking a byte supply for more input. This crate provides the
//! contract such supplies obey ([`Unstructured`]) and two strategies over a
//! borrowed region: [`FiniteBuffer`], which runs dry, and [`RingBuffer`],
//! which cycles forever. A supply never interprets or changes the bytes; it
//! only keeps a position, a window and a size limit, described by [`Cursor`].

pub mod buffers;
pub mod model;
pub mod unstructured;

pub use crate::buffers::{BufferError, FBError, FiniteBuffer, RingBuffer};
pub use crate::model::Cursor;
pub use crate::unstructured::{arbitrary_u64, reduce_to_size, word_of, Unstructured};
