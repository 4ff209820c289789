//! A growable vector-like structure that never moves its contents.

/// Fixed-capacity buffer.
pub mod buf;
/// Segment layout and index resolution.
pub mod slots;
/// Growable vector made of fixed-capacity segments.
pub mod vec;
