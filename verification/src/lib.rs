//! Address-stable segmented storage and a borrow stack built on it.
//!
//! - [`pow_of_2`]: integers that can only be powers of two, held as
//!   exponents.
//! - [`pinvec`]: a fixed-capacity buffer, and a growable vector made of
//!   such buffers, each twice as large as the one before. An element never
//!   leaves the segment and offset it was put at, so it is never moved.
//! - [`stack`]: a stack of frames on top of that vector. Frames rest in a
//!   storage form; only the top frame is handed out live, and new frames
//!   can be derived from it.

pub mod pinvec;
pub mod pow_of_2;
pub mod stack;
