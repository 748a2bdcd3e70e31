//! Heap-size estimation from a process memory-map listing.
//!
//! The listing is a multi-line text in which each line describes one virtual
//! memory mapping.  A mapping counts as "heap-like" when it is anonymous and
//! has file offset zero: its offset field is the literal `00000000`, its
//! device field is the literal `00:00` and its inode field starts with `0`.
//! The library recognizes single lines and sums the sizes of all heap-like
//! ranges of a listing; reading the listing itself is left to the caller.

pub mod aggregate;
pub mod recognizer;

pub use aggregate::sum_heap_lines;
pub use recognizer::recognize_heap;
pub use recognizer::AddressRange;
