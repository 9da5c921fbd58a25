//! Linked-list containers with different ownership strategies for their links.
//!
//! - [`first`]: a stack of `i32` whose nodes own their successor.
//! - [`second`]: the same stack, generic, with borrowing, mutable and consuming iteration.
//! - [`third`]: a persistent list whose immutable nodes are shared by reference counting.
//! - [`fourth`]: a deque with links in both directions, stored in an arena of slots.

pub mod first;
pub mod second;
pub mod third;
pub mod fourth;
pub mod laws;
