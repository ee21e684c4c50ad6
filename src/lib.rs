//! Singly linked lists under different ownership strategies.
//!
//! [`LinkedList`] is a minimal head-only list. The `linear` module holds the
//! full lists: an exclusive chain of boxes, a list that takes values by
//! reference and stores clones, and a slot arena that links nodes by index.
//! `render` gives the text form of lists of integers.
pub mod linear;
mod linked_list;
pub mod render;

pub use linked_list::{LinkedList, Node};
