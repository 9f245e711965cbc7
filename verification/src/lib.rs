//! In-memory sequence containers over uniform List / Queue / Stack interfaces.
//!
//! The centre of the crate is [`array_deque::ArrayDeque`], a dynamic array
//! backed by a circular buffer: indexed access in constant time, insertion and
//! removal at either end in amortized constant time, and insertion or removal
//! at position `i` in `O(1 + min(i, n - i))` element moves.  Around it stand
//! two simpler array-backed containers and two singly-linked lists.  Every
//! container is specified against a mathematical sequence view, and the
//! resizing policy of the array containers is stated and proved not to thrash.

pub mod array_deque;
pub mod array_queue;
pub mod array_stack;
pub mod laws;
pub mod list;
pub mod queue;
pub mod sets;
pub mod simple_sl_list;
pub mod sl_list;
mod slots;
