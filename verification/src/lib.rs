//! System call layer of a small kernel: the decisions that each call takes,
//! stated as contracts over plain values.
//!
//! A call that only touches the kernel's own tables is one function. A call that
//! also needs a device, the scheduler or the disk returns a [`step::Step`]: what
//! to perform, and how the call ends. Sleeping needs two things done in turn and
//! returns a [`sync::InTurn`].
pub mod banker;
pub mod banker_laws;
pub mod books_laws;
pub mod fs;
pub mod fs_laws;
pub mod matrix;
pub mod mm;
pub mod process;
pub mod process_laws;
pub mod slots;
pub mod step;
pub mod sync;
pub mod sync_laws;
