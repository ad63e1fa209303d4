//! A small todo-list library: an in-memory store of todo items with a
//! line-oriented text serialization, and the keyboard-driven selection and
//! text-entry state machine that edits it. The host around it only moves
//! bytes to and from the backing file and delivers key events.

pub mod todo;
pub mod todo_display;
pub mod todo_input;
