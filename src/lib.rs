//! A serial console core for a bare-metal target: a fixed-capacity vector
//! over borrowed storage, the command parser and line-editing shell built on
//! it, and the decisions of the mini UART driver's polling loops.

pub mod command;
pub mod shell;
pub mod stack_vec;
pub mod uart;

pub use command::{Command, Error};
pub use shell::{shell, KeyAction, LineEditor, Reply, Session};
pub use stack_vec::StackVec;
pub use uart::{crlf, read_more, wait_step, Wait};
