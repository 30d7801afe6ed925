//! What the command-line tool decides, apart from reading and printing.

pub mod bench;
pub mod chat;
pub mod convert;
pub mod eval;
pub mod inspect;
pub mod tune;
pub mod verify;
