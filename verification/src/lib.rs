//! Decision and formatting logic of a terminal process monitor.
use vstd::prelude::*;

pub mod lex;
pub mod procs;
pub mod render;
pub mod select;
pub mod status;
pub mod table;
pub mod text;
