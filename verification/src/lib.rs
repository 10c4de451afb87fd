//! User and permission management for a small operating system: the
//! current user, file capabilities, the user, group, password and sudoers
//! files, and the parsing and decisions of the shell commands that manage
//! them. Every function here is verified against its contract; the files
//! themselves, the console and the file system are handled by the caller,
//! which hands their contents in as text.

use vstd::prelude::*;

pub mod api;
pub mod commands;
pub mod env;
pub mod error;
pub mod fs_user;
pub mod permission;
pub mod script;
pub mod shadow;
pub mod shell;
pub mod text;
pub mod user;

verus! {

} // verus!
