//! What `ctx` says and decides: each command's text is a function of what the
//! store answered.

pub mod branches;
pub mod changes;
pub mod claims;
pub mod commands;
pub mod ideas;
pub mod output;
pub mod project;
pub mod refine;
pub mod removal;
pub mod renaming;
