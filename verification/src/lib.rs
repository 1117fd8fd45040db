//! Named sets of environment variables, and the shell commands that switch
//! from one set to another.
//!
//! A profile is a set of variables with their values; a configuration holds
//! the profiles by name. A switch to a profile is a list of commands for
//! the user's shell: they unset the variables of the profile that was
//! active, export those of the new one, and record in two marker variables
//! which profile is active and which variables it has exported.

pub mod config;
pub mod editor;
pub mod errors;
pub mod listing;
pub mod name_map;
pub mod names;
pub mod shell;
pub mod switch;
pub mod text;
