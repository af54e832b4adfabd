//! A personal task store: tasks with priorities, kept in a delimited-text
//! table that can be sealed under a passphrase.

pub mod codec;
pub mod commands;
pub mod error;
pub mod task_crypto;
pub mod tasks;
pub mod text;
