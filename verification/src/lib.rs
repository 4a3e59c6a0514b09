//! A customer-service chatbot driven by a small script language.
//!
//! A script is read line by line into commands (`command`), the commands are
//! read into a tree of blocks (`block`), and the blocks answer the lines a
//! user types (`script`). `script_text` writes a block structure down as the
//! commands of its script; `block_laws` and `command_laws` state what
//! reading promises.
pub mod text;
pub mod command;
pub mod block;
pub mod script;
pub mod parse;
pub mod script_text;
pub mod block_laws;
pub mod command_laws;
