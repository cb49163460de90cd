//! Vim-style pasting for a multi-cursor editor, and the client side of a streaming
//! text-generation endpoint.

pub mod miner;
pub mod text;
pub mod vim;
