//! A client for a text-generation endpoint that streams its answer.

pub mod huggingface;
pub mod json;
pub mod laws;
pub mod response;
pub mod stream;
