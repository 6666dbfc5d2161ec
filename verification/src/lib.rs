//! A Gemini browser's core: reading text/gemini pages, parsing addresses and
//! server responses, and the browsing state that keyboard commands change.

pub mod interface;
pub mod laws;
pub mod networking;
pub mod parser;
pub mod state;
pub mod text;
