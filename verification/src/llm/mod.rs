//! The language model's messages and the framing of its streamed answers.
pub mod rig_client;

pub use rig_client::ChatMessage;
