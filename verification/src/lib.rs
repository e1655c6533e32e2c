//! Logic of a local voice assistant: the agent persona, tool routing and the
//! tools' own computations, an arithmetic parser, the knowledge base's
//! chunking and search, sentence splitting for speech, stream framing for
//! the language model, the conversation core, and the chat window's texts
//! and markdown reading.
pub mod agent;
pub mod clock;
pub mod config;
pub mod text;
pub mod memory;
pub mod tts;
pub mod llm;
pub mod stt;
pub mod ui;
