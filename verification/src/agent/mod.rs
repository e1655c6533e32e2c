//! The agent: persona, tools and the conversation core.
pub mod calc;
pub mod orchestrator;
pub mod persona;
pub mod tools;

pub use persona::AgentPersona;
pub use orchestrator::ConversationCore;
pub use tools::ToolRegistry;
