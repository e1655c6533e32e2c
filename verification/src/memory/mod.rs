//! Memory: the knowledge base and the statistics of the memory database.
pub mod database;
pub mod rag;

pub use database::MemoryStats;
pub use rag::KnowledgeBase;
