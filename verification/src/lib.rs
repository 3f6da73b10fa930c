//! Core logic of a local agent daemon: sessions with durable transcripts,
//! provider routing for a streaming LLM gateway, a bounded tool loop,
//! and similarity-ranked skill selection.
pub mod config;
pub mod jsonread;
pub mod jsontext;
pub mod llm;
pub mod message;
pub mod orchestrator;
pub mod protocol;
pub mod select;
pub mod session;
pub mod skills;
pub mod text;
pub mod tools;

