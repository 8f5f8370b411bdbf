//! Verified core logic of the Atomic knowledge base: markdown-aware chunking
//! for embeddings, provider error classification, MCP response shaping,
//! route defaults and the LongMemEval benchmark helpers.

pub mod text;
pub mod markdown;
pub mod tokenizer;
pub mod chunking;
pub mod chunking_laws;
pub mod provider_error;
pub mod mcp_types;
pub mod models;
pub mod mcp;
pub mod routes;
pub mod pipeline_task;
pub mod longmem;
