//! The memory subsystem.
pub mod agent;
pub mod agent_llm;
pub mod collation;
pub mod collation_impls;
pub mod compaction;
pub mod compaction_impls;
pub mod confidence;
pub mod db;
pub mod deferred_edits;
pub mod dreaming;
pub mod markdown_index;
pub mod markdown_laws;
pub mod markdown_query;
pub mod markdown_store;
pub mod memory_llm;
pub mod rag;
pub mod researcher;
pub mod retrieval_agent;
pub mod search;
pub mod vectorstore;
