//! The verified core of a local AI agent runtime: provider stream decoding, tool-call
//! aggregation and dispatch, approvals, restart recovery, and transport framing.

pub mod approval;
pub mod connection;
pub mod dispatch;
pub mod error;
pub mod ids;
pub mod json;
pub mod mock;
pub mod openai;
pub mod openai_event;
pub mod provider_worker;
pub mod recovery;
pub mod rpc_service;
pub mod runtime_error;
pub mod session_registry;
pub mod sse;
pub mod stdio;
pub mod text;
pub mod text_collections;
pub mod timestamps;
pub mod tool_call;
pub mod tool_loop;
pub mod tool_worker;
pub mod turn_lifecycle;
pub mod types;
