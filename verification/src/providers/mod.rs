//! Provider implementations.

pub mod anthropic;
pub mod anthropic_request;
pub mod anthropic_types;
pub mod log;
pub mod mock;
pub mod openai;
pub mod openai_request;
pub mod openai_types;
pub mod reader;
pub mod transport;
