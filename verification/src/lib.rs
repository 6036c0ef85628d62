//! Conversion between the OpenAI Responses API and the Chat Completions API.

pub mod call_laws;
pub mod calls;
pub mod content_laws;
pub mod error;
pub mod event_laws;
pub mod events;
pub mod ids;
pub mod json;
pub mod json_laws;
pub mod lifecycle_laws;
pub mod reading_laws;
pub mod request;
pub mod request_laws;
pub mod response;
pub mod response_laws;
pub mod session_laws;
pub mod sse;
pub mod sse_laws;
pub mod stream;
pub mod stream_laws;
pub mod text;
pub mod told_laws;
pub mod value;
pub mod view_laws;
