//! A client library for a generative-model HTTP service: request payloads, the decoding of
//! streamed JSON responses, the consumers that those responses are handed to, and the state of
//! an interactive chat session.

pub mod accumulator;
pub mod conversation;
pub mod error;
pub mod json;
pub mod message;
pub mod naming;
pub mod request;
pub mod stream;
pub mod text;

pub use error::Error;
pub use accumulator::{
    Accumulator, Console, FieldWriteAccumulator, JsonAccumulator, NotifyAccumulator, Output,
    VecAccumulator,
};
pub use conversation::{Conversation, ConversationAccumulator, ConversationOptions};
pub use message::{ChatAccumulator, ChatMessage, ChatResponse};
pub use request::{
    ChatRequest, CreateRequest, EmbedRequest, GenerateRequest, PullRequest, Request,
    RequestOptions, ShowRequest,
};
pub use stream::{accumulate_chunks, Decoder, ErrorResponse};
