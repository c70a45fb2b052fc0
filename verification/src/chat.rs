//! Plain records exchanged with the chat endpoint.

use vstd::prelude::*;

verus! {

/// One line in the chat panel.
#[derive(Debug, Clone)]
pub struct ChatMessage {
    pub id: i64,
    pub user: String,
    pub text: String,
    pub color: String,
}

/// One generated viewer comment.
#[derive(Debug, Clone)]
pub struct ChatComment {
    pub user: String,
    pub text: String,
    pub color: String,
}

/// Body of a chat request.
pub struct ChatRequest {
    pub message: String,
}

/// Body of a successful chat reply.
pub struct ChatResponse {
    pub comments: Vec<ChatComment>,
}

/// Body of a failed chat reply.
pub struct ErrorResponse {
    pub error: String,
    pub details: Option<String>,
}

} // verus!
