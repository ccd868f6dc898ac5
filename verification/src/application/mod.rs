//! What the server does with a chat request, apart from running the model.

pub mod chat;
