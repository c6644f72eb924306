//! Chat presence for a multiplayer block game: which players are typing or
//! have just spoken, shared between clients over the game's plugin-message
//! channel.
//!
//! The verified core:
//! - [`event`]: the chat presence events;
//! - [`wire`], [`codec`]: the relay message, serialized and compressed;
//! - [`packet`], [`reassembly`]: the chunker that splits a message into
//!   channel packets, and the buffers that put streams back together;
//! - [`debounce`]: at most one text change sent per interval;
//! - [`chat_input`]: the chat input state machine, which keeps private text
//!   to itself;
//! - [`chat_message`]: received chat lines, split into speaker and text;
//! - [`registry`]: listeners held by weak handles, and their dispatch;
//! - [`bubble`], [`pixels`]: what a bubble shows;
//! - [`plugin`]: the context that ties them together;
//! - [`seqs`]: facts about sequences that the proofs share.
pub mod bubble;
pub mod chat_input;
pub mod chat_message;
pub mod codec;
pub mod debounce;
pub mod event;
pub mod packet;
pub mod pixels;
pub mod plugin;
pub mod reassembly;
pub mod registry;
pub mod seqs;
pub mod wire;
