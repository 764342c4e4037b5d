//! The verified core of the chat module: the conversation history it keeps,
//! the delivery state it reports, the events it raises, the names of its log
//! files, and the rules of the mailbox relay it talks to.

pub mod text;
pub mod chats;
pub mod delivery;
pub mod events;
pub mod utf8;
pub mod errors;
pub mod bootstrap;
pub mod display;
pub mod logging;
pub mod codec;
pub mod relay;
pub mod mailbox;
