//! The verified core of a desktop chat client for a local language-model
//! server: the incremental segmenter of streamed replies, the per-conversation
//! session state machine, and the flat/live history model.

pub mod api;
pub mod chat;
pub mod history;
pub mod markdown;
pub mod menubar;
pub mod output;
pub mod scan;
pub mod settings;
pub mod sidebar;
pub mod stamp;
pub mod tabs;
pub mod text;
