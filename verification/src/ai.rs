//! The AI operations assistant: alert conversations, monitoring rules and
//! the text it exchanges with a language model.

pub mod alert;
pub mod backend;
pub mod channels;
pub mod conversation;
pub mod command_parser;
pub mod context;
pub mod monitor_plan;
pub mod ops;
pub mod stamps;
