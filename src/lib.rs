//! A chat bot's command surface: the slash-command tokenizer and response
//! rules, and the private conversation that collects what a sync job needs.

pub mod commands;
pub mod sync;
pub mod text;
