//! Notification plumbing for Codex sessions: payload decoding, message
//! building, Telegram MarkdownV2 rendering, Codex hook management, channel
//! request planning and the configuration form, with contracts proved by Verus.

pub mod cli;
pub mod config;
pub mod form;
pub mod install;
pub mod json;
pub mod legacy_notify;
pub mod notify;
pub mod payload;
pub mod text;
pub mod telegram_markdown;
