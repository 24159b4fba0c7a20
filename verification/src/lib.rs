use vstd::prelude::*;

mod chat;
mod error;
mod laws;
mod lexer;
mod parser;
mod patch;
mod paths;
mod serial;
mod strutil;
mod sync;
mod value;
mod value_ops;

pub use chat::TRP3Info;
pub use chat::ChatSender;
pub use chat::ChatRecord;
pub use chat::AccountChatLogs;
pub use chat::AddonState;
pub use chat::ClientState;
pub use chat::SyncState;
pub use sync::SyncStatus;
pub use sync::get_sync_status;
pub use error::LuaParseError;
pub use laws::lemma_empty_aggregate_text;
pub use laws::lemma_upsert_lookup;
pub use laws::lemma_positional_wins;
pub use laws::lemma_tie_break_shape;
pub use patch::lemma_patch_preserves_outside;
pub use error::WriteError;
pub use lexer::Token;
pub use lexer::Lexer;
pub use parser::parse_variable_from_str;
pub use serial::to_lua_table;
pub use patch::patch_variable;
pub use patch::plan_patch;
pub use patch::backup_path_for;
pub use patch::skeleton_content;
pub use paths::get_addon_path;
pub use paths::InstalledAddonInfo;
pub use paths::check_addon_installed;
pub use paths::read_toc_version;
pub use paths::PathProbes;
pub use paths::normalize_wow_path;
pub use paths::validate_wow_path;

pub use value::Value;
pub use value_ops::apply_updates;
pub use value_ops::default_profile_id;
pub use value_ops::set_str_field;
pub use value_ops::set_field_exec;
pub use value::Val;
