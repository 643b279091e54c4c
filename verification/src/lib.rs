pub mod text;
pub mod keys;
pub mod toml_tree;
pub mod config;
pub mod migration;
pub mod recognition;
pub mod speech;
pub mod stratagems;
pub mod assets;
pub mod ai;
pub mod sessions;
pub mod errors;
pub mod vision;
pub mod chat_flow;
pub mod wiki_dom;
pub mod download_flow;
