//! Verified core of a game-archive file server: the virtual file tree,
//! download-source bookkeeping, provider routing, search-word selection and
//! configuration defaults.

pub mod ai_search;
pub mod config;
pub mod download;
pub mod drivers;
pub mod file_list;
pub mod file_list_loader;
pub mod file_meta;
pub mod hot;
pub mod meta_manage;
pub mod text;
pub mod vfs;
