//! Verified core of a backup suite: chunk path handling, checkpoint and task
//! state models, scheduling policy, sector layout and sector encryption.

pub mod text;
pub mod path_helper;
pub mod def;
pub mod clock;
pub mod task_model;
pub mod crypto;
pub mod sector;
pub mod sector_cipher;
pub mod backup_flow;
pub mod restore_flow;
pub mod task_query;
pub mod json;
pub mod rpc_params;
pub mod policy;
pub mod task_flow;
pub mod fs_path;
pub mod snapshot_text;
pub mod fs_monitor;
pub mod file_listing;
pub mod url_text;
pub mod control_requests;
pub mod local_provider;
pub mod chunk;
pub mod dir_scan;
pub mod sector_store;
pub mod event_watch;
pub mod chunk_cache;
pub mod dir_browse;
pub mod command_output;
pub mod snapshot_plan;
pub mod task_set;
pub mod task_requests;
