//! Recognition and analysis logic for a handheld port and application manager.
use vstd::prelude::*;

pub mod text;
pub mod syntax;
pub mod textset;
pub mod paths;
pub mod shell_sources;
pub mod findings;
pub mod shell_eval;
pub mod shell_paths;
pub mod port_zip;
pub mod entry_names;
pub mod bundle_layout;
pub mod recognition;
pub mod task;
pub mod runtime;
pub mod launcher;
pub mod storage;
pub mod web;
pub mod resolution;
pub mod connections;
pub mod pairing;
pub mod archive_validation;
pub mod journal;
pub mod install_plan;
pub mod path_order;
pub mod storage_roots;
pub mod digests;
pub mod revision;
pub mod progress;
pub mod install_space;
pub mod inventory_guard;
pub mod device_config;
pub mod platform_context;
pub mod operations;
pub mod task_admission;

verus! {

} // verus!
