pub mod copy_plan;
pub mod text;
pub mod slug;
pub mod ingest;
pub mod exif;
pub mod scan;
pub mod manifest;
pub mod ingest_job;
pub mod ingest_log;
pub mod asset;
pub mod asset_types;
pub mod notion;
pub mod authors;
pub mod status_groups;
pub mod file_watcher;
pub mod focus_refresh;
pub mod changelog;
pub mod status_text;
pub mod auth;
pub mod polyhaven;
pub mod table;
pub mod thumbnails;
pub mod scripts;
pub mod thumb;
pub mod ingest_worker;
pub mod config;
pub mod card_summary;
pub mod script_queue;
pub mod fingerprint;
pub mod throughput;
pub mod copy_job;
pub mod card_run;
pub mod transfers;
pub mod startup;
pub mod session;
