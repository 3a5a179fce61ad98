pub mod path_safety;
pub mod models;
pub mod duplicate;
pub mod recycle_bin;
pub mod settings;
pub mod history;
pub mod duplicate_scan;
pub mod duplicate_groups;
pub mod duplicate_report;
pub mod duplicate_run;
pub mod large_files;
pub mod migration;
pub mod operations;
pub mod cancellation;
pub mod fixtures;
