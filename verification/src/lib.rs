//! Verified building blocks of the Android build tools: aconfig flag storage
//! files, aconfig Java code generation decisions, and SDK finalization.

pub mod beta_namespaces;
pub mod flag_cache;
pub mod flag_info;
pub mod flag_value;
pub mod flag_value_query;
pub mod flag_value_update;
pub mod java_codegen;
pub mod java_names;
pub mod module_sdk;
pub mod paths;
pub mod platform_sdk;
pub mod regex_match;
pub mod sdk_checks;
pub mod sdk_version;
pub mod storage_dump;
pub mod storage_file;
pub mod text;
pub mod zip_archive;
