pub mod biver_result;
pub mod codec;
pub mod formatting;
pub mod repository_context;
pub mod repository_data;
pub mod repository_operations;
pub mod repository_paths;
pub mod hash;
pub mod nickname;
pub mod strutil;
pub mod time;
pub mod version_id;
