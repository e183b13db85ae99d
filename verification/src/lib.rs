pub mod generator;
pub mod json;
pub mod laws;
pub mod json_merge;
pub mod lang;
pub mod markdown;
pub mod order;
