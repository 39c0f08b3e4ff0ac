pub mod constraints;
pub mod shared;
pub mod toml_value;
pub mod num_order;
pub mod config;
pub mod json_schema;
pub mod load;
