pub mod exec;
pub mod json_data;
pub mod metadata;
pub mod namespace;
pub mod perception;
pub mod previews;
pub mod prompt;
pub mod py_bridge;
pub mod py_laws;
pub mod py_methods;
pub mod py_plain;
pub mod py_schema;
pub mod py_walk;
pub mod runtime;
pub mod submit;
pub mod tools;
pub mod turns;
pub mod types;
pub mod values;
