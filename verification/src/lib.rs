//! A Node.js module resolver: request parsing, the `exports`/`imports`
//! field mappings of `package.json`, alias handling and the resolution
//! pipeline over a user supplied file system.

pub mod binding;
pub mod context;
pub mod description;
pub mod entry;
pub mod error;
pub mod info;
mod outside;
pub mod json;
pub mod kind;
pub mod map;
pub mod options;
pub mod parse;
pub mod path;
pub mod plugin;
pub mod request_path;
pub mod resolve;
pub mod resolver;
pub mod resource;
pub mod rules;
pub mod text;
pub mod tsconfig;
pub mod tsconfig_path;
