pub mod text;
pub mod ids;
pub mod order;
pub mod pinned_memory;
pub mod favorite_workspace;
pub mod agents;
pub mod skills;
pub mod models;
pub mod error;
pub mod compression;
pub mod memory;
pub mod clawhub;
pub mod todo;
pub mod config;
pub mod asr;
pub mod tools;
pub mod codebase;
pub mod text_utils;
pub mod web_fetch;
pub mod web_search;
