//! The agent's tools: their arguments, their errors, and the decisions and
//! text they produce around the work that the application performs.

pub mod search_file;
pub mod search_history;
pub mod search_memory;
pub mod set_title;
pub mod shell;
pub mod skill_tools;
pub mod sub_agent;
pub mod write_file;
