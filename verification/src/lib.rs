//! The command execution engine of a small interactive shell: word splitting
//! with quoting, pipeline construction, redirections, builtins, command
//! resolution and history, stated over mathematical models and proved.

pub mod argv;
pub mod builtins;
pub mod completion;
pub mod distance;
pub mod executor;
pub mod executor_laws;
pub mod history;
pub mod numbers;
pub mod parser;
pub mod parser_laws;
pub mod pipeline;
pub mod redirect;
pub mod repl;
pub mod resolver;
pub mod text;
pub mod util;
