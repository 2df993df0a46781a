pub mod builtins;
pub mod checks;
pub mod checks_laws;
pub mod completion;
pub mod history;
pub mod numbers;
pub mod order;
pub mod parser;
pub mod parser_laws;
pub mod text;

pub use builtins::{command_type, echo, jobs};
pub use completion::ShellHelper;
pub use parser::ShellCommand;
