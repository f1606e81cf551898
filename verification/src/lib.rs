//! A verified core for a small interactive shell: a tokenizer that splits one
//! input line into an argument vector plus output-redirection directives,
//! honoring single-quote, double-quote and backslash-escape rules; a
//! classifier for the redirection operators; a dispatch table from command
//! name to builtin; and the pure parts of the builtins themselves.

pub mod builtins;
pub mod dispatch;
pub mod parser;
