//! Core of a language server for the Vale prose linter.

pub mod disk;
pub mod document;
pub mod error;
pub mod json;
pub mod lsp;
pub mod notices;
pub mod path;
pub mod regex101;
pub mod server;
pub mod settings;
pub mod store;
pub mod styles;
pub mod text;
pub mod uri;
pub mod vale;
pub mod version;
pub mod vocab;
pub mod workspace;
