pub mod canonical;
pub mod components;
pub mod parse;
pub mod render;
pub mod schema;
pub mod sugar;
pub mod expansion;
pub mod grammar;
pub mod laws;
pub mod template;
pub mod validate;
pub mod watcher;
