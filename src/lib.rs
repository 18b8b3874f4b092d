//! Rendering and navigation engine for Markdown slide decks shown in a terminal.

pub mod ansi;
pub mod highlight;
pub mod layout;
pub mod measure;
pub mod navigation;
pub mod paint;
pub mod project;
pub mod projects;
pub mod ramen;
pub mod slide;
pub mod source;
pub mod style;
pub mod styler;
pub mod text;

pub use project::Project;
