pub mod text;
pub mod layout;
pub mod diff;
pub mod tree;
pub mod editor;
pub mod prompt;
pub mod path;
pub mod highlight;
pub mod keys;
pub mod laws;
pub mod screen;
