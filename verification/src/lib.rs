pub mod bindings;
pub mod buffer;
pub mod get_input;
pub mod input;
pub mod location;
pub mod motion;
pub mod small;
pub mod text;
pub mod trie;
pub mod vim;
pub mod screen;
