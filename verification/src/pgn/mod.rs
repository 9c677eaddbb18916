//! PGN: tokens, the move tree of a game, parsing and rendering.
pub mod error;
pub mod rendering_config;
pub mod parsing_state;
pub mod move_info;
pub mod moves;
pub mod metadata;
pub mod tree;
pub mod object;
pub mod lexer;
pub mod parser;
pub mod render;
