pub mod ast;
pub mod cli;
pub mod lmml;
pub mod oscillator;
pub mod parsers;
pub mod render;
pub mod text;
pub mod timeline;
