pub mod actions;
pub mod bits;
pub mod buffer;
pub mod canvas;
pub mod canvas_laws;
pub mod clipboard;
pub mod color;
pub mod config;
pub mod file;
pub mod geometry;
pub mod input;
pub mod keymap;
pub mod multicanvas;
pub mod pixel;
pub mod render;
pub mod tools;
pub mod watched;
