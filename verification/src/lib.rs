//! Maze logic, pixel drawing and menu rules of a small raycasting game.
//!
//! Drawing is specified in layers: a [`framebuffer::Framebuffer`] is a
//! row-major grid of `0xRRGGBB` pixels, and each drawing routine states the
//! ordered list of layers (covered pixels and their color) it paints over
//! what the buffer held before.
pub mod caster;
pub mod framebuffer;
pub mod game;
pub mod gamepad;
pub mod line;
pub mod maze;
pub mod menu;
pub mod shapes;
pub mod sprite;
pub mod text;
pub mod texture;
pub mod render;
pub mod audio;
