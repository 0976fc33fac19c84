//! A small software rasterizer whose integer core is verified with Verus.
//!
//! The crate owns the pixel grids (framebuffer and texture), the discrete
//! line and triangle rasterization algorithms, and the depth test. Depth
//! values are carried as IEEE-754 single-precision bit patterns, so every
//! decision the rasterizer takes is a statement about integers.

pub mod color;
pub mod depth;
pub mod fps;
pub mod framebuffer;
pub mod image_rw;
pub mod line;
pub mod model;
pub mod texture;
pub mod triangle;
pub mod vector;

pub use color::Color;
pub use depth::Depth;
pub use fps::Fps;
pub use fps::FpsRet;
pub use framebuffer::Framebuffer;
pub use framebuffer::FramebufferError;
pub use image_rw::image_read;
pub use image_rw::ImageFormat;
pub use image_rw::ImageReadError;
pub use image_rw::ImageWriteError;
pub use model::ModelError;
pub use line::draw_line;
pub use line::LineSteps;
pub use texture::Texture2D;
pub use texture::Texture2DError;
pub use texture::Texture2DFilterMode;
pub use texture::Texture2DWrapMode;
pub use triangle::draw_triangle;
pub use triangle::draw_triangle_flat;
pub use triangle::triangle_fragments;
pub use triangle::Fragment;
pub use triangle::Shade;
pub use vector::Vec2i;
pub use vector::Vec3i;
