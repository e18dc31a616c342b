//! A small software renderer support library for microcontroller-class
//! targets: framebuffer models (RGBA and RGB565 with interlaced presentation),
//! a bitmap text overlay, rasterizer block classification, input state
//! machines, and numeric-to-text conversion.

pub mod buffer_screen;
pub mod convert;
pub mod input_state;
pub mod pixel_shader;
pub mod rect;
pub mod screen_trait;
pub mod spi_controller;
pub mod st7735_frame;
pub mod system_traits;
pub mod text;
