//! The logic of a small desktop kernel: a framebuffer desktop with a
//! translucent terminal over a wallpaper, themes read from a CSS-like text,
//! an in-memory file system with the shell that works on it, a file
//! manager, the panel of a text editor, and the files that the host tools
//! bake for it.
pub mod bake;
pub mod bitmap;
pub mod css;
pub mod desktop;
pub mod font;
pub mod framebuffer;
pub mod fs;
pub mod interrupts;
pub mod keyboard_queue;
pub mod nano;
pub mod shell;
pub mod strings;
pub mod terminal;
pub mod text;
pub mod theme;
