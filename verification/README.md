# cios

The logic of CIOS, a small x86_64 kernel that shows a translucent terminal
over a wallpaper, with an in-memory file system, a shell, a file manager,
CSS-like themes and a text editor. Verus proves the functions in `src/`
against their contracts. The trusted items, whose contracts are believed
rather than proved, are the wrappers of std's `String::push` and
`String::from_utf8_lossy` (and the name `lossy_text` for the latter's
result), the declaration of `pc_keyboard::DecodedKey`, and in
`src/bake.rs` the declaration of `image::ImageError`, the wrapper that
decodes and stretches a picture with the `image` crate (with the names
`picture_decodes` and `stretched_rgb` for its outcome) and the one that
gives an error's message.

The desktop draws into a pixel grid (`Framebuffer`), one colour per pixel.
`Framebuffer::store_into` lays that grid into display memory the way the
hardware reads it: a packed 32-bit word per pixel at byte
`y * pitch + x * (bpp / 8)`, so at 24 bits per pixel each word overlaps the
next pixel's first byte, which that pixel's own word then overwrites. The
panel redraws paint on a copy of the screen and copy back only the panel's
rectangle, so every pixel outside the panel keeps its value.

## Layout

- `src/theme.rs`, `src/css.rs` — colours, alpha blending, the built-in
  themes and the theme language.
- `src/framebuffer.rs`, `src/bitmap.rs`, `src/font.rs`, `src/text.rs` — the
  pixel grid the desktop draws into, wallpapers, the glyph atlas and text.
- `src/terminal.rs` — wallpaper, bar and the panel of each mode (shell,
  file manager, theme menu, theme editor, editor).
- `src/fs.rs`, `src/shell.rs` — the file system tree and the shell commands.
- `src/desktop.rs` — what each key press does to the desktop session.
- `src/keyboard_queue.rs`, `src/interrupts.rs` — the key queue, modifier
  tracking and interrupt numbering.
- `src/nano.rs` — what the desktop needs around the C editor.
- `src/bake.rs` — baking a wallpaper from a JPEG or PNG picture (decoded
  and stretched by the `image` crate), baking the glyph atlas from
  rasterised glyphs, and the layout of both files.
- `src/strings.rs` — text helpers shared by the parsers.
- `app/` — the kernel around the library: boot-loader requests, heap,
  interrupts, serial log, the editor's C interface and the event loop.
- `tests/` — scenarios run against the compiled library.

Public proof functions named `law_*` state the properties that hold across
operations (for instance that a resolved path resolves to itself, that a
file reads back what was written, or that the key queue keeps the latest
presses in order).
