# nicaiemu_core

The display side of an emulator core for handheld games, verified with Verus.

Games call the firmware for display services: rectangles, text, images and compressed resource
streams. The library carries them out on a model of the guest's memory, registers and heap. Every
function has a contract over that model, and the laws that the services keep together are proved
beside them.

- `src/memory.rs`, `src/heap.rs`, `src/machine.rs`: the state of the machine.
- `src/surface.rs`, `src/rotation.rs`: pixels, clipping, and how the display is turned.
- `src/drawing.rs`, `src/blit.rs`, `src/lettering.rs`: rectangles, image copies and text.
- `src/font.rs`, `src/text.rs`: glyphs of the `unifont` crate, text decoded by `encoding_rs`.
- `src/images.rs`, `src/stream.rs`, `src/stream_laws.rs`: guest images and compressed streams.
- `src/lcd.rs`, `src/lcd_laws.rs`: the services by number, and what they promise as a whole.
- `src/builtin_files.rs`: files that games expect beside themselves.
- `app/`: the host that connects the services to the processor and to the image decoder.
- `tests/`: the library on concrete values, with the real outside crates.
