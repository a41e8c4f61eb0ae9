# hexler

A colourful hex printer. The library decides how bytes become lines and lines a dump, and proves it.

- `src/session.rs`: a dump step by step, for whoever owns the input and the output.
- `src/blocks.rs`, `src/line_writer.rs`, `src/border_writer.rs`, `src/hex_formatter.rs`,
  `src/ascii_renderer.rs`, `src/byte_to_color.rs`: blocks, lines, borders, columns and colours.
- `src/dump.rs`, `src/buffer_writer.rs`: dumps of data in memory.
- `src/args.rs`, `src/title.rs`, `src/error.rs`: what the user asks for, titles and messages.
- `src/laws.rs`, `src/shown.rs`, `src/faithful.rs`: what holds of the library as a whole.
- `app/`: the command line, files, threads and the pager.
