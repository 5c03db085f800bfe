# serial_tool

A serial port debugging assistant: text and HEX sending, send queues, file sending,
a receive area with time-stamped batches, and a terminal mode with ANSI colors.

The decisions of the program are a library verified with Verus (`src/`); the window,
the serial port, the files and the settings file are ordinary Rust (`app/`).

## Library modules

- `codec::hex`, `codec::text` — HEX reading and writing; text encodings (UTF-8, GBK, ASCII).
- `config` — settings, send queues and their operations.
- `queue_file` — importing queue entries from text.
- `send` — bytes of the send input and of queue entries, the send history, queue and
  file sending requests.
- `session` — the session's writer: commands, periodic/queue/file jobs, write retries.
- `status` — the interface's view of the session, updated from its events.
- `display`, `receive` — batches of received and sent bytes and the text shown for them.
- `terminal`, `terminal_input`, `terminal_view`, `ansi` — terminal text, keyboard input,
  and the colored runs shown.
- `ports` — port names, the port list and open requests.
- `panels`, `i18n`, `strs`, `util` — panel titles, messages, string helpers, time stamps.
- `laws` — properties that relate several operations.

Decoding and encoding in UTF-8 and GBK are done by `encoding_rs` and std; the library's
contracts state the shown text in terms of what those decoders write out (for UTF-8,
well-formed input shows as its characters), not by re-deriving GBK.

`tests/` runs the library on concrete values.
