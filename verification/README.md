# zenith

The logic of Zenith, a lightweight Linux system monitor, as a verified Verus
library, and the terminal program around it.

- `src/` — the library, verified by Verus:
  - `text.rs`: lines, whitespace tokens, trimming and prefixes over characters;
  - `number.rs`: decimal parsing and formatting;
  - `procfs.rs`: the formats of `/proc/stat`, `/proc/meminfo`, `/proc/loadavg`
    and of a process's `cmdline`, `comm` and `status` files;
  - `snapshot.rs`: ranking processes by resident memory, CPU usage between two
    samples, memory figures, process details and the rows the view shows;
  - `ui.rs`: the view's state machine — selection, panes, keys, clicks and the
    transient status line — with its laws.
- `app/` — the program: reads `/proc`, samples in the background with tokio,
  draws with ratatui and crossterm, and sends signals with libc.
- `tests/` — tests of the library on concrete inputs.
