# snow_core

The deterministic core of a 68k Macintosh emulator, as a verified library: address translation of
the 68030 and 68851 with its read-only inspection, the synchronous owner of a machine, and the
small rules around them.

- `src/cpu_m68k` is the processor as far as address translation goes. `pmmu/walk.rs` is the search
  through the tables, `pmmu/translate.rs` the translation of accesses with its cache, and
  `pmmu/inspect.rs` the prediction of what an access would do. `pmmu/prediction.rs` proves that the
  predictions come true where the descriptors lie in plain memory, `pmmu/effects.rs` that the listed
  descriptor updates are the ones that happen, and `pmmu/laws.rs` what else holds of every search
  and translation.
- `src/headless` is a machine with one owner. The hardware is whatever implements `EmulatorCore`;
  `board.rs` is the smallest that does, and proves what the trait asks of hardware. `digest.rs` and
  `json.rs` make digests of the guest's state, `media.rs` holds private block images and floppies
  on their way into a drive, and `laws.rs` states what holds over several operations.
- `src/floppy` has noise streams and raw images, `src/renderer` finished frames, `src/watch.rs`
  watchpoint types, and `src/util` the scrap, text and byte order.
- `app` is what surrounds the library on the host: files, threads, stored forms and messages.
- `tests` runs the library, with hardware that executes a few instructions.

What is believed without proof is the behaviour of `rand_chacha`, `rand`, `serde_json`, `sha2`,
`hex` and a few functions of the standard library; each such item says above it what it claims.
Hardware that is written outside the library is believed to keep to the contracts of
`EmulatorCore`.
