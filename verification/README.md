# lxlake

A small application framework with a voxel world on top of it, in Verus.

- `src/` is the library. Its contracts are stated in `requires` and `ensures` and proved, but for the
  items below, which stand for code of others and are taken on trust.
  - `contract` holds the words that all layers share: windows, widgets, input, events, commands,
    errors.
  - `runtime` is what drives an application: the window registry, the event driver, frame clocks,
    command queues, jobs, mailboxes, logging and overlays.
  - `path` and `project` find and read what belongs to an application.
  - `ui` has documents in LXML, their node tables, the widget tree, text layout and drawing lists.
  - `world` and `meshing` are the voxel world: blocks, chunks, edits, ray casting, collision, terrain,
    streaming and greedy meshes.
  - `render` decides what goes to the graphics card and where.
  - `editor` and `demo` are two applications.
- `tests/` holds the tests of the library.
- `app/` is the program around the library: windows, graphics, files, threads, and the geometry over
  real numbers.

Statements that span several functions are public proof functions; each carries the statement in words
above it.

## What is trusted

Each of these carries a doc comment that says what it claims of the code behind it.

- `text`: the contract of `String::push`.
- `shared::share`: `Arc::clone`.
- `runtime::jobs`: the queues of `crossbeam_deque` as opaque types (`ExInjector`, `ExWorker`,
  `ExStealer`), and the calls into them (`pop_own`, `steal_shared`, `steal_other`, `new_shared`,
  `push_shared`, `new_own`, `far_end`), of whose results nothing is claimed.
- `project::read_document` and the name `toml_document`: reading TOML with `toml`.
- `entry::read_function` and the name `function_source`: reading a function with `syn`.
- `ui::text`: the font of `ab_glyph` and its error as opaque types (`ExFontVec`, `ExInvalidFont`), the
  calls `read_font`, `reason_of` and `number_of`, and the names `font_data`, `readable_font` and
  `glyph_number`.

`runtime::pump::EventSource`, `runtime::pump::Wakeup` and `runtime::command::CommandExecutor` are traits
for applications to implement; what is proved through them holds of implementations that keep their
contracts.
