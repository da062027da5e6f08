# lithographer

The host-side logic of Lithographer, a desktop app that flashes disk images
and clones block devices through the `litho` helper, written in Verus and
proved against its contracts.

`src/` is the verified library:

- `text` — characters, Unicode whitespace, trimming, searching, ASCII case,
  decimal numbers.
- `fields`, `litho_output` — the `litho -o gui` line protocol
  (`@status`, `@progress`, `@error`, `@done`, raw lines).
- `litho_runner` — the litho command line, the runner's state machine
  (start, cancel, finish) and the events that end an operation.
- `launch` — command-line parameters, including the elevated relaunch.
- `privilege` — elevation backends, spawn modes, Windows labels and quoting.
- `diagnostics` — polkit agent search order, command previews, the startup
  diagnostics record.
- `devices` — device names, size classes and the picker's order.
- `litho_sidecar` — sidecar candidates and staging.

`app/` is the Tauri program around it: windows, dialogs, processes, files
and Win32 calls. `tests/` runs the library on concrete values.
