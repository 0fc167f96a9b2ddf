# archive_rclick

The decision core of an archive manager, written in Rust and verified with
[Verus](https://github.com/verus-lang/verus). Every function of the library
states what it returns or changes in its contract. Verus proves the contracts,
except those of seven small wrappers around functions of the standard library
and of the `time` and `zip` crates, and of `String::push`: these it believes.
Each of them says what it claims in a comment of its own.

The library reads and writes nothing. File operations, the registry, the shell
and the native archive libraries are left to the program around it, which hands
the library plain values and carries out the steps that it is told.

## Layout

- `src/` holds the verified library.
  - Paths, names and texts: `text`, `paths`, `names`, `order`, `wildcard`,
    `command_line`.
  - Archive formats and entries: `format`, `ffi`, `options`, `listing`,
    `zip_names`, `stamps`.
  - Operations: `create_run`, `read_run`, `zip_run`, `zip_file`, `zip_item`,
    `target_run` and the rules that they follow in `creation`, `planning`,
    `extracting`, `updating`, `zip_creation`, `zip_extraction`, `source`,
    `installing`, `file_ops`, `parallel`, `pipeline`.
  - Streams: `streams`, `joined`, `volumes`.
  - Engines: `engine`, `composite`, `unsupported`, `interfaces`.
  - Progress: `progress`, `compression_progress`, `taskbar`.
  - The command line: `cli`, `cli_run`.
  - The desktop: `registry`, `settings`, `associations`, `context_menu`,
    `menu_registration`, `shell_ext`, `shell`, `drop_target`, `explorer_drag`,
    `titlebar`, `zone_identifier`, `fallback`.
- `tests/` runs the library on concrete values.
- `app/` is a console program around the library. It reads and writes ZIP
  archives with the `zip` crate. The native engines, the registry and the shell
  are not bound there, so what the library decides about them has no caller in
  it.

Public proof functions whose names start with `law_` state what holds of several
functions together.
