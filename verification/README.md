# shingetsu

The standard-library core of the Shingetsu Lua runtime, written in Verus:
executable Rust whose behaviour is stated in `requires`/`ensures`
contracts and proved.

## Layout

- `src/` — the verified library.
  - `lua_pattern` — the byte-level Lua pattern matcher.
  - `string_lib`, `format`, `coerce` — the `string` library: slicing,
    case, trimming, splitting, lines, `find`/`match`/`gmatch`/`gsub`, and
    `string.format` with its numeric coercions.
  - `bit32`, `builtins`, `os_date`, `process`, `shlex_lib`, `regex_lib` —
    further libraries and their pure parts.
  - `pretty` — the pretty-printer for values and tables.
  - `diagnostic` — spans, labels, annotation choices and stack tracebacks
    of error reports.
  - `report` — whole error reports (runtime errors, compile errors,
    compiler warnings, diagnostics over several sources): which groups,
    snippets, annotations, hints and help each is rendered as, and how
    they are joined.
  - `regex_bytes`, `regex_fancy`, `regex_search` — the `regex` library
    over both engines.
  - `os_time`, `debug_frames`, `lint_walk`, `load_chunk` — `os.time` /
    `os.date`, debug introspection of frames, lint dispatch over the
    syntax tree, and the rules of `load` and `error`.
  - `config`, `lint_registry` — project configuration (`[check]`) and the
    lint-plugin registry protocol.
  - `env`, `libraries`, `lib.rs` — the model of a global environment and
    the registration of the libraries into it.
- `tests/` — tests against the compiled library.
- `app/` — the program around the library: the command line, and the
  glue to the interpreter, the compiler, child processes and the
  configuration file format.

Outside crates used by the library: `memchr` (substring search),
`shlex` (shell words), `bstr` (UTF-8 decoding), `regex` and
`fancy-regex` (the two regex engines), `time` (the calendar), and
`annotate-snippets` (drawing diagnostic reports).
