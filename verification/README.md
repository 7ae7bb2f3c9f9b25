# ring_cli

Turns YAML command configurations into command-line tools: each
configuration becomes a subcommand of an alias, commands run shell steps
or HTTP requests with `${{flag}}` and `${{env.VAR}}` placeholders filled
in, and configurations are only run from a cache trusted by SHA-256 hash.

## Layout

- `src/` is the verified library. Its functions are proved by Verus
  against their `requires`/`ensures` contracts, except a few small
  `external_body` wrappers (SHA-256, the home directory, the clock, and
  std's `Path::parent`, `char::is_alphanumeric`, `str::to_lowercase` and
  character collection), whose contracts are trusted:
  - `models` – configurations, commands and their validation;
  - `utils` – placeholder substitution and where configurations are read from;
  - `cli` – the command line of an alias and of the installer, flag values,
    shell runs and HTTP request preparation;
  - `cache`, `refresh` – trust hashes, cache paths, metadata updates and the
    comparison of trusted configurations with their sources;
  - `init` – alias names, base directories, name conflicts, banners;
  - `args` – what the program is asked to do, read from its arguments;
  - `style` – colored messages;
  - `bindings`, `paths`, `text` – ordered name/value maps, path joining and
    text helpers.
- `app/` is the program around the library: argument parsing with clap,
  file and process I/O, YAML and JSON (de)serialisation, HTTP with reqwest.
- `tests/` exercises the library.
