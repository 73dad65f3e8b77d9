# qwen_studio

The decision core of the Qwen Studio desktop shell, written and verified in Verus,
and the shell itself as ordinary Rust around it.

- `src/` is the verified library.
  - `version`, `updates`: comparing versions, offering and installing updates
  - `navigation`, `icon`: what the windows may show
  - `host`, `servers`, `config`, `settings`: the MCP configuration, from the defaults
    to the settings file
  - `bridge`, `client`, `reconfigure`: the line protocol of the MCP bridge, the calls over
    it, how it is brought up and closed, and how it is told of a change
  - `json`: the calls into `serde_json`, with what is trusted of each
  - `text`: text primitives
- `app/` holds the processes, files, windows and network.
- `tests/` runs the library with its real dependencies.
