# dsh_desktop

The decision logic of the DSH desktop shell, the window that starts, watches and
talks to a local `dsh web` server, as a library verified with Verus.

- `src/` is the library. Every function in it carries a contract, and Verus proves
  it. The laws of the library are public proof functions whose names begin with
  `law_`. Calls into `url`, `getrandom` and `semver` go through a few small
  wrappers, each with a doc comment that says what its contract assumes.
  - `host_lifecycle`, `manager`, `runtime`: the `dsh web` start/restart state
    machine, the manager loop's step from event to action, the health watch, the
    deep-link queue and the log tail.
  - `profiles`, `projects`, `plugin_ops`, `embedded`: profile selection with
    rollback, the project list, plugin command requests and the plugin overlay.
  - `config`, `desktop_settings`, `mode`, `theme`, `lan_proxy`: settings and their
    checks, the UI theme tokens, and the LAN proxy's settings and output.
  - `launch`, `process`, `urls`, `window`, `notifications`, `search_path`: process
    arguments and output, URL rules, window actions and colours, and the search
    path.
  - `text`, `json`, `paths`: verified string helpers and the document tree that
    the settings are read from.
- `tests/` runs the library on concrete values.
- `app/` is the unverified part around it: files, processes, sockets, and serde
  copies of the library's types.
