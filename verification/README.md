# mctop

A terminal dashboard for Folia and Paper Minecraft servers: tick rate, tick
times, heap pressure, per-region detail, world sizes on disk.

The crate is written in Verus. Everything that decides something lives in
`src/` and carries a contract that Verus proves:

- `server` — server addresses: parsing `host[:port]`, IPv6 brackets, writing
  an address back out.
- `config` — the configuration, its defaults, where the RCON password comes
  from, which worlds are watched.
- `cli` — the subcommands and the overrides given on the command line.
- `source` — everything read from the server and the machine: the text
  grammar of `/tps`, `/mspt`, `/list`, `/version` and the Folia region report
  (`parse`, `grammar`), `jstat`/`jcmd` output and the heap watcher (`jvm`),
  the RCON connection's state (`rcon`), the search for the server's process
  (`process`), the walk of a world folder (`disk`), the polling engine
  that turns replies into updates (`engine`), and what each collector loop
  does when a timer fires or the interface sends word (`schedule`).
- `metrics` — readings and their histories.
- `app` — the dashboard's state: tabs, keys, the console and its scrollback,
  region sorting and selection.
- `view`, `panels`, `format` — what each part of the screen says, the health
  each reading is shown in, and how numbers are written.
- `report` — the one-shot `status` and `probe` reports.
- `clock`, `text` — time and text helpers.

`app/` is the program around the library: the terminal, the RCON socket, the
process table, the filesystem, the JDK tools, and the async loops that drive
them. It hands the library plain values and draws what the library returns.

`tests/` runs the library on concrete inputs.
