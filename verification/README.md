# copetch

A small system-information fetch tool for NixOS: it prints a column of
`key > value` rows (OS, kernel, uptime, memory, packages, ...) beside a logo,
which is text art, a PNG or the first frame of a GIF shown through the kitty
graphics protocol.

- `src/` is the library, verified with Verus: the configuration and its
  defaults (`config`), text handling on character sequences (`text`), the
  rendering of rows, colours and layouts (`display`), the kitty protocol
  (`kitty`), and the parsing of system files and command output (`system`).
- `app/` is the program around it: it reads the configuration file (TOML),
  the system files, environment variables and command output, and prints
  what the library composes.
- `tests/` runs the library on concrete inputs.
