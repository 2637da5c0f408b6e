# dirtail

`dirtail` tails all files of a directory whose names match a glob pattern. It
shows the last ten lines of each file that is there, follows them, picks up new
files as they appear and handles log rotation. Each file has a colored prefix,
and lines are colored by the log level that their words tell.

```sh
dirtail                                       # every file of the current directory
dirtail /var/log '*.log'
dirtail --dir /var/log --pattern '*.log'
```

## Layout

- `src/` is the library, verified with Verus: what the program decides.
  - `cli`: which directory and which pattern the arguments ask for.
  - `filter`: which names the pattern accepts.
  - `path`, `registry`: the files that are tailed and their color indices.
  - `order`, `startup`: the files that are there at the start, sorted by name for
    their colors and by age for the screen.
  - `listing`: the order in which a directory is listed, which plays no part.
  - `tail`: the ring of the last ten lines.
  - `follow`: following a file, as steps between actions and their outcomes.
  - `watch`: changes in the directory.
  - `text`, `style`, `ansi`, `color`, `message`, `notice`: what is printed.
- `app/` is the program around it: arguments, files, threads and the terminal.
- `tests/` runs the library.

The library calls `colored` (in `style`), `glob` and `std::path::is_separator`
(in `filter`), and `str::to_uppercase` (in `text`). What it takes for granted of them is stated
beside each call.
