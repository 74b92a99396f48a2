# dev2step

A plain-text task board: `todo.txt` is the single source of truth, a SQLite
file caches it, and a command line moves tasks between the Icebox, Todo,
In Progress and Done columns.

The library in `src/` is verified with Verus:

- `status`: the four columns and their names.
- `text`: whitespace, words, joining, decimal numbers.
- `task`: a task and its model.
- `parser` / `format`: reading a todo.txt line into a task, and writing it back.
- `roundtrip`: proofs that ids survive a rewrite and that a task whose fields
  the format carries reads back unchanged.
- `sync`: loading the lines of a file, giving fresh ids, writing the lines.
- `board`: the command-line operations (add, transition, complete, remove,
  the status board).
- `db_plan`: the history rows and the delete statement for the cache.
- `paths`: the walk up to the directory that holds the board's files.
- `watch`: when an event of the file watcher calls for a reload.
- `clock`: today's date.

`app/` is the program around it: argument parsing, files, SQLite, and the
probes of the file system that the path lookup and the watcher need.
