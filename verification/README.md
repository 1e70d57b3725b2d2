# o_shell

A minimalist interactive Unix shell. The library in `src/` holds its logic,
each function with a contract proved by Verus, except four small trusted
wrappers around std (`String::push`, `str::to_lowercase`, `Path::file_name`,
`Path::join`) whose contracts are taken from std's documentation:

- `lexer`: splits a command line into tokens (double quotes, backslash
  escapes, the one-character operators `|`, `>`, `<`, `;`).
- `parser`: builds the syntax tree, commands joined by `;`.
- `editor`: the raw-mode line editor as a state machine (history with the
  arrow keys, backspace, Ctrl+D, continuation after `\` or an open quote),
  and the handling of a completed line (history, `exit`, parse errors).
- `executor`: which built-in a name stands for, and the run of a command
  line's parts in order, stopping at the first that fails.
- `builtins`: the decisions of `cd`, `pwd`, `cp`, `mv`, `echo`, `exit`, `rm`,
  `mkdir`, `cat` and `ls` (options, ordering, name quoting, permission
  strings, the aligned long listing).
- `text`, `columns`, `order`: characters, number rendering and padding, and
  a stable sort.

`app/` is the program around it: the terminal, the file system, the
environment, processes (`fork`, pipes, redirections), user and group names
and local time.
