# rfe

A file explorer for the terminal: an interactive loop with completion and
inline hints, or one command given on the command line. It lists
directories (also by regular expression or by tag), changes and opens
paths, copies paths to the clipboard, moves and creates files, keeps path
aliases (`@name`) and file tags, and chains commands with `->`.

## Layout

- `src/` is the library, verified with Verus. It holds the decisions of
  every command: the words of a line and of the command line, the plans of
  `cd`, `open`, `cpf`, `mv`, `ls`, `tag`, `alias`, `mkdf` and `change`, the
  alias and tag tables, command chains, the interactive loop's state
  machine, completion and hints, quoting, path-completion candidates and
  their order, the directory cache, the listing's lines and icons, and the
  handling of shell output. `src/laws.rs` states the properties that span
  several calls.
- `app/` is the program around it: the line editor, the file system, the
  clipboard, the shell, colours and the long help texts.
- `tests/` runs the library on concrete values.
